//! WaveDrom: the decisions behind timing lanes, node markers, edges and
//! register fields. Geometry is derived from these by the drawing layer.

use vstd::prelude::*;

use crate::text::{
    alphanumeric, chars_of, concat3, decimal, decimal_string, is_alphanumeric, is_whitespace,
    opt_view, owned, whitespace,
};

verus! {

/// One signal lane: a name, a wave string, data labels and node markers.
pub struct WaveLane {
    pub name: Option<String>,
    pub wave: Option<String>,
    pub data: Vec<String>,
    pub node: Option<String>,
}

/// A labelled group of lanes.
pub struct WaveGroup {
    pub label: String,
    pub items: Vec<WaveSignalItem>,
}

/// An entry of the `signal` array.
pub enum WaveSignalItem {
    Lane(WaveLane),
    Group(WaveGroup),
}

/// A lane together with the label of the innermost group holding it.
pub struct LaneView<'a> {
    pub group: Option<String>,
    pub lane: &'a WaveLane,
}

/// The lanes of `items` in order, each with its innermost group label
/// (`group` for lanes directly in `items`).
pub open spec fn flatten_spec(items: Seq<WaveSignalItem>, group: Option<Seq<char>>) -> Seq<(Option<Seq<char>>, WaveLane)>
    decreases items,
{
    if items.len() == 0 {
        Seq::empty()
    } else {
        let rest = flatten_spec(items.drop_last(), group);
        match items.last() {
            WaveSignalItem::Lane(lane) => rest.push((group, lane)),
            WaveSignalItem::Group(g) => rest + flatten_spec(g.items@, Some(g.label@)),
        }
    }
}

/// What a list of lane views looks like to a contract.
pub open spec fn lane_views(v: Seq<LaneView>) -> Seq<(Option<Seq<char>>, WaveLane)> {
    v.map_values(|l: LaneView| (opt_view(l.group), *l.lane))
}

/// Appends the lanes of `items`, nested groups flattened; see [`flatten_spec`].
pub fn flatten_lanes<'a>(items: &'a Vec<WaveSignalItem>, group: Option<&str>, output: &mut Vec<LaneView<'a>>)
    ensures
        lane_views(final(output)@) == lane_views(old(output)@) + flatten_spec(
            items@,
            match group {
                Some(g) => Some(g@),
                None => None,
            },
        ),
    decreases items@,
{
    let ghost g0 = match group {
        Some(g) => Some(g@),
        None => None,
    };
    let ghost start = lane_views(output@);
    let n = items.len();
    for i in 0..n
        invariant
            n == items.len(),
            start == lane_views(old(output)@),
            lane_views(output@) == start + flatten_spec(items@.take(i as int), g0),
            g0 == match group {
                Some(g) => Some(g@),
                None => None::<Seq<char>>,
            },
    {
        assert(items@.take(i + 1).drop_last() =~= items@.take(i as int));
        assert(items@.take(i + 1).last() == items@[i as int]);
        let ghost before = lane_views(output@);
        match &items[i] {
            WaveSignalItem::Lane(lane) => {
                let g: Option<String> = match group {
                    Some(g) => Some(owned(g)),
                    None => None,
                };
                output.push(LaneView { group: g, lane });
                assert(lane_views(output@) =~= before.push((g0, *lane)));
            },
            WaveSignalItem::Group(nested) => {
                flatten_lanes(&nested.items, Some(nested.label.as_str()), output);
            },
        }
    }
    assert(items@.take(n as int) =~= items@);
}

/// Length in UTF-8 bytes of a lane's wave string, if it has one.
pub open spec fn wave_bytes(lane: WaveLane) -> Option<int> {
    match lane.wave {
        Some(w) => Some((vstd::utf8::encode_utf8(w@).len() as usize) as int),
        None => None,
    }
}

/// The longest wave among `lanes`, in bytes, or `None` when no lane has a wave.
pub open spec fn longest_wave(lanes: Seq<(Option<Seq<char>>, WaveLane)>) -> Option<int>
    decreases lanes.len(),
{
    if lanes.len() == 0 {
        None
    } else {
        let rest = longest_wave(lanes.drop_last());
        match wave_bytes(lanes.last().1) {
            Some(w) => match rest {
                Some(r) => Some(if w > r { w } else { r }),
                None => Some(w),
            },
            None => rest,
        }
    }
}

/// Number of cells drawn: the longest wave (eight when there is none), but at least four.
pub open spec fn max_cells_spec(lanes: Seq<(Option<Seq<char>>, WaveLane)>) -> int {
    let m = match longest_wave(lanes) {
        Some(w) => w,
        None => 8,
    };
    if m < 4 {
        4
    } else {
        m
    }
}

/// Number of cells drawn for a set of lanes; see [`max_cells_spec`].
pub fn max_cells(lanes: &Vec<LaneView>) -> (n: usize)
    ensures
        n as int == max_cells_spec(lane_views(lanes@)),
{
    let ghost v = lane_views(lanes@);
    let mut best: Option<usize> = None;
    let n = lanes.len();
    for i in 0..n
        invariant
            n == lanes.len(),
            v == lane_views(lanes@),
            match best {
                Some(b) => longest_wave(v.take(i as int)) == Some(b as int),
                None => longest_wave(v.take(i as int)) is None,
            },
    {
        assert(v.take(i + 1).drop_last() =~= v.take(i as int));
        assert(v.take(i + 1).last() == v[i as int]);
        assert(v[i as int].1 == *lanes@[i as int].lane);
        match &lanes[i].lane.wave {
            Some(w) => {
                let len = w.as_str().len();
                best = match best {
                    Some(b) => Some(if len > b { len } else { b }),
                    None => Some(len),
                };
            },
            None => {},
        }
    }
    assert(v.take(n as int) =~= v);
    let m = match best {
        Some(b) => b,
        None => 8,
    };
    if m < 4 {
        4
    } else {
        m
    }
}

/// Where a signal line sits within its lane.
#[derive(Clone, Copy, Debug, PartialEq, Eq, Structural)]
pub enum LevelPos {
    Low,
    Mid,
    High,
}

/// What one cell of a wave draws.
#[derive(Clone, Copy, Debug, PartialEq, Eq, Structural)]
pub enum WaveStep {
    /// A level line: a vertical edge from `from` to `to`, then `to` across the cell.
    Level { from: LevelPos, to: LevelPos },
    /// One clock period; inverted clocks start low.
    Clock { inverted: bool },
    /// An unknown (`x`) cell.
    Unknown,
    /// A high-impedance (`z`) cell.
    HighZ,
    /// A data cell, labelled with the data entry of that index when there is one.
    Data { label: Option<usize> },
}

/// Reading state of a wave: current level, clock polarity while a clock
/// runs, and how many data labels have been used.
pub struct WaveCursor {
    pub level: LevelPos,
    pub clock: Option<bool>,
    pub data_index: nat,
}

/// The cell drawn for symbol `c` and the state after it.
pub open spec fn wave_step(c: char, st: WaveCursor, data_len: nat) -> (WaveStep, WaveCursor) {
    if c == '0' || c == 'l' || c == 'L' {
        (WaveStep::Level { from: st.level, to: LevelPos::Low }, WaveCursor { level: LevelPos::Low, clock: None, ..st })
    } else if c == '1' || c == 'h' || c == 'H' {
        (WaveStep::Level { from: st.level, to: LevelPos::High }, WaveCursor { level: LevelPos::High, clock: None, ..st })
    } else if c == 'p' || c == 'P' || c == 'n' || c == 'N' {
        let inverted = c == 'n' || c == 'N';
        (WaveStep::Clock { inverted }, WaveCursor { level: LevelPos::Mid, clock: Some(inverted), ..st })
    } else if c == '.' {
        match st.clock {
            Some(inverted) => (WaveStep::Clock { inverted }, st),
            None => (WaveStep::Level { from: st.level, to: st.level }, st),
        }
    } else if c == 'x' || c == 'X' {
        (WaveStep::Unknown, WaveCursor { level: LevelPos::Mid, clock: None, ..st })
    } else if c == 'z' || c == 'Z' {
        (WaveStep::HighZ, WaveCursor { level: LevelPos::Mid, clock: None, ..st })
    } else if c == '=' || ('2' <= c && c <= '9') {
        if st.data_index < data_len {
            (
                WaveStep::Data { label: Some(st.data_index as usize) },
                WaveCursor { level: LevelPos::Mid, clock: None, data_index: st.data_index + 1 },
            )
        } else {
            (WaveStep::Data { label: None }, WaveCursor { level: LevelPos::Mid, clock: None, ..st })
        }
    } else {
        (WaveStep::Level { from: st.level, to: LevelPos::Mid }, WaveCursor { level: LevelPos::Mid, ..st })
    }
}

/// The cells drawn for the symbols `cs`, starting low with no clock, and the final state.
pub open spec fn wave_steps_spec(cs: Seq<char>, data_len: nat) -> (Seq<WaveStep>, WaveCursor)
    decreases cs.len(),
{
    if cs.len() == 0 {
        (Seq::empty(), WaveCursor { level: LevelPos::Low, clock: None, data_index: 0 })
    } else {
        let (steps, st) = wave_steps_spec(cs.drop_last(), data_len);
        let (step, st2) = wave_step(cs.last(), st, data_len);
        (steps.push(step), st2)
    }
}

/// The cells drawn for a wave string, at most `max_cells` of them; a clock
/// continued by `.` keeps its polarity.
pub fn wave_steps(wave: &str, max_cells: usize, data_len: usize) -> (out: Vec<WaveStep>)
    ensures
        out@ == wave_steps_spec(
            wave@.take(if wave@.len() < max_cells { wave@.len() as int } else { max_cells as int }),
            data_len as nat,
        ).0,
{
    let x = chars_of(wave);
    let n = if x.len() < max_cells { x.len() } else { max_cells };
    let mut out: Vec<WaveStep> = Vec::new();
    let mut level = LevelPos::Low;
    let mut clock: Option<bool> = None;
    let mut data_index: usize = 0;
    for i in 0..n
        invariant
            n <= x.len(),
            x@ == wave@,
            data_index <= data_len,
            ({
                let (steps, st) = wave_steps_spec(wave@.take(i as int), data_len as nat);
                &&& out@ == steps
                &&& st == WaveCursor { level, clock, data_index: data_index as nat }
            }),
    {
        assert(wave@.take(i + 1).drop_last() =~= wave@.take(i as int));
        assert(wave@.take(i + 1).last() == x@[i as int]);
        let c = x[i];
        let step = if c == '0' || c == 'l' || c == 'L' {
            let s = WaveStep::Level { from: level, to: LevelPos::Low };
            level = LevelPos::Low;
            clock = None;
            s
        } else if c == '1' || c == 'h' || c == 'H' {
            let s = WaveStep::Level { from: level, to: LevelPos::High };
            level = LevelPos::High;
            clock = None;
            s
        } else if c == 'p' || c == 'P' || c == 'n' || c == 'N' {
            let inverted = c == 'n' || c == 'N';
            level = LevelPos::Mid;
            clock = Some(inverted);
            WaveStep::Clock { inverted }
        } else if c == '.' {
            match clock {
                Some(inverted) => WaveStep::Clock { inverted },
                None => WaveStep::Level { from: level, to: level },
            }
        } else if c == 'x' || c == 'X' {
            level = LevelPos::Mid;
            clock = None;
            WaveStep::Unknown
        } else if c == 'z' || c == 'Z' {
            level = LevelPos::Mid;
            clock = None;
            WaveStep::HighZ
        } else if c == '=' || ('2' <= c && c <= '9') {
            level = LevelPos::Mid;
            clock = None;
            if data_index < data_len {
                let s = WaveStep::Data { label: Some(data_index) };
                data_index = data_index + 1;
                s
            } else {
                WaveStep::Data { label: None }
            }
        } else {
            let s = WaveStep::Level { from: level, to: LevelPos::Mid };
            level = LevelPos::Mid;
            s
        };
        out.push(step);
    }
    out
}

/// The node markers of a lane: `(cell, name)` for every character among the
/// first `max_cells` that is neither `.` nor whitespace.
pub open spec fn nodes_spec(cs: Seq<char>) -> Seq<(usize, char)>
    decreases cs.len(),
{
    if cs.len() == 0 {
        Seq::empty()
    } else {
        let rest = nodes_spec(cs.drop_last());
        let c = cs.last();
        if c == '.' || whitespace(c) {
            rest
        } else {
            rest.push(((cs.len() - 1) as usize, c))
        }
    }
}

/// The node markers of a lane's `node` string; see [`nodes_spec`].
pub fn lane_nodes(node: &str, max_cells: usize) -> (out: Vec<(usize, char)>)
    ensures
        out@ == nodes_spec(node@.take(if node@.len() < max_cells { node@.len() as int } else { max_cells as int })),
{
    let x = chars_of(node);
    let n = if x.len() < max_cells { x.len() } else { max_cells };
    let mut out: Vec<(usize, char)> = Vec::new();
    for i in 0..n
        invariant
            n <= x.len(),
            x@ == node@,
            out@ == nodes_spec(node@.take(i as int)),
    {
        assert(node@.take(i + 1).drop_last() =~= node@.take(i as int));
        assert(node@.take(i + 1).last() == x@[i as int]);
        let c = x[i];
        if !(c == '.' || is_whitespace(c)) {
            out.push((i, c));
        }
    }
    out
}

/// The first alphanumeric position at or after `k`, or the length when none.
pub open spec fn next_alnum(s: Seq<char>, k: int) -> int
    decreases s.len() - k,
{
    if k >= s.len() {
        s.len() as int
    } else if alphanumeric(s[k]) {
        k
    } else {
        next_alnum(s, k + 1)
    }
}

/// The position of the first non-whitespace character of `t`, or its length.
pub open spec fn lead_ws(t: Seq<char>, k: int) -> int
    decreases t.len() - k,
{
    if k >= t.len() {
        t.len() as int
    } else if !whitespace(t[k]) {
        k
    } else {
        lead_ws(t, k + 1)
    }
}

/// One past the last non-whitespace character of the first `k` characters of `t`, or 0.
pub open spec fn trail_ws(t: Seq<char>, k: int) -> int
    decreases k,
{
    if k <= 0 {
        0
    } else if !whitespace(t[k - 1]) {
        k
    } else {
        trail_ws(t, k - 1)
    }
}

/// `t` without leading and trailing whitespace.
pub open spec fn trim_spec(t: Seq<char>) -> Seq<char> {
    let lo = lead_ws(t, 0);
    let hi = trail_ws(t, t.len() as int);
    if lo < hi {
        t.subrange(lo, hi)
    } else {
        Seq::empty()
    }
}

/// The parts of an edge such as `a~>b label`: its first two alphanumeric
/// characters name the nodes it joins, and what follows the second, trimmed,
/// is its label.
pub open spec fn edge_parts_spec(s: Seq<char>) -> Option<(char, char, Seq<char>)> {
    let i = next_alnum(s, 0);
    if i >= s.len() {
        None
    } else {
        let j = next_alnum(s, i + 1);
        if j >= s.len() {
            None
        } else {
            Some((s[i], s[j], trim_spec(s.skip(j + 1))))
        }
    }
}

proof fn lemma_lead_ws(t: Seq<char>, k: int)
    requires
        0 <= k <= t.len(),
    ensures
        k <= lead_ws(t, k) <= t.len(),
    decreases t.len() - k,
{
    if k < t.len() && whitespace(t[k]) {
        lemma_lead_ws(t, k + 1);
    }
}

proof fn lemma_trail_ws(t: Seq<char>, k: int)
    requires
        0 <= k <= t.len(),
    ensures
        0 <= trail_ws(t, k) <= k,
    decreases k,
{
    if k > 0 && whitespace(t[k - 1]) {
        lemma_trail_ws(t, k - 1);
    }
}

/// Splits a WaveDrom edge into its two node names and its label; see [`edge_parts_spec`].
pub fn edge_parts(edge: &str) -> (out: Option<(char, char, &str)>)
    ensures
        match out {
            Some((a, b, l)) => edge_parts_spec(edge@) == Some((a, b, l@)),
            None => edge_parts_spec(edge@) is None,
        },
{
    let x = chars_of(edge);
    let n = x.len();
    let mut i: usize = 0;
    while i < n && !is_alphanumeric(x[i])
        invariant
            n == x.len(),
            x@ == edge@,
            i <= n,
            next_alnum(edge@, 0) == next_alnum(edge@, i as int),
        decreases n - i,
    {
        i = i + 1;
    }
    if i >= n {
        return None;
    }
    let mut j: usize = i + 1;
    while j < n && !is_alphanumeric(x[j])
        invariant
            n == x.len(),
            x@ == edge@,
            i < j <= n,
            next_alnum(edge@, i + 1) == next_alnum(edge@, j as int),
        decreases n - j,
    {
        j = j + 1;
    }
    if j >= n {
        return None;
    }
    let ghost t = edge@.skip(j + 1);
    let mut lo: usize = j + 1;
    while lo < n && is_whitespace(x[lo])
        invariant
            n == x.len(),
            x@ == edge@,
            j + 1 <= lo <= n,
            t == edge@.skip(j + 1),
            lead_ws(t, 0) == lead_ws(t, lo - (j + 1)),
        decreases n - lo,
    {
        assert(t[lo - (j + 1)] == x@[lo as int]);
        lo = lo + 1;
    }
    proof {
        if lo < n {
            assert(t[lo - (j + 1)] == x@[lo as int]);
        }
    }
    let mut hi: usize = n;
    while hi > j + 1 && is_whitespace(x[hi - 1])
        invariant
            n == x.len(),
            x@ == edge@,
            j + 1 <= hi <= n,
            t == edge@.skip(j + 1),
            trail_ws(t, t.len() as int) == trail_ws(t, hi - (j + 1)),
        decreases hi,
    {
        assert(t[hi - 1 - (j + 1)] == x@[hi - 1]);
        hi = hi - 1;
    }
    proof {
        if hi > j + 1 {
            assert(t[hi - 1 - (j + 1)] == x@[hi - 1]);
        }
        lemma_lead_ws(t, 0);
        lemma_trail_ws(t, t.len() as int);
    }
    let label: &str = if lo < hi {
        let l = edge.substring_char(lo, hi);
        assert(l@ =~= t.subrange(lo - (j + 1), hi - (j + 1)));
        l
    } else {
        proof {
            reveal_strlit("");
        }
        assert(""@ =~= Seq::<char>::empty());
        ""
    };
    Some((x[i], x[j], label))
}

/// What becomes of a WaveDrom edge given the node names that lanes marked:
/// the two nodes and the label to draw, or the warning that replaces it.
pub open spec fn edge_outcome_spec(edge: Seq<char>, known: Seq<char>) -> Result<(char, char, Seq<char>), Seq<char>> {
    match edge_parts_spec(edge) {
        None => Err("WaveDrom edge `"@ + edge + "` has no two node labels"@),
        Some((a, b, label)) => if known.contains(a) && known.contains(b) {
            Ok((a, b, label))
        } else {
            Err("WaveDrom edge `"@ + edge + "` references an unknown node"@)
        },
    }
}

fn contains_node(known: &Vec<char>, c: char) -> (r: bool)
    ensures
        r == known@.contains(c),
{
    let n = known.len();
    for i in 0..n
        invariant
            n == known.len(),
            forall|k: int| 0 <= k < i ==> known@[k] != c,
    {
        if known[i] == c {
            return true;
        }
    }
    false
}

/// Resolves a WaveDrom edge against the marked node names; see [`edge_outcome_spec`].
pub fn edge_outcome(edge: &str, known: &Vec<char>) -> (out: Result<(char, char, String), String>)
    ensures
        match out {
            Ok((a, b, label)) => edge_outcome_spec(edge@, known@) == Ok::<(char, char, Seq<char>), Seq<char>>(
                (a, b, label@),
            ),
            Err(w) => edge_outcome_spec(edge@, known@) == Err::<(char, char, Seq<char>), Seq<char>>(w@),
        },
{
    match edge_parts(edge) {
        None => Err(concat3("WaveDrom edge `", edge, "` has no two node labels")),
        Some((a, b, label)) => {
            if contains_node(known, a) && contains_node(known, b) {
                Ok((a, b, owned(label)))
            } else {
                Err(concat3("WaveDrom edge `", edge, "` references an unknown node"))
            }
        },
    }
}

/// Bits a register field declares (one when unstated).
pub open spec fn declared_bits(b: Option<u64>) -> int {
    match b {
        Some(x) => x as int,
        None => 1,
    }
}

/// Bits a register field occupies: as declared, but at least one.
pub open spec fn field_bits(b: Option<u64>) -> int {
    let d = declared_bits(b);
    if d < 1 {
        1
    } else {
        d
    }
}

/// Sum of the declared bits.
pub open spec fn declared_total(fields: Seq<Option<u64>>) -> int
    decreases fields.len(),
{
    if fields.len() == 0 {
        0
    } else {
        declared_total(fields.drop_last()) + declared_bits(fields.last())
    }
}

/// The register width: the declared total, but at least one bit.
pub open spec fn register_width(fields: Seq<Option<u64>>) -> int {
    let t = declared_total(fields);
    if t < 1 {
        1
    } else {
        t
    }
}

/// Bit-range labels of the fields, most significant first, from bit
/// `top - 1` down: a one-bit field shows its bit, a wider one `high:low`.
/// Also the bit below the last field, and whether every wide field started
/// above bit zero.
pub open spec fn range_labels(fields: Seq<Option<u64>>, top: int) -> (Seq<Seq<char>>, int, bool)
    decreases fields.len(),
{
    if fields.len() == 0 {
        (Seq::empty(), top, true)
    } else {
        let (labels, high, ok) = range_labels(fields.drop_last(), top);
        let bits = field_bits(fields.last());
        let low = if high - bits < 0 { 0 } else { high - bits };
        let label = if bits == 1 {
            decimal(low as nat)
        } else {
            decimal((high - 1) as nat) + ":"@ + decimal(low as nat)
        };
        (labels.push(label), low, ok && (bits == 1 || high >= 1))
    }
}

/// The register can be labelled: the declared total fits in 64 bits and no
/// wide field starts at bit zero.
pub open spec fn register_ok(fields: Seq<Option<u64>>) -> bool {
    declared_total(fields) <= u64::MAX && range_labels(fields, register_width(fields)).2
}

proof fn lemma_declared_total_nonneg(fields: Seq<Option<u64>>)
    ensures
        0 <= declared_total(fields),
    decreases fields.len(),
{
    if fields.len() > 0 {
        lemma_declared_total_nonneg(fields.drop_last());
    }
}

proof fn lemma_declared_total_grows(fields: Seq<Option<u64>>, k: int)
    requires
        0 <= k <= fields.len(),
    ensures
        0 <= declared_total(fields.take(k)) <= declared_total(fields),
    decreases fields.len() - k,
{
    lemma_declared_total_nonneg(fields.take(k));
    if k < fields.len() {
        lemma_declared_total_grows(fields, k + 1);
        assert(fields.take(k + 1).drop_last() =~= fields.take(k));
    } else {
        assert(fields.take(k) =~= fields);
    }
}

proof fn lemma_range_ok_prefix(fields: Seq<Option<u64>>, top: int, k: int)
    requires
        0 <= k <= fields.len(),
        range_labels(fields, top).2,
    ensures
        range_labels(fields.take(k), top).2,
    decreases fields.len() - k,
{
    if k < fields.len() {
        lemma_range_ok_prefix(fields, top, k + 1);
        assert(fields.take(k + 1).drop_last() =~= fields.take(k));
    } else {
        assert(fields.take(k) =~= fields);
    }
}

/// The declared total, computed; `None` when it does not fit in 64 bits.
fn total_declared(fields: &Vec<Option<u64>>) -> (out: Option<u64>)
    ensures
        match out {
            Some(t) => t as int == declared_total(fields@),
            None => declared_total(fields@) > u64::MAX,
        },
{
    let mut total: u64 = 0;
    let n = fields.len();
    for i in 0..n
        invariant
            n == fields.len(),
            total as int == declared_total(fields@.take(i as int)),
    {
        assert(fields@.take(i + 1).drop_last() =~= fields@.take(i as int));
        let b: u64 = match fields[i] {
            Some(x) => x,
            None => 1,
        };
        if b > u64::MAX - total {
            proof {
                lemma_declared_total_grows(fields@, i + 1);
            }
            return None;
        }
        total = total + b;
    }
    assert(fields@.take(n as int) =~= fields@);
    Some(total)
}

/// Whether [`register_bit_labels`] can label these fields; see [`register_ok`].
pub fn register_fits(fields: &Vec<Option<u64>>) -> (r: bool)
    ensures
        r == register_ok(fields@),
{
    let total = match total_declared(fields) {
        Some(t) => t,
        None => return false,
    };
    let width: u64 = if total < 1 { 1 } else { total };
    let mut high: u64 = width;
    let n = fields.len();
    for i in 0..n
        invariant
            n == fields.len(),
            width as int == register_width(fields@),
            high <= width,
            ({
                let (_, h, ok) = range_labels(fields@.take(i as int), width as int);
                h == high as int && ok
            }),
    {
        assert(fields@.take(i + 1).drop_last() =~= fields@.take(i as int));
        let bits: u64 = match fields[i] {
            Some(x) => if x < 1 { 1 } else { x },
            None => 1,
        };
        if bits != 1 && high < 1 {
            proof {
                if range_labels(fields@, width as int).2 {
                    lemma_range_ok_prefix(fields@, width as int, i + 1);
                }
            }
            return false;
        }
        high = if high < bits { 0 } else { high - bits };
    }
    assert(fields@.take(n as int) =~= fields@);
    true
}

/// The register width in bits; see [`register_width`].
pub fn register_total_bits(fields: &Vec<Option<u64>>) -> (t: u64)
    requires
        register_ok(fields@),
    ensures
        t as int == register_width(fields@),
{
    let total = total_declared(fields).unwrap();
    if total < 1 { 1 } else { total }
}

/// The bit-range label of every register field; see [`range_labels`].
pub fn register_bit_labels(fields: &Vec<Option<u64>>) -> (out: Vec<String>)
    requires
        register_ok(fields@),
    ensures
        out@.map_values(|s: String| s@) == range_labels(fields@, register_width(fields@)).0,
{
    let width = register_total_bits(fields);
    let mut high: u64 = width;
    let mut out: Vec<String> = Vec::new();
    let n = fields.len();
    proof {
        lemma_range_ok_prefix(fields@, width as int, 0);
    }
    for i in 0..n
        invariant
            n == fields.len(),
            width as int == register_width(fields@),
            register_ok(fields@),
            ({
                let (labels, h, _) = range_labels(fields@.take(i as int), width as int);
                &&& h == high as int
                &&& out@.map_values(|s: String| s@) == labels
            }),
    {
        assert(fields@.take(i + 1).drop_last() =~= fields@.take(i as int));
        proof {
            lemma_range_ok_prefix(fields@, width as int, i + 1);
        }
        let bits: u64 = match fields[i] {
            Some(x) => if x < 1 { 1 } else { x },
            None => 1,
        };
        let low: u64 = if high < bits { 0 } else { high - bits };
        let label = if bits == 1 {
            decimal_string(low as u128)
        } else {
            let top = decimal_string((high - 1) as u128);
            let bottom = decimal_string(low as u128);
            concat3(top.as_str(), ":", bottom.as_str())
        };
        let ghost before = out@.map_values(|s: String| s@);
        let ghost lv = label@;
        out.push(label);
        assert(out@.map_values(|s: String| s@) =~= before.push(lv));
        high = low;
    }
    assert(fields@.take(n as int) =~= fields@);
    out
}

proof fn lemma_steps_len(cs: Seq<char>, data_len: nat)
    ensures
        wave_steps_spec(cs, data_len).0.len() == cs.len(),
    decreases cs.len(),
{
    if cs.len() > 0 {
        lemma_steps_len(cs.drop_last(), data_len);
    }
}

/// The cells of a prefix of a wave are a prefix of its cells.
proof fn lemma_steps_prefix(cs: Seq<char>, data_len: nat, j: int)
    requires
        0 <= j <= cs.len(),
    ensures
        wave_steps_spec(cs.take(j), data_len).0 == wave_steps_spec(cs, data_len).0.take(j),
    decreases cs.len(),
{
    lemma_steps_len(cs, data_len);
    if j == cs.len() {
        assert(cs.take(j) =~= cs);
    } else {
        let init = cs.drop_last();
        lemma_steps_prefix(init, data_len, j);
        lemma_steps_len(init, data_len);
        assert(init.take(j) =~= cs.take(j));
        assert(wave_steps_spec(cs, data_len).0.take(j) =~= wave_steps_spec(init, data_len).0.take(j));
    }
}

/// Cell `k` of a wave is the step of symbol `k` from the state after the
/// symbols before it.
proof fn lemma_step_at(cs: Seq<char>, data_len: nat, k: int)
    requires
        0 <= k < cs.len(),
    ensures
        wave_steps_spec(cs, data_len).0[k] == wave_step(cs[k], wave_steps_spec(cs.take(k), data_len).1, data_len).0,
        wave_steps_spec(cs.take(k + 1), data_len).1 == wave_step(
            cs[k],
            wave_steps_spec(cs.take(k), data_len).1,
            data_len,
        ).1,
{
    let p = cs.take(k + 1);
    assert(p.drop_last() =~= cs.take(k));
    assert(p.last() == cs[k]);
    lemma_steps_prefix(cs, data_len, k + 1);
    lemma_steps_len(p, data_len);
    lemma_steps_len(cs.take(k), data_len);
    lemma_steps_len(cs, data_len);
    let (before, st) = wave_steps_spec(cs.take(k), data_len);
    let (step, st2) = wave_step(cs[k], st, data_len);
    assert(wave_steps_spec(p, data_len) == (before.push(step), st2));
    assert(wave_steps_spec(p, data_len).0[k] == step);
    assert(wave_steps_spec(p, data_len).0[k] == wave_steps_spec(cs, data_len).0.take(k + 1)[k]);
}

/// Law: a wave draws exactly one cell per symbol.
pub proof fn lemma_one_cell_per_symbol(cs: Seq<char>, data_len: nat)
    ensures
        wave_steps_spec(cs, data_len).0.len() == cs.len(),
{
    lemma_steps_len(cs, data_len);
}

/// Law: a clock continued by `.` keeps its polarity: when cell `k` draws a
/// clock and symbol `k + 1` is `.`, cell `k + 1` draws the same clock.
pub proof fn lemma_clock_continuation_keeps_polarity(cs: Seq<char>, data_len: nat, k: int)
    requires
        0 <= k,
        k + 1 < cs.len(),
        cs[k + 1] == '.',
        wave_steps_spec(cs, data_len).0[k] is Clock,
    ensures
        wave_steps_spec(cs, data_len).0[k + 1] == wave_steps_spec(cs, data_len).0[k],
{
    lemma_step_at(cs, data_len, k);
    lemma_step_at(cs, data_len, k + 1);
    // The clock cell leaves its polarity in the state the `.` reads.
    let inverted = wave_steps_spec(cs, data_len).0[k]->inverted;
    assert(wave_steps_spec(cs.take(k + 1), data_len).1.clock == Some(inverted));
}

/// A wave never uses more data labels than there are.
proof fn lemma_data_index_bounded(cs: Seq<char>, data_len: nat)
    ensures
        wave_steps_spec(cs, data_len).1.data_index <= data_len,
    decreases cs.len(),
{
    if cs.len() > 0 {
        lemma_data_index_bounded(cs.drop_last(), data_len);
    }
}

proof fn lemma_data_index_grows(cs: Seq<char>, data_len: nat, a: int, b: int)
    requires
        0 <= a <= b <= cs.len(),
    ensures
        wave_steps_spec(cs.take(a), data_len).1.data_index <= wave_steps_spec(cs.take(b), data_len).1.data_index,
    decreases b - a,
{
    if a < b {
        lemma_data_index_grows(cs, data_len, a, b - 1);
        let p = cs.take(b);
        assert(p.drop_last() =~= cs.take(b - 1));
    }
}

/// Law: data labels are handed out in order and never reused: every label a
/// cell shows names an existing data entry, and a later cell's label is
/// larger than an earlier one's.
pub proof fn lemma_data_labels_in_order(cs: Seq<char>, data_len: usize, j: int, k: int)
    requires
        0 <= j < k < cs.len(),
        wave_steps_spec(cs, data_len as nat).0[j] matches WaveStep::Data { label: Some(_) },
        wave_steps_spec(cs, data_len as nat).0[k] matches WaveStep::Data { label: Some(_) },
    ensures
        wave_steps_spec(cs, data_len as nat).0[j]->label->0 < wave_steps_spec(cs, data_len as nat).0[k]->label->0,
        wave_steps_spec(cs, data_len as nat).0[k]->label->0 < data_len,
{
    lemma_step_at(cs, data_len as nat, j);
    lemma_step_at(cs, data_len as nat, k);
    lemma_data_index_grows(cs, data_len as nat, j + 1, k);
    lemma_data_index_bounded(cs.take(k + 1), data_len as nat);
    lemma_data_step(cs[j], wave_steps_spec(cs.take(j), data_len as nat).1, data_len as nat);
    lemma_data_step(cs[k], wave_steps_spec(cs.take(k), data_len as nat).1, data_len as nat);
}

/// A labelled data cell shows the next unused entry and uses it up.
proof fn lemma_data_step(c: char, st: WaveCursor, data_len: nat)
    requires
        data_len <= usize::MAX,
    ensures
        wave_step(c, st, data_len).0 matches WaveStep::Data { label: Some(i) } ==> i == st.data_index
            && wave_step(c, st, data_len).1.data_index == st.data_index + 1 && i < data_len,
{
    if c == '=' || ('2' <= c && c <= '9') {
        if !(c == '0' || c == 'l' || c == 'L' || c == '1' || c == 'h' || c == 'H' || c == 'p' || c == 'P' || c
            == 'n' || c == 'N' || c == '.' || c == 'x' || c == 'X' || c == 'z' || c == 'Z') {
            if st.data_index < data_len {
                assert(wave_step(c, st, data_len).0 == WaveStep::Data { label: Some(st.data_index as usize) });
            }
        }
    }
}

/// The bit below the last field, when every field declares at least one bit
/// and the fields fit under `top`.
proof fn lemma_range_low(fields: Seq<Option<u64>>, top: int)
    requires
        top >= declared_total(fields),
        forall|i: int| 0 <= i < fields.len() ==> declared_bits(#[trigger] fields[i]) >= 1,
    ensures
        range_labels(fields, top).1 == top - declared_total(fields),
        range_labels(fields, top).0.len() == fields.len(),
    decreases fields.len(),
{
    if fields.len() > 0 {
        let init = fields.drop_last();
        assert forall|i: int| 0 <= i < init.len() implies declared_bits(#[trigger] init[i]) >= 1 by {
            assert(init[i] == fields[i]);
        }
        assert(declared_bits(fields.last()) >= 1);
        lemma_declared_total_nonneg(init);
        lemma_range_low(init, top);
    }
}

proof fn lemma_range_count(fields: Seq<Option<u64>>, top: int)
    ensures
        range_labels(fields, top).0.len() == fields.len(),
    decreases fields.len(),
{
    if fields.len() > 0 {
        lemma_range_count(fields.drop_last(), top);
    }
}

/// Law: a register has one bit-range label per field, and when every field
/// declares at least one bit the fields tile the register from its top bit
/// down to bit zero.
pub proof fn lemma_register_fields_tile(fields: Seq<Option<u64>>)
    ensures
        range_labels(fields, register_width(fields)).0.len() == fields.len(),
        fields.len() > 0 && (forall|i: int| 0 <= i < fields.len() ==> declared_bits(#[trigger] fields[i]) >= 1)
            ==> range_labels(fields, register_width(fields)).1 == 0,
{
    lemma_range_count(fields, register_width(fields));
    if fields.len() > 0 && (forall|i: int| 0 <= i < fields.len() ==> declared_bits(#[trigger] fields[i]) >= 1) {
        let init = fields.drop_last();
        lemma_declared_total_nonneg(init);
        assert(declared_bits(fields[fields.len() - 1]) >= 1);
        assert(declared_total(fields) >= 1);
        lemma_range_low(fields, register_width(fields));
    }
}

/// A symbol that draws a high level.
pub open spec fn high_symbol(c: char) -> bool {
    c == '1' || c == 'h' || c == 'H'
}

/// A symbol that draws a low level.
pub open spec fn low_symbol(c: char) -> bool {
    c == '0' || c == 'l' || c == 'L'
}

/// Law: a high symbol (`1`, `h`, `H`) draws a level step ending high and
/// leaves the signal high with no clock running, and a low symbol (`0`, `l`,
/// `L`) draws one ending low and leaves it low; a `.` right after either
/// holds that level.
pub proof fn lemma_levels_follow_symbols(cs: Seq<char>, data_len: nat, k: int)
    requires
        0 <= k < cs.len(),
    ensures
        high_symbol(cs[k]) ==> (wave_steps_spec(cs, data_len).0[k] matches WaveStep::Level {
            to: LevelPos::High,
            ..
        }),
        high_symbol(cs[k]) ==> wave_steps_spec(cs.take(k + 1), data_len).1.level == LevelPos::High,
        high_symbol(cs[k]) ==> wave_steps_spec(cs.take(k + 1), data_len).1.clock is None,
        low_symbol(cs[k]) ==> (wave_steps_spec(cs, data_len).0[k] matches WaveStep::Level {
            to: LevelPos::Low,
            ..
        }),
        low_symbol(cs[k]) ==> wave_steps_spec(cs.take(k + 1), data_len).1.level == LevelPos::Low,
        low_symbol(cs[k]) ==> wave_steps_spec(cs.take(k + 1), data_len).1.clock is None,
        high_symbol(cs[k]) && k + 1 < cs.len() && cs[k + 1] == '.' ==> (wave_steps_spec(cs, data_len).0[k + 1]
            == (WaveStep::Level { from: LevelPos::High, to: LevelPos::High })),
        low_symbol(cs[k]) && k + 1 < cs.len() && cs[k + 1] == '.' ==> (wave_steps_spec(cs, data_len).0[k + 1]
            == (WaveStep::Level { from: LevelPos::Low, to: LevelPos::Low })),
{
    lemma_step_at(cs, data_len, k);
    if k + 1 < cs.len() {
        lemma_step_at(cs, data_len, k + 1);
    }
}

} // verus!
