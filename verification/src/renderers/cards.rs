//! Shared visual layout for graph-like diagram families.
//!
//! A `CardDiagram` is a view/layout structure, not a semantic graph model:
//! each family resolves its own names, hierarchy and relationships before it
//! produces cards and connectors.

use vstd::prelude::*;

use crate::text::{
    ascii_upper, char_display_width, char_width, chars_of, display_width, is_whitespace, owned, push_char,
    str_eq, str_width, string_of, to_ascii_uppercase, whitespace,
};

verus! {

/// What a string-list looks like to a contract: one character sequence per entry.
pub open spec fn strings_view(v: Seq<String>) -> Seq<Seq<char>> {
    v.map_values(|s: String| s@)
}

/// One titled box of the card layout.
pub struct Card {
    pub id: String,
    pub title: String,
    pub kind: String,
    pub lines: Vec<String>,
    pub color_slot: usize,
}

/// The mathematical value of a [`Card`].
pub struct CardModel {
    pub id: Seq<char>,
    pub title: Seq<char>,
    pub kind: Seq<char>,
    pub lines: Seq<Seq<char>>,
    pub color_slot: nat,
}

impl View for Card {
    type V = CardModel;

    open spec fn view(&self) -> CardModel {
        CardModel {
            id: self.id@,
            title: self.title@,
            kind: self.kind@,
            lines: strings_view(self.lines@),
            color_slot: self.color_slot as nat,
        }
    }
}

/// The values of a list of cards.
pub open spec fn cards_view(v: Seq<Card>) -> Seq<CardModel> {
    v.map_values(|c: Card| c@)
}

impl Card {
    pub fn new(id: String, title: String, kind: String, lines: Vec<String>, color_slot: usize) -> (card: Card)
        ensures
            card.id == id,
            card.title == title,
            card.kind == kind,
            card.lines == lines,
            card.color_slot == color_slot,
    {
        Card { id, title, kind, lines, color_slot }
    }
}

/// How a connector is decorated with arrowheads.
#[derive(Clone, Copy, Debug, PartialEq, Eq, Structural)]
pub enum ConnectorKind {
    Directed,
    Reverse,
    Bidirectional,
    Undirected,
}

/// A relationship drawn between two cards, named by card id.
pub struct Connector {
    pub from: String,
    pub to: String,
    pub label: Option<String>,
    pub kind: ConnectorKind,
    pub dashed: bool,
}

/// The mathematical value of a [`Connector`].
pub struct ConnectorModel {
    pub from: Seq<char>,
    pub to: Seq<char>,
    pub label: Option<Seq<char>>,
    pub kind: ConnectorKind,
    pub dashed: bool,
}

impl View for Connector {
    type V = ConnectorModel;

    open spec fn view(&self) -> ConnectorModel {
        ConnectorModel {
            from: self.from@,
            to: self.to@,
            label: match self.label {
                Some(l) => Some(l@),
                None => None,
            },
            kind: self.kind,
            dashed: self.dashed,
        }
    }
}

/// The values of a list of connectors.
pub open spec fn connectors_view(v: Seq<Connector>) -> Seq<ConnectorModel> {
    v.map_values(|c: Connector| c@)
}

/// Cards and connectors of one diagram, before layout.
pub struct CardDiagram {
    pub title: String,
    pub cards: Vec<Card>,
    pub connectors: Vec<Connector>,
}

/// The mathematical value of a [`CardDiagram`].
pub struct DiagramModel {
    pub title: Seq<char>,
    pub cards: Seq<CardModel>,
    pub connectors: Seq<ConnectorModel>,
}

impl View for CardDiagram {
    type V = DiagramModel;

    open spec fn view(&self) -> DiagramModel {
        DiagramModel {
            title: self.title@,
            cards: cards_view(self.cards@),
            connectors: connectors_view(self.connectors@),
        }
    }
}

/// The first position in `cards` whose id is `id`, if any.
pub open spec fn position_of(cards: Seq<CardModel>, id: Seq<char>) -> Option<int>
    decreases cards.len(),
{
    if cards.len() == 0 {
        None
    } else {
        match position_of(cards.drop_last(), id) {
            Some(i) => Some(i),
            None => if cards.last().id == id {
                Some(cards.len() - 1)
            } else {
                None
            },
        }
    }
}

/// Whether some card has the id `id`.
pub open spec fn has_id(cards: Seq<CardModel>, id: Seq<char>) -> bool {
    exists|i: int| 0 <= i < cards.len() && #[trigger] cards[i].id == id
}

/// No two cards share an id.
pub open spec fn ids_unique(cards: Seq<CardModel>) -> bool {
    forall|i: int, j: int|
        0 <= i < cards.len() && 0 <= j < cards.len() && i != j ==> #[trigger] cards[i].id != #[trigger] cards[j].id
}

/// The list of cards after `card` is offered to it: a card with a new id is
/// appended; a card whose id is taken replaces the first holder of that id
/// only when the holder has no lines and the newcomer has some.
pub open spec fn push_card_spec(cards: Seq<CardModel>, card: CardModel) -> Seq<CardModel> {
    match position_of(cards, card.id) {
        Some(i) => if cards[i].lines.len() == 0 && card.lines.len() > 0 {
            cards.update(i, card)
        } else {
            cards
        },
        None => cards.push(card),
    }
}

/// The first position of an id holds that id and no earlier card has it;
/// no position means no card has the id.
pub proof fn lemma_position_of(cards: Seq<CardModel>, id: Seq<char>)
    ensures
        match position_of(cards, id) {
            Some(i) => 0 <= i < cards.len() && cards[i].id == id && forall|j: int|
                0 <= j < i ==> #[trigger] cards[j].id != id,
            None => !has_id(cards, id),
        },
    decreases cards.len(),
{
    if cards.len() > 0 {
        lemma_position_of(cards.drop_last(), id);
        if position_of(cards.drop_last(), id) is None {
            assert forall|j: int| 0 <= j < cards.len() - 1 implies #[trigger] cards[j].id != id by {
                assert(cards.drop_last()[j] == cards[j]);
            }
        } else {
            let i = position_of(cards.drop_last(), id)->0;
            assert(cards.drop_last()[i] == cards[i]);
            assert forall|j: int| 0 <= j < i implies #[trigger] cards[j].id != id by {
                assert(cards.drop_last()[j] == cards[j]);
            }
        }
    }
}

/// The first position of an id is found by scanning: when no card before `k`
/// has the id and card `k` has it, `k` is the first position.
pub proof fn lemma_position_prefix(cards: Seq<CardModel>, id: Seq<char>, k: int)
    requires
        0 <= k <= cards.len(),
        position_of(cards.take(k), id) is None,
        k < cards.len() ==> cards[k].id == id,
    ensures
        k < cards.len() ==> position_of(cards, id) == Some(k),
        k == cards.len() ==> position_of(cards, id) is None,
{
    lemma_position_of(cards.take(k), id);
    lemma_position_of(cards, id);
    if k == cards.len() {
        assert(cards.take(k) =~= cards);
    } else {
        match position_of(cards, id) {
            Some(i) => {
                if i < k {
                    assert(cards.take(k)[i] == cards[i]);
                }
            },
            None => {},
        }
    }
}

/// The index of the first card with the given id, if any.
pub fn find_card(cards: &Vec<Card>, id: &str) -> (r: Option<usize>)
    ensures
        match r {
            Some(i) => position_of(cards_view(cards@), id@) == Some(i as int),
            None => position_of(cards_view(cards@), id@) is None,
        },
{
    let ghost v = cards_view(cards@);
    let n = cards.len();
    for i in 0..n
        invariant
            n == cards.len(),
            v == cards_view(cards@),
            position_of(v.take(i as int), id@) is None,
    {
        if str_eq(cards[i].id.as_str(), id) {
            proof {
                lemma_position_prefix(v, id@, i as int);
            }
            return Some(i);
        }
        proof {
            lemma_position_of(v.take(i as int), id@);
            lemma_position_of(v.take(i + 1), id@);
            assert(v.take(i + 1).drop_last() =~= v.take(i as int));
        }
    }
    proof {
        lemma_position_prefix(v, id@, n as int);
    }
    None
}

impl CardDiagram {
    pub fn new(title: String) -> (d: CardDiagram)
        ensures
            d.title == title,
            d.cards@.len() == 0,
            d.connectors@.len() == 0,
    {
        CardDiagram { title, cards: Vec::new(), connectors: Vec::new() }
    }

    /// Offers a card; see [`push_card_spec`].
    pub fn push_card(&mut self, card: Card)
        ensures
            final(self).title == old(self).title,
            final(self).connectors == old(self).connectors,
            cards_view(final(self).cards@) == push_card_spec(cards_view(old(self).cards@), card@),
    {
        let ghost old_cards = cards_view(self.cards@);
        let ghost c = card@;
        proof {
            lemma_position_of(old_cards, c.id);
        }
        match find_card(&self.cards, card.id.as_str()) {
            Some(i) => {
                if self.cards[i].lines.len() == 0 && card.lines.len() > 0 {
                    self.cards.remove(i);
                    self.cards.insert(i, card);
                    assert(cards_view(self.cards@) =~= old_cards.update(i as int, c));
                }
            },
            None => {
                self.cards.push(card);
                assert(cards_view(self.cards@) =~= old_cards.push(c));
            },
        }
    }

    /// Adds a reference card for `id` unless some card already has that id.
    pub fn ensure_endpoint(&mut self, id: &str)
        ensures
            final(self).title == old(self).title,
            final(self).connectors == old(self).connectors,
            cards_view(final(self).cards@) == ensure_endpoint_spec(cards_view(old(self).cards@), id@),
    {
        let ghost old_cards = cards_view(self.cards@);
        match find_card(&self.cards, id) {
            Some(_) => {
                proof {
                    lemma_position_of(old_cards, id@);
                }
            },
            None => {
                proof {
                    lemma_position_of(old_cards, id@);
                }
                let len = self.cards.len();
                let card = Card::new(owned(id), display_id(id), owned("REFERENCE"), Vec::new(), len);
                let ghost c = card@;
                assert(c.lines =~= Seq::<Seq<char>>::empty());
                self.cards.push(card);
                assert(cards_view(self.cards@) =~= old_cards.push(c));
            },
        }
    }
}

/// The placeholder card `ensure_endpoint` adds for an id no card has.
pub open spec fn reference_card(id: Seq<char>, slot: nat) -> CardModel {
    CardModel {
        id: id,
        title: display_id_spec(id),
        kind: "REFERENCE"@,
        lines: Seq::empty(),
        color_slot: slot,
    }
}

/// The cards after `ensure_endpoint(id)`.
pub open spec fn ensure_endpoint_spec(cards: Seq<CardModel>, id: Seq<char>) -> Seq<CardModel> {
    if has_id(cards, id) {
        cards
    } else {
        cards.push(reference_card(id, cards.len()))
    }
}

/// Whether `c` separates path segments of an id.
pub open spec fn is_id_separator(c: char) -> bool {
    c == '.' || c == '/'
}

/// The position of the last separator in `s`, or -1.
pub open spec fn last_separator(s: Seq<char>) -> int
    decreases s.len(),
{
    if s.len() == 0 {
        -1
    } else if is_id_separator(s.last()) {
        s.len() - 1
    } else {
        last_separator(s.drop_last())
    }
}

/// The last segment of an id: what follows its last `.` or `/`.
pub open spec fn display_id_spec(s: Seq<char>) -> Seq<char> {
    s.skip(last_separator(s) + 1)
}

/// The last separator of an id is a separator, and none follows it.
pub proof fn lemma_last_separator(s: Seq<char>)
    ensures
        -1 <= last_separator(s) < s.len(),
        last_separator(s) >= 0 ==> is_id_separator(s[last_separator(s)]),
        forall|j: int| last_separator(s) < j < s.len() ==> !is_id_separator(#[trigger] s[j]),
    decreases s.len(),
{
    if s.len() > 0 && !is_id_separator(s.last()) {
        lemma_last_separator(s.drop_last());
        assert forall|j: int| last_separator(s) < j < s.len() implies !is_id_separator(#[trigger] s[j]) by {
            if j < s.len() - 1 {
                assert(s.drop_last()[j] == s[j]);
            }
        }
        if last_separator(s) >= 0 {
            assert(s.drop_last()[last_separator(s)] == s[last_separator(s)]);
        }
    }
}

/// The last `.`- or `/`-separated segment of an id.
pub fn display_id(id: &str) -> (out: String)
    ensures
        out@ == display_id_spec(id@),
{
    let x = chars_of(id);
    let n = x.len();
    let mut start: usize = n;
    // Scan from the end for the last separator.
    while start > 0 && !(x[start - 1] == '.' || x[start - 1] == '/')
        invariant
            n == x.len(),
            x@ == id@,
            start <= n,
            forall|j: int| start <= j < n ==> !is_id_separator(#[trigger] x@[j]),
        decreases start,
    {
        start = start - 1;
    }
    proof {
        lemma_last_separator(id@);
        if start > 0 {
            assert(is_id_separator(x@[start - 1]));
        }
        let k = last_separator(id@);
        if k >= 0 {
            assert(!is_id_separator(x@[k]) || k < start);
        }
        assert(last_separator(id@) == start - 1) by {
            if k < start - 1 {
                assert(is_id_separator(x@[start - 1]));
            }
        }
    }
    let mut out: Vec<char> = Vec::new();
    let mut i = start;
    while i < n
        invariant
            n == x.len(),
            start <= i <= n,
            out@ == x@.subrange(start as int, i as int),
        decreases n - i,
    {
        out.push(x[i]);
        i = i + 1;
    }
    assert(x@.subrange(start as int, n as int) =~= x@.skip(start as int));
    string_of(&out)
}

/// The cards with every repeated id dropped after its first occurrence.
pub open spec fn dedup_spec(cards: Seq<CardModel>) -> Seq<CardModel>
    decreases cards.len(),
{
    if cards.len() == 0 {
        Seq::empty()
    } else {
        let rest = dedup_spec(cards.drop_last());
        if has_id(cards.drop_last(), cards.last().id) {
            rest
        } else {
            rest.push(cards.last())
        }
    }
}

/// Dropping repeated ids keeps the set of ids, makes them unique and never
/// lengthens the list.
pub proof fn lemma_dedup(cards: Seq<CardModel>)
    ensures
        forall|id: Seq<char>| #[trigger] has_id(dedup_spec(cards), id) == has_id(cards, id),
        ids_unique(dedup_spec(cards)),
        dedup_spec(cards).len() <= cards.len(),
    decreases cards.len(),
{
    if cards.len() > 0 {
        let init = cards.drop_last();
        let last = cards.last();
        lemma_dedup(init);
        let d = dedup_spec(init);
        assert forall|id: Seq<char>| #[trigger] has_id(dedup_spec(cards), id) == has_id(cards, id) by {
            assert(has_id(d, id) == has_id(init, id));
            assert(has_id(d, last.id) == has_id(init, last.id));
            if has_id(cards, id) {
                let i = choose|i: int| 0 <= i < cards.len() && #[trigger] cards[i].id == id;
                if i < cards.len() - 1 {
                    assert(init[i] == cards[i]);
                    assert(has_id(init, id));
                    if !has_id(init, last.id) {
                        let k = choose|k: int| 0 <= k < d.len() && #[trigger] d[k].id == id;
                        assert(d.push(last)[k] == d[k]);
                    }
                } else if has_id(init, last.id) {
                    assert(has_id(d, id));
                } else {
                    assert(d.push(last)[d.len() as int].id == id);
                }
            }
            if has_id(dedup_spec(cards), id) {
                let k = choose|k: int| 0 <= k < dedup_spec(cards).len() && #[trigger] dedup_spec(cards)[k].id == id;
                if has_id(init, last.id) {
                    assert(has_id(d, id));
                    let i = choose|i: int| 0 <= i < init.len() && #[trigger] init[i].id == id;
                    assert(init[i] == cards[i]);
                } else if k < d.len() {
                    assert(d.push(last)[k] == d[k]);
                    assert(has_id(d, id));
                    let i = choose|i: int| 0 <= i < init.len() && #[trigger] init[i].id == id;
                    assert(init[i] == cards[i]);
                } else {
                    assert(cards[cards.len() - 1].id == id);
                }
            }
        }
        if !has_id(init, last.id) {
            let e = d.push(last);
            assert forall|i: int, j: int|
                0 <= i < e.len() && 0 <= j < e.len() && i != j implies #[trigger] e[i].id != #[trigger] e[j].id by {
                if i == d.len() && j < d.len() {
                    assert(e[j] == d[j]);
                    if e[j].id == last.id {
                        assert(has_id(d, last.id));
                    }
                } else if j == d.len() && i < d.len() {
                    assert(e[i] == d[i]);
                    if e[i].id == last.id {
                        assert(has_id(d, last.id));
                    }
                } else {
                    assert(e[i] == d[i]);
                    assert(e[j] == d[j]);
                }
            }
        }
    }
}

/// Law: dropping repeated ids leaves a list whose ids are unique, and leaves
/// a list that already had unique ids unchanged.
pub proof fn lemma_dedup_of_unique(cards: Seq<CardModel>)
    ensures
        ids_unique(dedup_spec(cards)),
        ids_unique(cards) ==> dedup_spec(cards) == cards,
    decreases cards.len(),
{
    lemma_dedup(cards);
    if cards.len() > 0 && ids_unique(cards) {
        let init = cards.drop_last();
        assert(ids_unique(init)) by {
            assert forall|i: int, j: int|
                0 <= i < init.len() && 0 <= j < init.len() && i != j implies #[trigger] init[i].id != #[trigger] init[j].id by {
                assert(init[i] == cards[i]);
                assert(init[j] == cards[j]);
            }
        }
        lemma_dedup_of_unique(init);
        if has_id(init, cards.last().id) {
            let i = choose|i: int| 0 <= i < init.len() && #[trigger] init[i].id == cards.last().id;
            assert(init[i] == cards[i]);
            assert(cards[i].id == cards[cards.len() - 1].id);
        }
        assert(init.push(cards.last()) =~= cards);
    }
}

/// Law: offering a card keeps the ids of a list unique, and afterwards some
/// card has the offered id.
pub proof fn lemma_push_card_keeps_ids_unique(cards: Seq<CardModel>, card: CardModel)
    requires
        ids_unique(cards),
    ensures
        ids_unique(push_card_spec(cards, card)),
        has_id(push_card_spec(cards, card), card.id),
{
    lemma_position_of(cards, card.id);
    let r = push_card_spec(cards, card);
    match position_of(cards, card.id) {
        Some(i) => {
            assert(r[i].id == card.id);
            assert forall|a: int, b: int|
                0 <= a < r.len() && 0 <= b < r.len() && a != b implies #[trigger] r[a].id != #[trigger] r[b].id by {
                assert(r[a].id == cards[a].id);
                assert(r[b].id == cards[b].id);
            }
        },
        None => {
            assert(r[cards.len() as int].id == card.id);
            assert forall|a: int, b: int|
                0 <= a < r.len() && 0 <= b < r.len() && a != b implies #[trigger] r[a].id != #[trigger] r[b].id by {
                if a < cards.len() {
                    assert(r[a] == cards[a]);
                }
                if b < cards.len() {
                    assert(r[b] == cards[b]);
                }
                if a == cards.len() && r[b].id == card.id {
                    assert(has_id(cards, card.id));
                }
                if b == cards.len() && r[a].id == card.id {
                    assert(has_id(cards, card.id));
                }
            }
        },
    }
}

/// Law: after `ensure_endpoint(id)` some card has the id, cards that were
/// there keep their place and value, and a second call changes nothing.
pub proof fn lemma_ensure_endpoint(cards: Seq<CardModel>, id: Seq<char>)
    ensures
        has_id(ensure_endpoint_spec(cards, id), id),
        ensure_endpoint_spec(cards, id).take(cards.len() as int) == cards,
        ensure_endpoint_spec(ensure_endpoint_spec(cards, id), id) == ensure_endpoint_spec(cards, id),
        ids_unique(cards) ==> ids_unique(ensure_endpoint_spec(cards, id)),
{
    let r = ensure_endpoint_spec(cards, id);
    if !has_id(cards, id) {
        assert(r[cards.len() as int].id == id);
        assert(r.take(cards.len() as int) =~= cards);
        if ids_unique(cards) {
            assert forall|a: int, b: int|
                0 <= a < r.len() && 0 <= b < r.len() && a != b implies #[trigger] r[a].id != #[trigger] r[b].id by {
                if a < cards.len() {
                    assert(r[a] == cards[a]);
                }
                if b < cards.len() {
                    assert(r[b] == cards[b]);
                }
            }
        }
    } else {
        assert(r.take(cards.len() as int) =~= cards);
    }
}

/// Drops every card whose id an earlier card already has, keeping the order.
pub fn deduplicate_cards(diagram: &mut CardDiagram)
    ensures
        final(diagram).title == old(diagram).title,
        final(diagram).connectors == old(diagram).connectors,
        cards_view(final(diagram).cards@) == dedup_spec(cards_view(old(diagram).cards@)),
{
    let mut old_cards: Vec<Card> = Vec::new();
    std::mem::swap(&mut old_cards, &mut diagram.cards);
    let ghost v = cards_view(old_cards@);
    let mut out: Vec<Card> = Vec::new();
    for card in it: old_cards
        invariant
            v == cards_view(it.seq()),
            cards_view(out@) == dedup_spec(v.take(it.index())),
    {
        let ghost k = it.index();
        proof {
            lemma_dedup(v.take(k));
            lemma_position_of(cards_view(out@), card@.id);
            assert(v.take(k + 1).drop_last() =~= v.take(k));
            assert(v.take(k + 1).last() == card@);
            assert(has_id(dedup_spec(v.take(k)), card@.id) == has_id(v.take(k), card@.id));
        }
        match find_card(&out, card.id.as_str()) {
            Some(_) => {},
            None => {
                let ghost before = cards_view(out@);
                out.push(card);
                assert(cards_view(out@) =~= before.push(v[k]));
            },
        }
    }
    proof {
        assert(v.take(v.len() as int) =~= v);
    }
    diagram.cards = out;
}

/// Width of one character, counting control characters as zero.
pub open spec fn char_cols(c: char) -> int {
    match char_width(c) {
        Some(w) => w as int,
        None => 0,
    }
}

/// How many leading characters `truncate` keeps when scanning from position `k`:
/// it stops before the first character that would not leave room for the ellipsis.
pub open spec fn kept_prefix(v: Seq<char>, max: int, k: int) -> int
    decreases v.len() - k,
{
    if k < 0 || k >= v.len() {
        v.len() as int
    } else if str_width(v.take(k)) + char_cols(v[k]) + 1 > max {
        k
    } else {
        kept_prefix(v, max, k + 1)
    }
}

/// `v` unchanged when it fits in `max` columns; otherwise its longest prefix
/// that leaves a column for the ellipsis, followed by `…`.
pub open spec fn truncate_spec(v: Seq<char>, max: int) -> Seq<char> {
    if str_width(v) <= max {
        v
    } else {
        v.take(kept_prefix(v, max, 0)).push('\u{2026}')
    }
}

/// Whether `a + b + c > max`, computed without overflow.
fn sum_exceeds(a: usize, b: usize, c: usize, max: usize) -> (r: bool)
    ensures
        r == (a + b + c > max),
{
    if a > max {
        true
    } else if b > max - a {
        true
    } else {
        c > max - a - b
    }
}

/// Shortens `value` to `max_width` display columns, ending it with `…` when cut.
pub fn truncate(value: &str, max_width: usize) -> (out: String)
    ensures
        out@ == truncate_spec(value@, max_width as int),
{
    if display_width(value) <= max_width {
        return owned(value);
    }
    let x = chars_of(value);
    let n = x.len();
    let ghost max = max_width as int;
    let mut result = String::new();
    let mut i: usize = 0;
    let mut full = false;
    while i < n && !full
        invariant
            n == x.len(),
            x@ == value@,
            max == max_width as int,
            i <= n,
            result@ == value@.take(i as int),
            kept_prefix(value@, max, 0) == kept_prefix(value@, max, i as int),
            full ==> i < n && kept_prefix(value@, max, i as int) == i,
        decreases n - i, (if full { 0int } else { 1int }),
    {
        let c = x[i];
        let cw = match char_display_width(c) {
            Some(w) => w,
            None => 0,
        };
        let ghost k = i as int;
        assert(x@[k] == value@[k]);
        assert(cw as int == char_cols(c));
        let rw = display_width(result.as_str());
        assert(rw == str_width(value@.take(k)));
        if sum_exceeds(rw, cw, 1, max_width) {
            assert(kept_prefix(value@, max, k) == k);
            full = true;
        } else {
            assert(kept_prefix(value@, max, k) == kept_prefix(value@, max, k + 1));
            push_char(&mut result, c);
            assert(value@.take(i + 1) == value@.take(i as int).push(c));
            i = i + 1;
        }
    }
    proof {
        if !full {
            assert(value@.take(n as int) == value@);
        }
    }
    push_char(&mut result, '\u{2026}');
    result
}

/// Word-splitting state after reading `v`: the finished words and the word in progress.
pub open spec fn split_state(v: Seq<char>) -> (Seq<Seq<char>>, Seq<char>)
    decreases v.len(),
{
    if v.len() == 0 {
        (Seq::empty(), Seq::empty())
    } else {
        let (ws, cur) = split_state(v.drop_last());
        let c = v.last();
        if whitespace(c) {
            if cur.len() > 0 {
                (ws.push(cur), Seq::empty())
            } else {
                (ws, cur)
            }
        } else {
            (ws, cur.push(c))
        }
    }
}

/// The maximal runs of non-whitespace characters of `v`, in order.
pub open spec fn words_of(v: Seq<char>) -> Seq<Seq<char>> {
    let (ws, cur) = split_state(v);
    if cur.len() > 0 {
        ws.push(cur)
    } else {
        ws
    }
}

/// The character sequences of a list of character vectors.
pub open spec fn char_vecs_view(v: Seq<Vec<char>>) -> Seq<Seq<char>> {
    v.map_values(|w: Vec<char>| w@)
}

/// The words of `value`, split at whitespace.
pub fn split_words(value: &str) -> (out: Vec<Vec<char>>)
    ensures
        char_vecs_view(out@) == words_of(value@),
{
    let x = chars_of(value);
    let n = x.len();
    let mut words: Vec<Vec<char>> = Vec::new();
    let mut cur: Vec<char> = Vec::new();
    for i in 0..n
        invariant
            n == x.len(),
            x@ == value@,
            (char_vecs_view(words@), cur@) == split_state(value@.take(i as int)),
    {
        let c = x[i];
        assert(value@.take(i + 1).drop_last() == value@.take(i as int));
        assert(value@.take(i + 1).last() == c);
        let ghost before = char_vecs_view(words@);
        if is_whitespace(c) {
            if cur.len() > 0 {
                let mut done: Vec<char> = Vec::new();
                std::mem::swap(&mut done, &mut cur);
                let ghost d = done@;
                words.push(done);
                assert(char_vecs_view(words@) =~= before.push(d));
            }
        } else {
            cur.push(c);
        }
    }
    assert(value@.take(n as int) == value@);
    if cur.len() > 0 {
        let ghost before = char_vecs_view(words@);
        let ghost d = cur@;
        words.push(cur);
        assert(char_vecs_view(words@) =~= before.push(d));
    }
    words
}

/// Greedy line-filling state after placing the words `ws`: finished lines and
/// the line in progress. A word starts a new line when appending it (after a
/// space) would exceed `max` columns and the current line is not empty.
pub open spec fn wrap_state(ws: Seq<Seq<char>>, max: int) -> (Seq<Seq<char>>, Seq<char>)
    decreases ws.len(),
{
    if ws.len() == 0 {
        (Seq::empty(), Seq::empty())
    } else {
        let (lines, cur) = wrap_state(ws.drop_last(), max);
        let w = ws.last();
        let sep: int = if cur.len() > 0 { 1 } else { 0 };
        let breaks = str_width(cur) + sep + str_width(w) > max && cur.len() > 0;
        let lines2 = if breaks { lines.push(cur) } else { lines };
        let cur2 = if breaks { Seq::<char>::empty() } else { cur };
        (lines2, if cur2.len() > 0 { cur2.push(' ') + w } else { w })
    }
}

/// The lines `wrap` produces: a single empty line for blank input; otherwise
/// the greedy fill of the words, with only the last line truncated.
pub open spec fn wrap_spec(v: Seq<char>, max: int) -> Seq<Seq<char>> {
    let ws = words_of(v);
    if ws.len() == 0 {
        seq![Seq::<char>::empty()]
    } else {
        let (lines, cur) = wrap_state(ws, max);
        if cur.len() > 0 {
            lines.push(truncate_spec(cur, max))
        } else {
            lines
        }
    }
}

/// Breaks `value` into lines of at most `max_width` columns at whitespace.
pub fn wrap(value: &str, max_width: usize) -> (out: Vec<String>)
    ensures
        strings_view(out@) == wrap_spec(value@, max_width as int),
{
    let words = split_words(value);
    let ghost ws = words_of(value@);
    let ghost max = max_width as int;
    if words.len() == 0 {
        let mut out: Vec<String> = Vec::new();
        out.push(String::new());
        assert(strings_view(out@) =~= seq![Seq::<char>::empty()]);
        return out;
    }
    let mut lines: Vec<String> = Vec::new();
    let mut current = String::new();
    let n = words.len();
    for j in 0..n
        invariant
            n == words.len(),
            char_vecs_view(words@) == ws,
            max == max_width as int,
            (strings_view(lines@), current@) == wrap_state(ws.take(j as int), max),
    {
        let word = string_of(&words[j]);
        assert(ws.take(j + 1).drop_last() == ws.take(j as int));
        assert(ws.take(j + 1).last() == word@);
        let ghost c0 = current@;
        let sep: usize = if current.as_str().is_empty() { 0 } else { 1 };
        let cw = display_width(current.as_str());
        let ww = display_width(word.as_str());
        let breaks = sum_exceeds(cw, sep, ww, max_width) && !current.as_str().is_empty();
        if breaks {
            let ghost before = strings_view(lines@);
            let mut done = String::new();
            std::mem::swap(&mut done, &mut current);
            let ghost d = done@;
            lines.push(done);
            assert(strings_view(lines@) =~= before.push(d));
        }
        let ghost c2 = current@;
        assert(c2 == if breaks { Seq::<char>::empty() } else { c0 });
        if !current.as_str().is_empty() {
            push_char(&mut current, ' ');
        }
        current.append(word.as_str());
        assert(current@ =~= if c2.len() > 0 { c2.push(' ') + word@ } else { word@ });
        proof {
            let (l0, k0) = wrap_state(ws.take(j as int), max);
            assert(k0 == c0);
            assert(cw == str_width(c0));
            assert(ww == str_width(word@));
            assert(sep == (if c0.len() > 0 { 1int } else { 0int }));
            assert(breaks == (str_width(c0) + (if c0.len() > 0 { 1int } else { 0int }) + str_width(word@) > max && c0.len() > 0));
            assert(wrap_state(ws.take(j + 1), max) == (strings_view(lines@), current@));
        }
    }
    assert(ws.take(n as int) == ws);
    if !current.as_str().is_empty() {
        let ghost before = strings_view(lines@);
        let last = truncate(current.as_str(), max_width);
        let ghost l = last@;
        lines.push(last);
        assert(strings_view(lines@) =~= before.push(l));
    }
    lines
}

/// Height of a card showing `lines` wrapped lines (at least one line's room).
pub open spec fn card_height(lines: int) -> int {
    78 + (if lines < 1 { 1 } else { lines }) * 19
}

/// Number of grid columns for `n` cards: the ceiling of the square root of
/// `n`, kept between one and four.
pub open spec fn column_count(n: int) -> int {
    if n <= 1 {
        1
    } else if n <= 4 {
        2
    } else if n <= 9 {
        3
    } else {
        4
    }
}

/// Number of grid rows for `n` cards in `cols` columns.
pub open spec fn row_count(n: int, cols: int) -> int {
    (n + cols - 1) / cols
}

/// The tallest card among positions `lo..hi` (zero for an empty range).
pub open spec fn tallest(counts: Seq<usize>, lo: int, hi: int) -> int
    decreases hi - lo,
{
    if hi <= lo {
        0
    } else {
        let rest = tallest(counts, lo, hi - 1);
        let h = card_height(counts[hi - 1] as int);
        if h > rest {
            h
        } else {
            rest
        }
    }
}

/// Height of grid row `r`: its tallest card.
pub open spec fn row_height(counts: Seq<usize>, cols: int, r: int) -> int {
    let lo = r * cols;
    let hi = if lo + cols < counts.len() { lo + cols } else { counts.len() as int };
    tallest(counts, lo, hi)
}

/// Top edge of grid row `r`: below the title band and every earlier row and its gap.
pub open spec fn row_top(counts: Seq<usize>, cols: int, r: int) -> int
    decreases r,
{
    if r <= 0 {
        72
    } else {
        row_top(counts, cols, r - 1) + row_height(counts, cols, r - 1) + 82
    }
}

/// Canvas width for `cols` columns: margins, cards and the gaps between them.
pub open spec fn canvas_width(cols: int) -> int {
    42 * 2 + cols * 258 + (cols - 1) * 92
}

/// Canvas height: title band, top margin, all rows, the gaps between rows and
/// the bottom margin.
pub open spec fn canvas_height(counts: Seq<usize>, cols: int) -> int {
    let rows = row_count(counts.len() as int, cols);
    if rows == 0 {
        156int
    } else {
        row_top(counts, cols, rows) - 82 + 42 + 42
    }
}

/// A card's place on the canvas, in CSS pixels.
#[derive(Clone, Copy, Debug, PartialEq, Eq, Structural)]
pub struct GridRect {
    pub x: u128,
    pub y: u128,
    pub width: u128,
    pub height: u128,
}

/// The grid placement of a list of cards.
pub struct GridLayout {
    pub width: u128,
    pub height: u128,
    pub columns: usize,
    pub rows: usize,
    pub rects: Vec<GridRect>,
}

/// Where card `i` goes, given the wrapped line counts of all cards.
pub open spec fn card_rect(counts: Seq<usize>, i: int) -> GridRect {
    let cols = column_count(counts.len() as int);
    GridRect {
        x: (42 + (i % cols) * 350) as u128,
        y: row_top(counts, cols, i / cols) as u128,
        width: 258,
        height: card_height(counts[i] as int) as u128,
    }
}

/// Two rectangles share no interior point.
pub open spec fn disjoint(a: GridRect, b: GridRect) -> bool {
    ||| a.x + a.width <= b.x
    ||| b.x + b.width <= a.x
    ||| a.y + a.height <= b.y
    ||| b.y + b.height <= a.y
}

/// The grid fits in machine integers.
pub open spec fn grid_fits(counts: Seq<usize>) -> bool {
    &&& counts.len() <= u32::MAX
    &&& forall|i: int| 0 <= i < counts.len() ==> #[trigger] counts[i] <= u32::MAX
}

proof fn lemma_tallest_bounds(counts: Seq<usize>, lo: int, hi: int)
    requires
        0 <= lo,
        hi <= counts.len(),
        grid_fits(counts),
    ensures
        0 <= tallest(counts, lo, hi) <= card_height(u32::MAX as int),
        forall|i: int| lo <= i < hi ==> card_height(#[trigger] counts[i] as int) <= tallest(counts, lo, hi),
    decreases hi - lo,
{
    if hi > lo {
        lemma_tallest_bounds(counts, lo, hi - 1);
        assert(counts[hi - 1] <= u32::MAX);
        assert(card_height(counts[hi - 1] as int) <= card_height(u32::MAX as int)) by (nonlinear_arith)
            requires counts[hi - 1] <= u32::MAX;
    }
}

proof fn lemma_row_top_grows(counts: Seq<usize>, cols: int, r: int, s: int)
    requires
        0 <= r < s,
        cols >= 1,
        grid_fits(counts),
        forall|q: int| 0 <= q ==> #[trigger] row_height(counts, cols, q) >= 0,
    ensures
        row_top(counts, cols, r) + row_height(counts, cols, r) + 82 <= row_top(counts, cols, s),
    decreases s - r,
{
    if s > r + 1 {
        lemma_row_top_grows(counts, cols, r, s - 1);
        assert(row_height(counts, cols, s - 1) >= 0);
    }
}

proof fn lemma_row_height_nonneg(counts: Seq<usize>, cols: int)
    requires
        cols >= 1,
        grid_fits(counts),
    ensures
        forall|q: int| 0 <= q ==> #[trigger] row_height(counts, cols, q) >= 0,
{
    assert forall|q: int| 0 <= q implies #[trigger] row_height(counts, cols, q) >= 0 by {
        assert(q * cols >= 0) by (nonlinear_arith)
            requires q >= 0, cols >= 1;
        let lo = q * cols;
        let hi = if lo + cols < counts.len() { lo + cols } else { counts.len() as int };
        lemma_tallest_bounds(counts, lo, hi);
    }
}

/// The largest height a single card can have in a grid that fits.
pub open spec fn max_card_height() -> int {
    card_height(u32::MAX as int)
}

proof fn lemma_row_top_bound(counts: Seq<usize>, cols: int, r: int)
    requires
        0 <= r,
        cols >= 1,
        grid_fits(counts),
    ensures
        72 + 82 * r <= row_top(counts, cols, r) <= 72 + r * (max_card_height() + 82),
    decreases r,
{
    if r > 0 {
        lemma_row_top_bound(counts, cols, r - 1);
        assert((r - 1) * cols >= 0) by (nonlinear_arith)
            requires r >= 1, cols >= 1;
        let lo = (r - 1) * cols;
        let hi = if lo + cols < counts.len() { lo + cols } else { counts.len() as int };
        lemma_tallest_bounds(counts, lo, hi);
        assert(72 + (r - 1) * (max_card_height() + 82) + max_card_height() + 82
            == 72 + r * (max_card_height() + 82)) by (nonlinear_arith);
    }
}

proof fn lemma_row_top_small(counts: Seq<usize>, cols: int, r: int)
    requires
        0 <= r <= u32::MAX + 1,
        cols >= 1,
        grid_fits(counts),
    ensures
        72 + 82 * r <= row_top(counts, cols, r) <= 0x1_0000_0000_0000_0000_0000_0000,
{
    lemma_row_top_bound(counts, cols, r);
    assert(r * (max_card_height() + 82) <= (u32::MAX + 1) * (max_card_height() + 82)) by (nonlinear_arith)
        requires 0 <= r <= u32::MAX + 1, max_card_height() + 82 >= 0;
}

/// Facts about where card `i` sits: its row and column, and that its row is tall enough.
proof fn lemma_rect_facts(counts: Seq<usize>, i: int)
    requires
        grid_fits(counts),
        0 <= i < counts.len(),
    ensures
        ({
            let n = counts.len() as int;
            let cols = column_count(n);
            let row = i / cols;
            let col = i % cols;
            let rect = card_rect(counts, i);
            &&& 1 <= cols <= 4
            &&& 0 <= col < cols
            &&& 0 <= row < row_count(n, cols)
            &&& row * cols + col == i
            &&& rect.x == 42 + col * 350
            &&& rect.y == row_top(counts, cols, row)
            &&& rect.width == 258
            &&& rect.height == card_height(counts[i] as int)
            &&& card_height(counts[i] as int) <= row_height(counts, cols, row)
        }),
{
    let n = counts.len() as int;
    let cols = column_count(n);
    let row = i / cols;
    let col = i % cols;
    assert(0 <= col < cols && 0 <= row && row * cols + col == i) by (nonlinear_arith)
        requires 0 <= i, cols >= 1, row == i / cols, col == i % cols;
    assert(row < (n + cols - 1) / cols) by (nonlinear_arith)
        requires row * cols + col == i, 0 <= col < cols, i < n, cols >= 1;
    assert(row <= u32::MAX) by (nonlinear_arith)
        requires row * cols + col == i, 0 <= col, i < n, n <= u32::MAX, cols >= 1;
    lemma_row_top_small(counts, cols, row);
    assert(counts[i] <= u32::MAX);
    assert(card_height(counts[i] as int) <= max_card_height()) by (nonlinear_arith)
        requires counts[i] <= u32::MAX;
    let lo = row * cols;
    let hi = if lo + cols < n { lo + cols } else { n };
    lemma_tallest_bounds(counts, lo, hi);
}

/// Law: every card of the grid lies inside the canvas, and no two cards overlap.
pub proof fn lemma_grid_cards_fit_and_never_overlap(counts: Seq<usize>)
    requires
        grid_fits(counts),
    ensures
        forall|i: int| 0 <= i < counts.len() ==> {
            let r = #[trigger] card_rect(counts, i);
            &&& r.x + r.width <= canvas_width(column_count(counts.len() as int))
            &&& r.y + r.height <= canvas_height(counts, column_count(counts.len() as int))
        },
        forall|i: int, j: int|
            0 <= i < counts.len() && 0 <= j < counts.len() && i != j ==> disjoint(
                #[trigger] card_rect(counts, i),
                #[trigger] card_rect(counts, j),
            ),
{
    let n = counts.len() as int;
    let cols = column_count(n);
    let rows = row_count(n, cols);
    lemma_row_height_nonneg(counts, cols);
    assert forall|i: int| 0 <= i < counts.len() implies {
        let r = #[trigger] card_rect(counts, i);
        &&& r.x + r.width <= canvas_width(column_count(counts.len() as int))
        &&& r.y + r.height <= canvas_height(counts, column_count(counts.len() as int))
    } by {
        lemma_rect_facts(counts, i);
        let row = i / cols;
        let col = i % cols;
        assert(42 + col * 350 + 258 <= canvas_width(cols)) by (nonlinear_arith)
            requires 0 <= col < cols;
        if row + 1 < rows {
            lemma_row_top_grows(counts, cols, row, rows);
        }
        assert(row_top(counts, cols, row) + row_height(counts, cols, row) + 82 <= row_top(counts, cols, rows));
    }
    assert forall|i: int, j: int|
        0 <= i < counts.len() && 0 <= j < counts.len() && i != j implies disjoint(
            #[trigger] card_rect(counts, i),
            #[trigger] card_rect(counts, j),
        ) by {
        lemma_rect_facts(counts, i);
        lemma_rect_facts(counts, j);
        let ri = i / cols;
        let ci = i % cols;
        let rj = j / cols;
        let cj = j % cols;
        if ri == rj {
            assert(ci != cj);
            assert(ci * 350 + 258 <= cj * 350 || cj * 350 + 258 <= ci * 350) by (nonlinear_arith)
                requires ci != cj;
        } else if ri < rj {
            lemma_row_top_grows(counts, cols, ri, rj);
        } else {
            lemma_row_top_grows(counts, cols, rj, ri);
        }
    }
}

/// Places cards, whose wrapped line counts are `counts`, on a grid of at most
/// four columns, row by row, each row as tall as its tallest card.
pub fn layout_grid(counts: &Vec<usize>) -> (l: GridLayout)
    requires
        grid_fits(counts@),
    ensures
        l.columns as int == column_count(counts@.len() as int),
        l.rows as int == row_count(counts@.len() as int, l.columns as int),
        l.width as int == canvas_width(l.columns as int),
        l.height as int == canvas_height(counts@, l.columns as int),
        l.rects@.len() == counts@.len(),
        forall|i: int| 0 <= i < counts@.len() ==> l.rects@[i] == #[trigger] card_rect(counts@, i),
{
    let n = counts.len();
    assert(n <= u32::MAX);
    let cols: usize = if n <= 1 {
        1
    } else if n <= 4 {
        2
    } else if n <= 9 {
        3
    } else {
        4
    };
    let total: u64 = n as u64 + cols as u64 - 1;
    let rows_wide: u64 = total / (cols as u64);
    proof {
        assert(rows_wide <= n) by (nonlinear_arith)
            requires rows_wide == total / (cols as u64), total == n + cols - 1, cols >= 1, n >= 0;
    }
    let rows: usize = rows_wide as usize;
    let ghost c = cols as int;
    proof {
        lemma_row_height_nonneg(counts@, c);
    }
    // Height of each row: its tallest card.
    let mut row_heights: Vec<u128> = Vec::new();
    let mut r: usize = 0;
    while r < rows
        invariant
            n == counts@.len(),
            n <= u32::MAX,
            grid_fits(counts@),
            c == cols as int,
            1 <= cols <= 4,
            rows as int == row_count(n as int, c),
            rows <= n,
            r <= rows,
            row_heights@.len() == r,
            forall|q: int| 0 <= q < r ==> row_heights@[q] as int == #[trigger] row_height(counts@, c, q),
        decreases rows - r,
    {
        assert(r * cols <= n) by (nonlinear_arith)
            requires r < rows, rows as int == (n as int + cols as int - 1) / (cols as int), cols >= 1;
        let lo = r * cols;
        let hi = if n - lo > cols { lo + cols } else { n };
        let mut tallest_so_far: u128 = 0;
        let mut k = lo;
        while k < hi
            invariant
                n == counts@.len(),
                grid_fits(counts@),
                lo <= k <= hi <= n,
                tallest_so_far as int == tallest(counts@, lo as int, k as int),
            decreases hi - k,
        {
            let lines = counts[k];
            assert(lines <= u32::MAX);
            let h: u128 = 78 + (if lines < 1 { 1 } else { lines as u128 }) * 19;
            if h > tallest_so_far {
                tallest_so_far = h;
            }
            k = k + 1;
        }
        row_heights.push(tallest_so_far);
        r = r + 1;
    }
    // Place each card at its column and at the running top of its row.
    let mut rects: Vec<GridRect> = Vec::new();
    let mut row_y: u128 = 72;
    let mut row: usize = 0;
    while row < rows
        invariant
            n == counts@.len(),
            n <= u32::MAX,
            grid_fits(counts@),
            c == cols as int,
            c == column_count(n as int),
            1 <= cols <= 4,
            rows as int == row_count(n as int, c),
            rows <= n,
            row <= rows,
            row_heights@.len() == rows,
            forall|q: int| 0 <= q < rows ==> row_heights@[q] as int == #[trigger] row_height(counts@, c, q),
            row_y as int == row_top(counts@, c, row as int),
            rects@.len() == if row * cols < n { row * cols } else { n as int },
            forall|i: int| 0 <= i < rects@.len() ==> rects@[i] == #[trigger] card_rect(counts@, i),
        decreases rows - row,
    {
        proof {
            lemma_row_top_small(counts@, c, row + 1);
            assert(row * cols < n) by (nonlinear_arith)
                requires row < rows, rows as int == (n as int + cols as int - 1) / (cols as int), cols >= 1;
        }
        let mut column: usize = 0;
        while column < cols && row * cols + column < n
            invariant
                n == counts@.len(),
                grid_fits(counts@),
                c == cols as int,
                c == column_count(n as int),
                1 <= cols <= 4,
                row < rows,
                rows <= n,
                row * cols < n,
                n <= u32::MAX,
                column <= cols,
                row_y as int == row_top(counts@, c, row as int),
                rects@.len() == row * cols + column,
                row * cols + column <= n,
                forall|i: int| 0 <= i < rects@.len() ==> rects@[i] == #[trigger] card_rect(counts@, i),
            decreases cols - column,
        {
            let index = row * cols + column;
            let lines = counts[index];
            assert(lines <= u32::MAX);
            let h: u128 = 78 + (if lines < 1 { 1 } else { lines as u128 }) * 19;
            let rect = GridRect { x: 42 + (column as u128) * 350, y: row_y, width: 258, height: h };
            proof {
                assert(index as int / c == row && index as int % c == column) by (nonlinear_arith)
                    requires index == row * cols + column, column < cols, cols >= 1, c == cols;
                lemma_rect_facts(counts@, index as int);
            }
            rects.push(rect);
            column = column + 1;
        }
        proof {
            assert((row + 1) * cols == row * cols + cols) by (nonlinear_arith);
        }
        row_y = row_y + row_heights[row] + 82;
        row = row + 1;
    }
    proof {
        assert(rects@.len() == n) by (nonlinear_arith)
            requires
                rects@.len() == if rows * cols < n { rows * cols } else { n as int },
                rows as int == (n as int + cols as int - 1) / (cols as int),
                cols >= 1;
        lemma_row_top_small(counts@, c, rows as int);
    }
    let width: u128 = 42 * 2 + (cols as u128) * 258 + ((cols - 1) as u128) * 92;
    let height: u128 = if rows == 0 { 72 + 42 + 42 } else { row_y - 82 + 42 + 42 };
    GridLayout { width, height, columns: cols, rows, rects }
}

/// Which ends of a connector carry an arrowhead: `(at_target, at_source)`.
pub open spec fn arrowhead_ends_spec(kind: ConnectorKind) -> (bool, bool) {
    match kind {
        ConnectorKind::Directed => (true, false),
        ConnectorKind::Reverse => (false, true),
        ConnectorKind::Bidirectional => (true, true),
        ConnectorKind::Undirected => (false, false),
    }
}

/// Which ends of a connector carry an arrowhead: `(at_target, at_source)`.
pub fn arrowhead_ends(kind: ConnectorKind) -> (ends: (bool, bool))
    ensures
        ends == arrowhead_ends_spec(kind),
{
    let at_target = match kind {
        ConnectorKind::Directed | ConnectorKind::Bidirectional => true,
        _ => false,
    };
    let at_source = match kind {
        ConnectorKind::Reverse | ConnectorKind::Bidirectional => true,
        _ => false,
    };
    (at_target, at_source)
}

/// Number of arrowheads a connector of the given kind draws.
pub open spec fn arrowhead_count(kind: ConnectorKind) -> int {
    let (a, b) = arrowhead_ends_spec(kind);
    (if a { 1int } else { 0int }) + (if b { 1int } else { 0int })
}

/// Law: a directed or reverse connector draws one arrowhead, a bidirectional
/// one draws two, an undirected one draws none.
pub proof fn lemma_arrowhead_count()
    ensures
        arrowhead_count(ConnectorKind::Directed) == 1,
        arrowhead_count(ConnectorKind::Reverse) == 1,
        arrowhead_count(ConnectorKind::Bidirectional) == 2,
        arrowhead_count(ConnectorKind::Undirected) == 0,
{
}

/// The label a connector shows: none when absent or empty, otherwise its text
/// truncated to 34 columns.
pub open spec fn connector_label_spec(label: Option<Seq<char>>) -> Option<Seq<char>> {
    match label {
        Some(l) => if l.len() == 0 {
            None
        } else {
            Some(truncate_spec(l, 34))
        },
        None => None,
    }
}

/// The text drawn on a connector's label pill, if any.
pub fn connector_label(connector: &Connector) -> (out: Option<String>)
    ensures
        match out {
            Some(s) => connector_label_spec(connector@.label) == Some(s@),
            None => connector_label_spec(connector@.label) is None,
        },
{
    match &connector.label {
        Some(label) => {
            if label.as_str().is_empty() {
                None
            } else {
                Some(truncate(label.as_str(), 34))
            }
        },
        None => None,
    }
}

/// The cards after `ensure_endpoint` has been applied to each id in turn.
pub open spec fn ensure_all_spec(cards: Seq<CardModel>, ids: Seq<Seq<char>>) -> Seq<CardModel>
    decreases ids.len(),
{
    if ids.len() == 0 {
        cards
    } else {
        ensure_endpoint_spec(ensure_all_spec(cards, ids.drop_last()), ids.last())
    }
}

/// The ids that connectors name, source then target, connector by connector.
pub open spec fn endpoint_ids(connectors: Seq<ConnectorModel>) -> Seq<Seq<char>>
    decreases connectors.len(),
{
    if connectors.len() == 0 {
        Seq::empty()
    } else {
        endpoint_ids(connectors.drop_last()).push(connectors.last().from).push(connectors.last().to)
    }
}

proof fn lemma_ensure_all(cards: Seq<CardModel>, ids: Seq<Seq<char>>)
    ensures
        forall|k: int| 0 <= k < ids.len() ==> has_id(ensure_all_spec(cards, ids), #[trigger] ids[k]),
        forall|id: Seq<char>| has_id(cards, id) ==> #[trigger] has_id(ensure_all_spec(cards, ids), id),
        ensure_all_spec(cards, ids).len() >= cards.len(),
        ensure_all_spec(cards, ids).take(cards.len() as int) == cards,
        ids_unique(cards) ==> ids_unique(ensure_all_spec(cards, ids)),
    decreases ids.len(),
{
    if ids.len() > 0 {
        let init = ids.drop_last();
        lemma_ensure_all(cards, init);
        let before = ensure_all_spec(cards, init);
        lemma_ensure_endpoint(before, ids.last());
        let after = ensure_endpoint_spec(before, ids.last());
        assert forall|id: Seq<char>| has_id(before, id) implies #[trigger] has_id(after, id) by {
            let i = choose|i: int| 0 <= i < before.len() && #[trigger] before[i].id == id;
            assert(after.take(before.len() as int)[i] == before[i]);
        }
        assert forall|k: int| 0 <= k < ids.len() implies has_id(after, #[trigger] ids[k]) by {
            if k < ids.len() - 1 {
                assert(init[k] == ids[k]);
                assert(has_id(before, init[k]));
            }
        }
        assert forall|id: Seq<char>| has_id(cards, id) implies #[trigger] has_id(after, id) by {
            assert(has_id(before, id));
        }
        assert(after.take(cards.len() as int) =~= cards) by {
            assert forall|i: int| 0 <= i < cards.len() implies after.take(cards.len() as int)[i] == cards[i] by {
                assert(after.take(before.len() as int)[i] == before[i]);
                assert(before.take(cards.len() as int)[i] == cards[i]);
            }
        }
    }
}

proof fn lemma_endpoint_ids(connectors: Seq<ConnectorModel>)
    ensures
        endpoint_ids(connectors).len() == 2 * connectors.len(),
        forall|k: int|
            0 <= k < connectors.len() ==> endpoint_ids(connectors)[2 * k] == (#[trigger] connectors[k]).from
                && endpoint_ids(connectors)[2 * k + 1] == connectors[k].to,
    decreases connectors.len(),
{
    if connectors.len() > 0 {
        let init = connectors.drop_last();
        lemma_endpoint_ids(init);
        assert forall|k: int| 0 <= k < connectors.len() implies endpoint_ids(connectors)[2 * k] == (
        #[trigger] connectors[k]).from && endpoint_ids(connectors)[2 * k + 1] == connectors[k].to by {
            if k < connectors.len() - 1 {
                assert(init[k] == connectors[k]);
            }
        }
    }
}

/// Law: after every connector endpoint has been ensured, each connector's
/// source and target name a card, cards that were there keep their place, and
/// unique ids stay unique.
pub proof fn lemma_connector_endpoints_resolve(cards: Seq<CardModel>, connectors: Seq<ConnectorModel>)
    ensures
        forall|k: int|
            0 <= k < connectors.len() ==> has_id(
                ensure_all_spec(cards, endpoint_ids(connectors)),
                (#[trigger] connectors[k]).from,
            ) && has_id(ensure_all_spec(cards, endpoint_ids(connectors)), connectors[k].to),
        ensure_all_spec(cards, endpoint_ids(connectors)).take(cards.len() as int) == cards,
        ids_unique(cards) ==> ids_unique(ensure_all_spec(cards, endpoint_ids(connectors))),
{
    let ids = endpoint_ids(connectors);
    lemma_endpoint_ids(connectors);
    lemma_ensure_all(cards, ids);
    assert forall|k: int| 0 <= k < connectors.len() implies has_id(
        ensure_all_spec(cards, ids),
        (#[trigger] connectors[k]).from,
    ) && has_id(ensure_all_spec(cards, ids), connectors[k].to) by {
        assert(ids[2 * k] == connectors[k].from);
        assert(ids[2 * k + 1] == connectors[k].to);
    }
}

/// Adds a reference card for every connector endpoint that names no card,
/// visiting sources and targets connector by connector.
pub fn ensure_connector_endpoints(diagram: &mut CardDiagram)
    ensures
        final(diagram).title == old(diagram).title,
        final(diagram).connectors == old(diagram).connectors,
        cards_view(final(diagram).cards@) == ensure_all_spec(
            cards_view(old(diagram).cards@),
            endpoint_ids(connectors_view(old(diagram).connectors@)),
        ),
{
    let ghost start = cards_view(diagram.cards@);
    let ghost conns = connectors_view(diagram.connectors@);
    let n = diagram.connectors.len();
    for k in 0..n
        invariant
            n == diagram.connectors.len(),
            conns == connectors_view(diagram.connectors@),
            diagram.title == old(diagram).title,
            diagram.connectors == old(diagram).connectors,
            start == cards_view(old(diagram).cards@),
            cards_view(diagram.cards@) == ensure_all_spec(start, endpoint_ids(conns.take(k as int))),
    {
        let from = owned(diagram.connectors[k].from.as_str());
        let to = owned(diagram.connectors[k].to.as_str());
        assert(from@ == conns[k as int].from);
        assert(to@ == conns[k as int].to);
        let ghost c0 = cards_view(diagram.cards@);
        diagram.ensure_endpoint(from.as_str());
        let ghost c1 = cards_view(diagram.cards@);
        diagram.ensure_endpoint(to.as_str());
        proof {
            let t = conns.take(k + 1);
            assert(t.drop_last() =~= conns.take(k as int));
            assert(t.last() == conns[k as int]);
            let ids = endpoint_ids(t);
            let prev = endpoint_ids(conns.take(k as int));
            assert(ids == prev.push(from@).push(to@));
            assert(ids.drop_last() =~= prev.push(from@));
            assert(ids.drop_last().drop_last() =~= prev);
            assert(c1 == ensure_endpoint_spec(c0, from@));
            assert(ensure_all_spec(start, ids.drop_last()) == c1);
            assert(ensure_all_spec(start, ids) == cards_view(diagram.cards@));
        }
    }
    assert(conns.take(n as int) =~= conns);
}

/// The card shown when a diagram has no renderable elements.
pub open spec fn empty_card() -> CardModel {
    CardModel {
        id: "empty"@,
        title: "Empty diagram"@,
        kind: "NO ELEMENTS"@,
        lines: seq!["The AST contains no renderable elements."@],
        color_slot: 0,
    }
}

/// The cards laid out for a diagram: repeated ids dropped, and the
/// placeholder card when nothing is left.
pub open spec fn prepared_cards(cards: Seq<CardModel>) -> Seq<CardModel> {
    let d = dedup_spec(cards);
    if d.len() == 0 {
        seq![empty_card()]
    } else {
        d
    }
}

/// Drops repeated ids and supplies the placeholder card for an empty diagram.
pub fn prepare_cards(diagram: &mut CardDiagram)
    ensures
        final(diagram).title == old(diagram).title,
        final(diagram).connectors == old(diagram).connectors,
        cards_view(final(diagram).cards@) == prepared_cards(cards_view(old(diagram).cards@)),
{
    deduplicate_cards(diagram);
    if diagram.cards.len() == 0 {
        let mut lines: Vec<String> = Vec::new();
        lines.push(owned("The AST contains no renderable elements."));
        let card = Card::new(owned("empty"), owned("Empty diagram"), owned("NO ELEMENTS"), lines, 0);
        let ghost c = card@;
        diagram.cards.push(card);
        assert(c.lines =~= seq!["The AST contains no renderable elements."@]);
        assert(cards_view(diagram.cards@) =~= seq![empty_card()]);
    }
}

/// Every line of a card wrapped at 34 columns, in order.
pub open spec fn wrapped_lines_spec(lines: Seq<Seq<char>>) -> Seq<Seq<char>>
    decreases lines.len(),
{
    if lines.len() == 0 {
        Seq::empty()
    } else {
        wrapped_lines_spec(lines.drop_last()) + wrap_spec(lines.last(), 34)
    }
}

/// The wrapped text lines of a card body.
pub fn wrap_card_lines(card: &Card) -> (out: Vec<String>)
    ensures
        strings_view(out@) == wrapped_lines_spec(card@.lines),
{
    let ghost ls = card@.lines;
    let mut out: Vec<String> = Vec::new();
    let n = card.lines.len();
    for i in 0..n
        invariant
            n == card.lines.len(),
            ls == strings_view(card.lines@),
            strings_view(out@) == wrapped_lines_spec(ls.take(i as int)),
    {
        let mut pieces = wrap(card.lines[i].as_str(), 34);
        let ghost before = strings_view(out@);
        let ghost added = strings_view(pieces@);
        out.append(&mut pieces);
        assert(strings_view(out@) =~= before + added);
        assert(ls.take(i + 1).drop_last() =~= ls.take(i as int));
    }
    assert(ls.take(n as int) =~= ls);
    out
}

/// The two heading texts of a card: its kind in ASCII capitals cut to 28
/// columns, and its title cut to 31 columns.
pub open spec fn card_heading_spec(card: CardModel) -> (Seq<char>, Seq<char>) {
    (truncate_spec(card.kind.map_values(|c: char| ascii_upper(c)), 28), truncate_spec(card.title, 31))
}

/// The heading texts drawn at the top of a card; see [`card_heading_spec`].
pub fn card_heading(card: &Card) -> (out: (String, String))
    ensures
        (out.0@, out.1@) == card_heading_spec(card@),
{
    let kind = to_ascii_uppercase(card.kind.as_str());
    (truncate(kind.as_str(), 28), truncate(card.title.as_str(), 31))
}

/// A laid-out card diagram: the grid, and each card's wrapped body lines.
pub struct CardPlan {
    pub layout: GridLayout,
    pub wrapped: Vec<Vec<String>>,
}

/// Wrapped line counts of every card.
pub open spec fn line_counts(cards: Seq<CardModel>) -> Seq<usize> {
    cards.map_values(|c: CardModel| wrapped_lines_spec(c.lines).len() as usize)
}

/// Prepares the cards (see [`prepare_cards`]), wraps their bodies and places
/// them on the grid; `None` when the grid is too large for machine integers.
pub fn plan_cards(diagram: &mut CardDiagram) -> (plan: Option<CardPlan>)
    ensures
        final(diagram).title == old(diagram).title,
        final(diagram).connectors == old(diagram).connectors,
        cards_view(final(diagram).cards@) == prepared_cards(cards_view(old(diagram).cards@)),
        ({
            let cards = cards_view(final(diagram).cards@);
            let fits = cards.len() <= u32::MAX && forall|i: int|
                0 <= i < cards.len() ==> wrapped_lines_spec(#[trigger] cards[i].lines).len() <= u32::MAX;
            match plan {
                Some(p) => {
                    &&& fits
                    &&& p.wrapped@.len() == cards.len()
                    &&& forall|i: int|
                        0 <= i < cards.len() ==> strings_view(#[trigger] p.wrapped@[i]@) == wrapped_lines_spec(
                            cards[i].lines,
                        )
                    &&& p.layout.columns as int == column_count(cards.len() as int)
                    &&& p.layout.rows as int == row_count(cards.len() as int, p.layout.columns as int)
                    &&& p.layout.width as int == canvas_width(p.layout.columns as int)
                    &&& p.layout.height as int == canvas_height(line_counts(cards), p.layout.columns as int)
                    &&& p.layout.rects@.len() == cards.len()
                    &&& forall|i: int|
                        0 <= i < cards.len() ==> p.layout.rects@[i] == #[trigger] card_rect(line_counts(cards), i)
                },
                None => !fits,
            }
        }),
{
    prepare_cards(diagram);
    let ghost cards = cards_view(diagram.cards@);
    let n = diagram.cards.len();
    if n > 4294967295 {
        return None;
    }
    let mut wrapped: Vec<Vec<String>> = Vec::new();
    let mut counts: Vec<usize> = Vec::new();
    for i in 0..n
        invariant
            n == diagram.cards.len(),
            n <= u32::MAX,
            cards == cards_view(diagram.cards@),
            diagram.title == old(diagram).title,
            diagram.connectors == old(diagram).connectors,
            cards == prepared_cards(cards_view(old(diagram).cards@)),
            wrapped@.len() == i,
            counts@.len() == i,
            forall|j: int| 0 <= j < i ==> strings_view(#[trigger] wrapped@[j]@) == wrapped_lines_spec(cards[j].lines),
            forall|j: int| 0 <= j < i ==> #[trigger] counts@[j] == wrapped_lines_spec(cards[j].lines).len(),
            forall|j: int| 0 <= j < i ==> #[trigger] counts@[j] <= u32::MAX,
    {
        let lines = wrap_card_lines(&diagram.cards[i]);
        let count = lines.len();
        if count > 4294967295 {
            proof {
                assert(wrapped_lines_spec(cards[i as int].lines).len() > u32::MAX);
            }
            return None;
        }
        counts.push(count);
        wrapped.push(lines);
    }
    proof {
        assert(counts@ =~= line_counts(cards));
        assert forall|i: int| 0 <= i < cards.len() implies wrapped_lines_spec(#[trigger] cards[i].lines).len()
            <= u32::MAX by {
            assert(counts@[i] <= u32::MAX);
        }
        assert(grid_fits(counts@));
    }
    let layout = layout_grid(&counts);
    Some(CardPlan { layout, wrapped })
}

/// The cards after `line` is appended to the body of the first card with id `id`
/// (unchanged when no card has that id).
pub open spec fn add_line_spec(cards: Seq<CardModel>, id: Seq<char>, line: Seq<char>) -> Seq<CardModel> {
    match position_of(cards, id) {
        Some(i) => cards.update(i, CardModel { lines: cards[i].lines.push(line), ..cards[i] }),
        None => cards,
    }
}

/// Appends `line` to the body of the first card with id `id`, if there is one.
pub fn add_card_line(diagram: &mut CardDiagram, id: &str, line: String)
    ensures
        final(diagram).title == old(diagram).title,
        final(diagram).connectors == old(diagram).connectors,
        cards_view(final(diagram).cards@) == add_line_spec(cards_view(old(diagram).cards@), id@, line@),
{
    let ghost old_cards = cards_view(diagram.cards@);
    proof {
        lemma_position_of(old_cards, id@);
    }
    match find_card(&diagram.cards, id) {
        Some(i) => {
            let mut card = diagram.cards.remove(i);
            let ghost before = card@;
            let ghost l = line@;
            card.lines.push(line);
            assert(card@ == CardModel { lines: before.lines.push(l), ..before }) by {
                assert(strings_view(card.lines@) =~= before.lines.push(l));
            }
            diagram.cards.insert(i, card);
            assert(cards_view(diagram.cards@) =~= add_line_spec(old_cards, id@, l));
        },
        None => {},
    }
}

/// A diagram family's cards and connectors, with the warnings its walk raised.
pub struct CardBuild {
    pub diagram: CardDiagram,
    pub warnings: Vec<String>,
}

/// The diagram title, cards, connectors and warnings gathered by a walk.
pub struct BuildState {
    pub title: Seq<char>,
    pub cards: Seq<CardModel>,
    pub connectors: Seq<ConnectorModel>,
    pub warnings: Seq<Seq<char>>,
}

/// The walk state held by a diagram and a warning list.
pub open spec fn build_state(diagram: CardDiagram, warnings: Seq<String>) -> BuildState {
    BuildState {
        title: diagram.title@,
        cards: cards_view(diagram.cards@),
        connectors: connectors_view(diagram.connectors@),
        warnings: strings_view(warnings),
    }
}

/// A fresh walk state: the given title and nothing else.
pub open spec fn initial_state(title: Seq<char>) -> BuildState {
    BuildState { title: title, cards: Seq::empty(), connectors: Seq::empty(), warnings: Seq::empty() }
}

/// An empty diagram with the given title, and no warnings yet.
pub fn start_build(title: &str) -> (out: CardBuild)
    ensures
        build_state(out.diagram, out.warnings@) == initial_state(title@),
{
    let diagram = CardDiagram::new(owned(title));
    let warnings: Vec<String> = Vec::new();
    assert(cards_view(diagram.cards@) =~= Seq::empty());
    assert(connectors_view(diagram.connectors@) =~= Seq::empty());
    assert(strings_view(warnings@) =~= Seq::empty());
    CardBuild { diagram, warnings }
}

/// Appends a warning.
pub fn push_warning(warnings: &mut Vec<String>, w: String)
    ensures
        strings_view(final(warnings)@) == strings_view(old(warnings)@).push(w@),
{
    let ghost before = strings_view(warnings@);
    let ghost wv = w@;
    warnings.push(w);
    assert(strings_view(warnings@) =~= before.push(wv));
}

/// Appends a connector.
pub fn push_connector(diagram: &mut CardDiagram, c: Connector)
    ensures
        final(diagram).title == old(diagram).title,
        final(diagram).cards == old(diagram).cards,
        connectors_view(final(diagram).connectors@) == connectors_view(old(diagram).connectors@).push(c@),
{
    let ghost before = connectors_view(diagram.connectors@);
    let ghost cv = c@;
    diagram.connectors.push(c);
    assert(connectors_view(diagram.connectors@) =~= before.push(cv));
}

/// Law: appending a body line changes no card's id and keeps the number of cards.
pub proof fn lemma_add_line_keeps_ids(cards: Seq<CardModel>, id: Seq<char>, line: Seq<char>)
    ensures
        add_line_spec(cards, id, line).len() == cards.len(),
        forall|i: int| 0 <= i < cards.len() ==> #[trigger] add_line_spec(cards, id, line)[i].id == cards[i].id,
        ids_unique(cards) ==> ids_unique(add_line_spec(cards, id, line)),
{
    lemma_position_of(cards, id);
    let r = add_line_spec(cards, id, line);
    assert forall|i: int| 0 <= i < cards.len() implies #[trigger] r[i].id == cards[i].id by {}
    if ids_unique(cards) {
        assert forall|a: int, b: int|
            0 <= a < r.len() && 0 <= b < r.len() && a != b implies #[trigger] r[a].id != #[trigger] r[b].id by {
            assert(r[a].id == cards[a].id);
            assert(r[b].id == cards[b].id);
        }
    }
}

/// Law: a wrapped text always has at least one line.
pub proof fn lemma_wrap_has_a_line(v: Seq<char>, max: int)
    ensures
        wrap_spec(v, max).len() >= 1,
{
    let ws = words_of(v);
    if ws.len() > 0 {
        lemma_words_nonempty(v);
        lemma_wrap_state_current(ws, max);
    }
}

proof fn lemma_split_state_words_nonempty(v: Seq<char>)
    ensures
        forall|k: int| 0 <= k < split_state(v).0.len() ==> (#[trigger] split_state(v).0[k]).len() > 0,
    decreases v.len(),
{
    if v.len() > 0 {
        lemma_split_state_words_nonempty(v.drop_last());
        let (ws, cur) = split_state(v.drop_last());
        assert forall|k: int| 0 <= k < split_state(v).0.len() implies (#[trigger] split_state(v).0[k]).len() > 0 by {
            if k < ws.len() {
                assert(split_state(v).0[k] == ws[k]);
            }
        }
    }
}

proof fn lemma_words_nonempty(v: Seq<char>)
    ensures
        forall|k: int| 0 <= k < words_of(v).len() ==> (#[trigger] words_of(v)[k]).len() > 0,
{
    lemma_split_state_words_nonempty(v);
    let (ws, cur) = split_state(v);
    assert forall|k: int| 0 <= k < words_of(v).len() implies (#[trigger] words_of(v)[k]).len() > 0 by {
        if k < ws.len() {
            assert(words_of(v)[k] == ws[k]);
        }
    }
}

proof fn lemma_wrap_state_current(ws: Seq<Seq<char>>, max: int)
    requires
        ws.len() > 0,
        ws.last().len() > 0,
    ensures
        wrap_state(ws, max).1.len() > 0,
{
    let (lines, cur) = wrap_state(ws.drop_last(), max);
    let w = ws.last();
    let breaks = str_width(cur) + (if cur.len() > 0 { 1int } else { 0int }) + str_width(w) > max && cur.len() > 0;
    let cur2 = if breaks { Seq::<char>::empty() } else { cur };
    if cur2.len() > 0 {
        assert((cur2.push(' ') + w).len() > 0);
    }
}

/// Law: offering a card never loses an id that some card had, and the offered
/// id is present afterwards.
pub proof fn lemma_push_card_keeps_ids(cards: Seq<CardModel>, card: CardModel)
    ensures
        forall|id: Seq<char>| has_id(cards, id) ==> #[trigger] has_id(push_card_spec(cards, card), id),
        has_id(push_card_spec(cards, card), card.id),
{
    lemma_position_of(cards, card.id);
    let r = push_card_spec(cards, card);
    assert forall|id: Seq<char>| has_id(cards, id) implies #[trigger] has_id(r, id) by {
        let i = choose|i: int| 0 <= i < cards.len() && #[trigger] cards[i].id == id;
        assert(r[i].id == cards[i].id);
    }
    match position_of(cards, card.id) {
        Some(i) => {
            assert(r[i].id == card.id);
        },
        None => {
            assert(r[cards.len() as int].id == card.id);
        },
    }
}

impl Default for ConnectorKind {
    fn default() -> (k: ConnectorKind)
        ensures
            k == ConnectorKind::Directed,
    {
        ConnectorKind::Directed
    }
}

} // verus!
