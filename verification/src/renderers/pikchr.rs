//! Pikchr: the order of shapes, flow lines and direction changes, object
//! labels, and the warnings for what is retained but not evaluated.

use vstd::prelude::*;

use crate::renderers::cards::strings_view;
use crate::text::{ascii_lower, chars_of, concat3, join, join_spec, opt_view, owned, str_eq, string_of, to_ascii_lowercase};

verus! {

/// Layout direction in force for the following objects.
#[derive(Clone, Copy, Debug, PartialEq, Eq, Structural)]
pub enum PikchrDirection {
    Right,
    Down,
    Left,
    Up,
}

/// One object attribute; string attributes contribute label text.
pub struct PikchrAttribute {
    pub is_string: bool,
    pub value: String,
}

/// `box "label" attributes...` and the other object kinds.
pub struct PikchrObject {
    pub object_type: String,
    pub label: Option<String>,
    pub attributes: Vec<PikchrAttribute>,
}

/// One Pikchr statement.
pub enum PikchrStatement {
    Direction(PikchrDirection),
    Object(PikchrObject),
    Place { label: String },
    Assignment { variable: String },
    Define { name: String },
    Print,
    Assert,
}

/// A parsed Pikchr document.
pub struct PikchrDocument {
    pub statements: Vec<PikchrStatement>,
}

/// Lower-cased object types that draw a flow segment rather than a shape.
pub open spec fn is_flow_spec(t: Seq<char>) -> bool {
    t == "arrow"@ || t == "line"@ || t == "spline"@ || t == "arc"@ || t == "move"@
}

/// ASCII lower case of a whole string.
pub open spec fn lowered(s: Seq<char>) -> Seq<char> {
    s.map_values(|c: char| ascii_lower(c))
}

/// Whether a lower-cased object type draws a flow segment.
pub fn is_flow_type(t: &str) -> (r: bool)
    ensures
        r == is_flow_spec(t@),
{
    str_eq(t, "arrow") || str_eq(t, "line") || str_eq(t, "spline") || str_eq(t, "arc") || str_eq(t, "move")
}

/// The number of shape objects (objects that are not flow segments).
pub open spec fn shape_count_spec(stmts: Seq<PikchrStatement>) -> int
    decreases stmts.len(),
{
    if stmts.len() == 0 {
        0
    } else {
        shape_count_spec(stmts.drop_last()) + match stmts.last() {
            PikchrStatement::Object(o) => if is_flow_spec(lowered(o.object_type@)) {
                0int
            } else {
                1int
            },
            _ => 0int,
        }
    }
}

/// Counts the shape objects of a document; see [`shape_count_spec`].
pub fn shape_count(document: &PikchrDocument) -> (n: usize)
    ensures
        n as int == shape_count_spec(document.statements@),
{
    let stmts = &document.statements;
    let mut count: usize = 0;
    let n = stmts.len();
    for i in 0..n
        invariant
            n == stmts.len(),
            count <= i,
            count as int == shape_count_spec(stmts@.take(i as int)),
    {
        assert(stmts@.take(i + 1).drop_last() =~= stmts@.take(i as int));
        assert(stmts@.take(i + 1).last() == stmts@[i as int]);
        match &stmts[i] {
            PikchrStatement::Object(o) => {
                let t = to_ascii_lowercase(o.object_type.as_str());
                if !is_flow_type(t.as_str()) {
                    count = count + 1;
                }
            },
            _ => {},
        }
    }
    assert(stmts@.take(n as int) =~= stmts@);
    count
}

/// `v` with each run of equal adjacent entries collapsed to one.
pub open spec fn dedup_adjacent(v: Seq<Seq<char>>) -> Seq<Seq<char>>
    decreases v.len(),
{
    if v.len() == 0 {
        Seq::empty()
    } else {
        let rest = dedup_adjacent(v.drop_last());
        if v.len() >= 2 && v[v.len() - 2] == v.last() {
            rest
        } else {
            rest.push(v.last())
        }
    }
}

/// The label texts of an object: its label, then its string attributes.
pub open spec fn label_values(o: PikchrObject) -> Seq<Seq<char>> {
    let first: Seq<Seq<char>> = match o.label {
        Some(l) => seq![l@],
        None => Seq::empty(),
    };
    first + string_attributes(o.attributes@)
}

/// The values of the string attributes, in order.
pub open spec fn string_attributes(a: Seq<PikchrAttribute>) -> Seq<Seq<char>>
    decreases a.len(),
{
    if a.len() == 0 {
        Seq::empty()
    } else {
        let rest = string_attributes(a.drop_last());
        if a.last().is_string {
            rest.push(a.last().value@)
        } else {
            rest
        }
    }
}

/// An object's label text: its label texts, adjacent repeats dropped, one per line.
pub open spec fn object_label_spec(o: PikchrObject) -> Seq<char> {
    join_spec(dedup_adjacent(label_values(o)), "\n"@)
}

proof fn lemma_dedup_adjacent_last(v: Seq<Seq<char>>)
    requires
        v.len() > 0,
    ensures
        dedup_adjacent(v).len() > 0,
        dedup_adjacent(v).last() == v.last(),
    decreases v.len(),
{
    if v.len() >= 2 && v[v.len() - 2] == v.last() {
        lemma_dedup_adjacent_last(v.drop_last());
    }
}

/// An object's label text; see [`object_label_spec`].
pub fn object_label(o: &PikchrObject) -> (out: String)
    ensures
        out@ == object_label_spec(*o),
{
    let mut values: Vec<String> = Vec::new();
    match &o.label {
        Some(l) => values.push(owned(l.as_str())),
        None => {},
    }
    let ghost first = strings_view(values@);
    let n = o.attributes.len();
    for i in 0..n
        invariant
            n == o.attributes.len(),
            strings_view(values@) == first + string_attributes(o.attributes@.take(i as int)),
    {
        assert(o.attributes@.take(i + 1).drop_last() =~= o.attributes@.take(i as int));
        let a = &o.attributes[i];
        if a.is_string {
            let ghost before = strings_view(values@);
            values.push(owned(a.value.as_str()));
            assert(strings_view(values@) =~= before.push(a.value@));
        }
    }
    assert(o.attributes@.take(n as int) =~= o.attributes@);
    assert(strings_view(values@) =~= label_values(*o));
    let ghost all = strings_view(values@);
    // Collapse adjacent repeats.
    let mut kept: Vec<String> = Vec::new();
    let m = values.len();
    for i in 0..m
        invariant
            m == values.len(),
            all == strings_view(values@),
            strings_view(kept@) == dedup_adjacent(all.take(i as int)),
            i > 0 ==> kept@.len() > 0 && kept@.last()@ == all[i - 1],
    {
        assert(all.take(i + 1).drop_last() =~= all.take(i as int));
        assert(all.take(i + 1).last() == all[i as int]);
        if i >= 1 {
            assert(all.take(i + 1)[i - 1] == all[i - 1]);
        }
        let repeat = i >= 1 && str_eq(values[i - 1].as_str(), values[i].as_str());
        if !repeat {
            let ghost before = strings_view(kept@);
            kept.push(owned(values[i].as_str()));
            assert(strings_view(kept@) =~= before.push(all[i as int]));
        } else {
            proof {
                lemma_dedup_adjacent_last(all.take(i as int));
            }
        }
    }
    assert(all.take(m as int) =~= all);
    join(&kept, "\n")
}

/// How a lower-cased object type is drawn.
#[derive(Clone, Copy, Debug, PartialEq, Eq, Structural)]
pub enum ShapeKind {
    Circle,
    Ellipse,
    Diamond,
    Cylinder,
    Dot,
    Text,
    Box,
}

/// The shape a lower-cased object type draws; unknown types draw a box.
pub open spec fn shape_kind_spec(t: Seq<char>) -> ShapeKind {
    if t == "circle"@ {
        ShapeKind::Circle
    } else if t == "ellipse"@ || t == "oval"@ {
        ShapeKind::Ellipse
    } else if t == "diamond"@ {
        ShapeKind::Diamond
    } else if t == "cylinder"@ {
        ShapeKind::Cylinder
    } else if t == "dot"@ {
        ShapeKind::Dot
    } else if t == "text"@ {
        ShapeKind::Text
    } else {
        ShapeKind::Box
    }
}

/// The shape a lower-cased object type draws; see [`shape_kind_spec`].
pub fn shape_kind(t: &str) -> (k: ShapeKind)
    ensures
        k == shape_kind_spec(t@),
{
    if str_eq(t, "circle") {
        ShapeKind::Circle
    } else if str_eq(t, "ellipse") || str_eq(t, "oval") {
        ShapeKind::Ellipse
    } else if str_eq(t, "diamond") {
        ShapeKind::Diamond
    } else if str_eq(t, "cylinder") {
        ShapeKind::Cylinder
    } else if str_eq(t, "dot") {
        ShapeKind::Dot
    } else if str_eq(t, "text") {
        ShapeKind::Text
    } else {
        ShapeKind::Box
    }
}

/// One drawing step of a Pikchr scene, in statement order.
#[derive(Clone, Copy, Debug, PartialEq, Eq, Structural)]
pub enum PikchrStep {
    /// Later objects follow this direction.
    Turn(PikchrDirection),
    /// Flow object at statement `index`: the cursor moves on, drawing unless it is a `move`.
    Flow { index: usize },
    /// Shape object at statement `index`; `advance` when the cursor first moves
    /// past the previous shape.
    Shape { index: usize, advance: bool },
}

/// Planning state: steps and warnings so far, whether the last object was a
/// shape, whether attributes were already reported.
pub struct PikchrPlanState {
    pub steps: Seq<PikchrStep>,
    pub warnings: Seq<Seq<char>>,
    pub after_shape: bool,
    pub warned: bool,
}

/// The warning about object attributes, given once per scene.
pub open spec fn attributes_warning() -> Seq<char> {
    "Pikchr attributes are retained by the AST; this renderer currently applies labels and common flow geometry, not expression-level sizing/placement"@
}

/// The plan after the statements `stmts`.
pub open spec fn plan_spec(stmts: Seq<PikchrStatement>) -> PikchrPlanState
    decreases stmts.len(),
{
    if stmts.len() == 0 {
        PikchrPlanState { steps: Seq::empty(), warnings: Seq::empty(), after_shape: false, warned: false }
    } else {
        let s = plan_spec(stmts.drop_last());
        let index = (stmts.len() - 1) as usize;
        match stmts.last() {
            PikchrStatement::Direction(d) => PikchrPlanState { steps: s.steps.push(PikchrStep::Turn(d)), ..s },
            PikchrStatement::Object(o) => {
                let warn = o.attributes@.len() > 0 && !s.warned;
                let s2 = PikchrPlanState {
                    warnings: if warn { s.warnings.push(attributes_warning()) } else { s.warnings },
                    warned: s.warned || warn,
                    ..s
                };
                if is_flow_spec(lowered(o.object_type@)) {
                    PikchrPlanState { steps: s2.steps.push(PikchrStep::Flow { index }), after_shape: false, ..s2 }
                } else {
                    PikchrPlanState {
                        steps: s2.steps.push(PikchrStep::Shape { index, advance: s2.after_shape }),
                        after_shape: true,
                        ..s2
                    }
                }
            },
            PikchrStatement::Place { label } => PikchrPlanState {
                warnings: s.warnings.push(
                    "Pikchr place `"@ + label@ + "` is retained but its expression is not geometrically evaluated"@,
                ),
                ..s
            },
            PikchrStatement::Assignment { variable } => PikchrPlanState {
                warnings: s.warnings.push(
                    "Pikchr assignment `"@ + variable@ + "` is retained but not expression-evaluated"@,
                ),
                ..s
            },
            PikchrStatement::Define { name } => PikchrPlanState {
                warnings: s.warnings.push("Pikchr macro `"@ + name@ + "` is retained but not expanded"@),
                ..s
            },
            PikchrStatement::Print => s,
            PikchrStatement::Assert => s,
        }
    }
}

/// The drawing steps of a Pikchr scene and its warnings.
pub struct PikchrPlan {
    pub steps: Vec<PikchrStep>,
    pub warnings: Vec<String>,
}

/// Plans a Pikchr scene; see [`plan_spec`].
pub fn plan(document: &PikchrDocument) -> (out: PikchrPlan)
    ensures
        out.steps@ == plan_spec(document.statements@).steps,
        strings_view(out.warnings@) == plan_spec(document.statements@).warnings,
{
    let stmts = &document.statements;
    let mut steps: Vec<PikchrStep> = Vec::new();
    let mut warnings: Vec<String> = Vec::new();
    let mut after_shape = false;
    let mut warned = false;
    let n = stmts.len();
    assert(strings_view(warnings@) =~= Seq::empty());
    for i in 0..n
        invariant
            n == stmts.len(),
            ({
                let s = plan_spec(stmts@.take(i as int));
                &&& steps@ == s.steps
                &&& strings_view(warnings@) == s.warnings
                &&& after_shape == s.after_shape
                &&& warned == s.warned
            }),
    {
        assert(stmts@.take(i + 1).drop_last() =~= stmts@.take(i as int));
        assert(stmts@.take(i + 1).last() == stmts@[i as int]);
        let ghost before = strings_view(warnings@);
        match &stmts[i] {
            PikchrStatement::Direction(d) => {
                steps.push(PikchrStep::Turn(*d));
            },
            PikchrStatement::Object(o) => {
                if o.attributes.len() > 0 && !warned {
                    warnings.push(
                        owned(
                            "Pikchr attributes are retained by the AST; this renderer currently applies labels and common flow geometry, not expression-level sizing/placement",
                        ),
                    );
                    assert(strings_view(warnings@) =~= before.push(attributes_warning()));
                    warned = true;
                }
                let t = to_ascii_lowercase(o.object_type.as_str());
                if is_flow_type(t.as_str()) {
                    steps.push(PikchrStep::Flow { index: i });
                    after_shape = false;
                } else {
                    steps.push(PikchrStep::Shape { index: i, advance: after_shape });
                    after_shape = true;
                }
            },
            PikchrStatement::Place { label } => {
                let w = concat3(
                    "Pikchr place `",
                    label.as_str(),
                    "` is retained but its expression is not geometrically evaluated",
                );
                let ghost wv = w@;
                warnings.push(w);
                assert(strings_view(warnings@) =~= before.push(wv));
            },
            PikchrStatement::Assignment { variable } => {
                let w = concat3("Pikchr assignment `", variable.as_str(), "` is retained but not expression-evaluated");
                let ghost wv = w@;
                warnings.push(w);
                assert(strings_view(warnings@) =~= before.push(wv));
            },
            PikchrStatement::Define { name } => {
                let w = concat3("Pikchr macro `", name.as_str(), "` is retained but not expanded");
                let ghost wv = w@;
                warnings.push(w);
                assert(strings_view(warnings@) =~= before.push(wv));
            },
            PikchrStatement::Print => {},
            PikchrStatement::Assert => {},
        }
    }
    assert(stmts@.take(n as int) =~= stmts@);
    PikchrPlan { steps, warnings }
}

/// Line-splitting state after reading `t`: the lines ended by `\n` (each
/// with one `\r` before the `\n` dropped) and the line in progress.
pub open spec fn lines_state(t: Seq<char>) -> (Seq<Seq<char>>, Seq<char>)
    decreases t.len(),
{
    if t.len() == 0 {
        (Seq::empty(), Seq::empty())
    } else {
        let (done, cur) = lines_state(t.drop_last());
        if t.last() == '\n' {
            (done.push(strip_cr(cur)), Seq::empty())
        } else {
            (done, cur.push(t.last()))
        }
    }
}

/// `s` without one trailing carriage return.
pub open spec fn strip_cr(s: Seq<char>) -> Seq<char> {
    if s.len() > 0 && s.last() == '\r' {
        s.drop_last()
    } else {
        s
    }
}

/// The lines of a text as `str::lines` yields them: split at `\n` or
/// `\r\n`, a final line without a line ending kept as it is (a lone
/// trailing `\r` included), and no empty line after a final line ending.
pub open spec fn lines_spec(t: Seq<char>) -> Seq<Seq<char>> {
    let (done, cur) = lines_state(t);
    if cur.len() > 0 {
        done.push(cur)
    } else {
        done
    }
}

/// The first three lines of a label, as drawn inside a shape.
pub fn label_lines(label: &str) -> (out: Vec<String>)
    ensures
        strings_view(out@) == lines_spec(label@).take(
            if lines_spec(label@).len() < 3 { lines_spec(label@).len() as int } else { 3 },
        ),
{
    let x = chars_of(label);
    let n = x.len();
    let mut done: Vec<String> = Vec::new();
    let mut cur: Vec<char> = Vec::new();
    for i in 0..n
        invariant
            n == x.len(),
            x@ == label@,
            (strings_view(done@), cur@) == lines_state(label@.take(i as int)),
    {
        assert(label@.take(i + 1).drop_last() =~= label@.take(i as int));
        assert(label@.take(i + 1).last() == x@[i as int]);
        if x[i] == '\n' {
            let mut line = cur;
            cur = Vec::new();
            if line.len() > 0 && line[line.len() - 1] == '\r' {
                line.pop();
            }
            let ghost before = strings_view(done@);
            let s = string_of(&line);
            let ghost sv = s@;
            done.push(s);
            assert(strings_view(done@) =~= before.push(sv));
        } else {
            cur.push(x[i]);
        }
    }
    assert(label@.take(n as int) =~= label@);
    if cur.len() > 0 {
        let ghost before = strings_view(done@);
        let s = string_of(&cur);
        let ghost sv = s@;
        done.push(s);
        assert(strings_view(done@) =~= before.push(sv));
    }
    let ghost all = strings_view(done@);
    let mut out: Vec<String> = Vec::new();
    let k = if done.len() < 3 { done.len() } else { 3 };
    for i in 0..k
        invariant
            k <= done.len(),
            all == strings_view(done@),
            strings_view(out@) == all.take(i as int),
    {
        let ghost before = strings_view(out@);
        out.push(owned(done[i].as_str()));
        assert(strings_view(out@) =~= before.push(all[i as int]));
        assert(all.take(i + 1) =~= all.take(i as int).push(all[i as int]));
    }
    out
}

/// The number of shape steps of a plan.
pub open spec fn shape_steps(steps: Seq<PikchrStep>) -> int
    decreases steps.len(),
{
    if steps.len() == 0 {
        0
    } else {
        shape_steps(steps.drop_last()) + if steps.last() is Shape {
            1int
        } else {
            0int
        }
    }
}

/// Law: a plan draws exactly the shapes that [`shape_count`] counts, so the
/// canvas sized from that count is sized for the shapes drawn on it.
pub proof fn lemma_plan_draws_every_shape(stmts: Seq<PikchrStatement>)
    ensures
        shape_steps(plan_spec(stmts).steps) == shape_count_spec(stmts),
    decreases stmts.len(),
{
    if stmts.len() > 0 {
        let init = stmts.drop_last();
        lemma_plan_draws_every_shape(init);
        let before = plan_spec(init).steps;
        let after = plan_spec(stmts).steps;
        if after.len() > before.len() {
            assert(after.drop_last() =~= before);
        }
    }
}

/// The number of place, assignment and macro statements.
pub open spec fn reported_statements(stmts: Seq<PikchrStatement>) -> int
    decreases stmts.len(),
{
    if stmts.len() == 0 {
        0
    } else {
        reported_statements(stmts.drop_last()) + match stmts.last() {
            PikchrStatement::Place { .. } => 1int,
            PikchrStatement::Assignment { .. } => 1int,
            PikchrStatement::Define { .. } => 1int,
            _ => 0int,
        }
    }
}

/// Whether some object statement carries attributes.
pub open spec fn has_attributes(stmts: Seq<PikchrStatement>) -> bool
    decreases stmts.len(),
{
    if stmts.len() == 0 {
        false
    } else {
        has_attributes(stmts.drop_last()) || (stmts.last() matches PikchrStatement::Object(o)
            && o.attributes@.len() > 0)
    }
}

/// Law: a plan warns once for each place, assignment and macro statement, and
/// once in all, however many objects carry them, for object attributes.
pub proof fn lemma_plan_warnings(stmts: Seq<PikchrStatement>)
    ensures
        plan_spec(stmts).warnings.len() == reported_statements(stmts) + if has_attributes(stmts) {
            1int
        } else {
            0int
        },
        plan_spec(stmts).warned == has_attributes(stmts),
    decreases stmts.len(),
{
    if stmts.len() > 0 {
        lemma_plan_warnings(stmts.drop_last());
    }
}

/// The statement index a flow or shape step draws.
pub open spec fn step_object(step: PikchrStep) -> Option<int> {
    match step {
        PikchrStep::Turn(_) => None,
        PikchrStep::Flow { index } => Some(index as int),
        PikchrStep::Shape { index, .. } => Some(index as int),
    }
}

/// Whether a step draws an object statement of its own kind: a flow step a
/// flow object, a shape step any other object.
pub open spec fn step_matches(stmts: Seq<PikchrStatement>, step: PikchrStep) -> bool {
    match step {
        PikchrStep::Turn(_) => true,
        PikchrStep::Flow { index } => index < stmts.len() && (stmts[index as int] matches PikchrStatement::Object(o)
            && is_flow_spec(lowered(o.object_type@))),
        PikchrStep::Shape { index, .. } => index < stmts.len() && (stmts[index as int] matches PikchrStatement::Object(
            o,
        ) && !is_flow_spec(lowered(o.object_type@))),
    }
}

/// Law: every flow or shape step of a plan draws an object statement of its
/// own kind, and objects are drawn in statement order.
pub proof fn lemma_plan_follows_the_statements(stmts: Seq<PikchrStatement>)
    requires
        stmts.len() <= usize::MAX,
    ensures
        forall|k: int| 0 <= k < plan_spec(stmts).steps.len() ==> step_matches(stmts, #[trigger] plan_spec(stmts).steps[k]),
        forall|j: int, k: int|
            0 <= j < k < plan_spec(stmts).steps.len() && step_object(#[trigger] plan_spec(stmts).steps[j]) is Some
                && step_object(#[trigger] plan_spec(stmts).steps[k]) is Some ==> step_object(
                plan_spec(stmts).steps[j],
            )->0 < step_object(plan_spec(stmts).steps[k])->0,
    decreases stmts.len(),
{
    if stmts.len() > 0 {
        let init = stmts.drop_last();
        lemma_plan_follows_the_statements(init);
        let before = plan_spec(init).steps;
        let after = plan_spec(stmts).steps;
        assert forall|k: int| 0 <= k < after.len() implies step_matches(stmts, #[trigger] after[k]) by {
            if k < before.len() {
                assert(after[k] == before[k]);
                assert(step_matches(init, before[k]));
                match before[k] {
                    PikchrStep::Flow { index } => {
                        assert(stmts[index as int] == init[index as int]);
                    },
                    PikchrStep::Shape { index, .. } => {
                        assert(stmts[index as int] == init[index as int]);
                    },
                    _ => {},
                }
            } else {
                assert(((stmts.len() - 1) as usize) as int == stmts.len() - 1);
            }
        }
        assert forall|j: int, k: int|
            0 <= j < k < after.len() && step_object(#[trigger] after[j]) is Some && step_object(
                #[trigger] after[k],
            ) is Some implies step_object(after[j])->0 < step_object(after[k])->0 by {
            assert(after[j] == before[j]);
            assert(step_matches(init, before[j]));
            if k < before.len() {
                assert(after[k] == before[k]);
            } else {
                assert(((stmts.len() - 1) as usize) as int == stmts.len() - 1);
            }
        }
    }
}

/// The nearest object statement in `stmts`, searching back from the end.
pub open spec fn last_object(stmts: Seq<PikchrStatement>) -> Option<PikchrObject>
    decreases stmts.len(),
{
    if stmts.len() == 0 {
        None
    } else {
        match stmts.last() {
            PikchrStatement::Object(o) => Some(o),
            _ => last_object(stmts.drop_last()),
        }
    }
}

/// Whether an object is a shape (not a flow segment).
pub open spec fn is_shape_object(o: Option<PikchrObject>) -> bool {
    match o {
        Some(obj) => !is_flow_spec(lowered(obj.object_type@)),
        None => false,
    }
}

proof fn lemma_after_shape(stmts: Seq<PikchrStatement>)
    ensures
        plan_spec(stmts).after_shape == is_shape_object(last_object(stmts)),
    decreases stmts.len(),
{
    if stmts.len() > 0 {
        lemma_after_shape(stmts.drop_last());
    }
}

/// Law: a shape moves past the previous one exactly when the nearest object
/// statement before it is a shape; directions and the other non-object
/// statements in between change nothing, and a flow object in between
/// leaves the cursor where the flow ended.
pub proof fn lemma_shape_advance(stmts: Seq<PikchrStatement>)
    requires
        stmts.len() <= usize::MAX,
    ensures
        forall|k: int|
            0 <= k < plan_spec(stmts).steps.len() && (#[trigger] plan_spec(stmts).steps[k] is Shape) ==> {
                let step = plan_spec(stmts).steps[k];
                step->Shape_advance == is_shape_object(last_object(stmts.take(step->Shape_index as int)))
            },
    decreases stmts.len(),
{
    lemma_plan_follows_the_statements(stmts);
    if stmts.len() > 0 {
        let init = stmts.drop_last();
        lemma_shape_advance(init);
        lemma_plan_follows_the_statements(init);
        lemma_after_shape(init);
        let before = plan_spec(init).steps;
        let after = plan_spec(stmts).steps;
        assert forall|k: int| 0 <= k < after.len() && (#[trigger] after[k] is Shape) implies after[k]->Shape_advance
            == is_shape_object(last_object(stmts.take(after[k]->Shape_index as int))) by {
            if k < before.len() {
                assert(after[k] == before[k]);
                assert(step_matches(init, before[k]));
                let i = before[k]->Shape_index as int;
                assert(stmts.take(i) =~= init.take(i));
            } else {
                assert(((stmts.len() - 1) as usize) as int == stmts.len() - 1);
                assert(stmts.take(stmts.len() - 1) =~= init);
            }
        }
    }
}

} // verus!
