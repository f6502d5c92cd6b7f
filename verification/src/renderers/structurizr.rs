//! Structurizr DSL: workspace elements become cards, relationships become
//! connectors; view syntax is reported, not evaluated.

use vstd::prelude::*;

use crate::renderers::cards::{
    add_card_line, add_line_spec, has_id, ids_unique, lemma_add_line_keeps_ids,
    lemma_connector_endpoints_resolve, lemma_push_card_keeps_ids_unique, build_state, ensure_all_spec, ensure_connector_endpoints,
    endpoint_ids, initial_state, push_card_spec, push_connector, push_warning, start_build,
    strings_view, BuildState, Card, CardBuild, CardDiagram, CardModel, Connector, ConnectorKind,
    ConnectorModel, cards_view, connectors_view,
};
use crate::text::{
    ascii_lower, concat2, concat3, contains_str, decimal, decimal_string, has_substring, join,
    join_spec, opt_str_view, opt_view, owned, to_ascii_lowercase,
};

verus! {

/// `workspace "name" { ... }`.
pub struct StructurizrWorkspace {
    pub name: Option<String>,
    pub body: Vec<StructurizrStatement>,
}

/// A model element such as `person`, `softwareSystem` or `container`.
pub struct StructurizrElement {
    pub id: Option<String>,
    pub element_type: String,
    pub name: Option<String>,
    pub description: Option<String>,
    pub technology: Option<String>,
    pub body: Vec<StructurizrStatement>,
}

/// `source -> target "description" "technology"`.
pub struct StructurizrRelationship {
    pub source: String,
    pub target: String,
    pub description: Option<String>,
    pub technology: Option<String>,
    pub body: Vec<StructurizrStatement>,
}

/// Any other keyword block, such as `model` or `views`.
pub struct StructurizrBlock {
    pub keyword: String,
    pub body: Vec<StructurizrStatement>,
}

/// A property line: a name and its values.
pub struct StructurizrProperty {
    pub name: String,
    pub values: Vec<String>,
    pub body: Vec<StructurizrStatement>,
}

/// One Structurizr statement.
pub enum StructurizrStatement {
    Workspace(StructurizrWorkspace),
    Element(StructurizrElement),
    Relationship(StructurizrRelationship),
    Block(StructurizrBlock),
    Property(StructurizrProperty),
    Directive(String),
}

/// A parsed Structurizr DSL document.
pub struct StructurizrDocument {
    pub statements: Vec<StructurizrStatement>,
}

/// The card id of an element: its identifier, else its name, else
/// `element-N` where N is one more than the number of cards so far.
pub open spec fn element_id(e: StructurizrElement, count: nat) -> Seq<char> {
    match e.id {
        Some(id) => id@,
        None => match e.name {
            Some(n) => n@,
            None => "element-"@ + decimal(count + 1),
        },
    }
}

/// Body lines of an element card: description, technology, containing element.
pub open spec fn element_lines(e: StructurizrElement, parent: Option<Seq<char>>) -> Seq<Seq<char>> {
    let a: Seq<Seq<char>> = match e.description {
        Some(d) => seq![d@],
        None => Seq::empty(),
    };
    let b = match e.technology {
        Some(t) => a.push("technology: "@ + t@),
        None => a,
    };
    match parent {
        Some(p) => b.push("inside "@ + p),
        None => b,
    }
}

/// A relationship's label from its description and technology.
pub open spec fn relationship_label(description: Option<Seq<char>>, technology: Option<Seq<char>>) -> Option<
    Seq<char>,
> {
    match (description, technology) {
        (Some(d), Some(t)) => Some(d + " · "@ + t),
        (Some(d), None) => Some(d),
        (None, Some(t)) => Some(t),
        (None, None) => None,
    }
}

/// The effect of walking `stmts` under `parent` from state `st`.
pub open spec fn walk_spec(stmts: Seq<StructurizrStatement>, parent: Option<Seq<char>>, st: BuildState) -> BuildState
    decreases stmts,
{
    if stmts.len() == 0 {
        st
    } else {
        let s1 = walk_spec(stmts.drop_last(), parent, st);
        match stmts.last() {
            StructurizrStatement::Workspace(w) => {
                let s2 = match w.name {
                    Some(n) => BuildState { title: "Structurizr · "@ + n@, ..s1 },
                    None => s1,
                };
                walk_spec(w.body@, None, s2)
            },
            StructurizrStatement::Element(e) => {
                let id = element_id(e, s1.cards.len());
                let card = CardModel {
                    id: id,
                    title: match e.name {
                        Some(n) => n@,
                        None => id,
                    },
                    kind: e.element_type@,
                    lines: element_lines(e, parent),
                    color_slot: s1.cards.len(),
                };
                walk_spec(e.body@, Some(id), BuildState { cards: push_card_spec(s1.cards, card), ..s1 })
            },
            StructurizrStatement::Relationship(r) => {
                let c = ConnectorModel {
                    from: r.source@,
                    to: r.target@,
                    label: relationship_label(opt_view(r.description), opt_view(r.technology)),
                    kind: ConnectorKind::Directed,
                    dashed: false,
                };
                walk_spec(r.body@, parent, BuildState { connectors: s1.connectors.push(c), ..s1 })
            },
            StructurizrStatement::Block(b) => {
                let s2 = if has_substring(b.keyword@.map_values(|c: char| ascii_lower(c)), "view"@) {
                    BuildState {
                        warnings: s1.warnings.push(
                            "Structurizr `"@ + b.keyword@
                                + "` view syntax is retained, but this renderer shows the model rather than evaluating a view"@,
                        ),
                        ..s1
                    }
                } else {
                    s1
                };
                walk_spec(b.body@, parent, s2)
            },
            StructurizrStatement::Property(p) => {
                let s2 = match parent {
                    Some(pa) => BuildState {
                        cards: add_line_spec(
                            s1.cards,
                            pa,
                            p.name@ + ": "@ + join_spec(p.values@.map_values(|v: String| v@), " "@),
                        ),
                        ..s1
                    },
                    None => s1,
                };
                walk_spec(p.body@, parent, s2)
            },
            StructurizrStatement::Directive(_) => s1,
        }
    }
}

fn relationship_label_of(r: &StructurizrRelationship) -> (out: Option<String>)
    ensures
        opt_view(out) == relationship_label(opt_view(r.description), opt_view(r.technology)),
{
    match (&r.description, &r.technology) {
        (Some(d), Some(t)) => Some(concat3(d.as_str(), " · ", t.as_str())),
        (Some(d), None) => Some(owned(d.as_str())),
        (None, Some(t)) => Some(owned(t.as_str())),
        (None, None) => None,
    }
}

/// Walks Structurizr statements under `parent`; see [`walk_spec`].
pub fn walk(
    stmts: &Vec<StructurizrStatement>,
    parent: Option<&str>,
    diagram: &mut CardDiagram,
    warnings: &mut Vec<String>,
)
    ensures
        build_state(*final(diagram), final(warnings)@) == walk_spec(
            stmts@,
            opt_str_view(parent),
            build_state(*old(diagram), old(warnings)@),
        ),
    decreases stmts@,
{
    let ghost st0 = build_state(*diagram, warnings@);
    let n = stmts.len();
    for i in 0..n
        invariant
            n == stmts.len(),
            st0 == build_state(*old(diagram), old(warnings)@),
            build_state(*diagram, warnings@) == walk_spec(stmts@.take(i as int), opt_str_view(parent), st0),
    {
        assert(stmts@.take(i + 1).drop_last() =~= stmts@.take(i as int));
        assert(stmts@.take(i + 1).last() == stmts@[i as int]);
        match &stmts[i] {
            StructurizrStatement::Workspace(w) => {
                match &w.name {
                    Some(name) => {
                        diagram.title = concat2("Structurizr · ", name.as_str());
                    },
                    None => {},
                }
                walk(&w.body, None, diagram, warnings);
            },
            StructurizrStatement::Element(e) => {
                let count = diagram.cards.len();
                let id = match &e.id {
                    Some(id) => owned(id.as_str()),
                    None => match &e.name {
                        Some(name) => owned(name.as_str()),
                        None => {
                            let next = count as u128 + 1;
                            let digits = decimal_string(next);
                            concat2("element-", digits.as_str())
                        },
                    },
                };
                let mut lines: Vec<String> = Vec::new();
                match &e.description {
                    Some(d) => lines.push(owned(d.as_str())),
                    None => {},
                }
                match &e.technology {
                    Some(t) => lines.push(concat2("technology: ", t.as_str())),
                    None => {},
                }
                match parent {
                    Some(p) => lines.push(concat2("inside ", p)),
                    None => {},
                }
                assert(strings_view(lines@) =~= element_lines(*e, opt_str_view(parent)));
                let title = match &e.name {
                    Some(name) => owned(name.as_str()),
                    None => owned(id.as_str()),
                };
                diagram.push_card(Card::new(owned(id.as_str()), title, owned(e.element_type.as_str()), lines, count));
                walk(&e.body, Some(id.as_str()), diagram, warnings);
            },
            StructurizrStatement::Relationship(r) => {
                let c = Connector {
                    from: owned(r.source.as_str()),
                    to: owned(r.target.as_str()),
                    label: relationship_label_of(r),
                    kind: ConnectorKind::Directed,
                    dashed: false,
                };
                push_connector(diagram, c);
                walk(&r.body, parent, diagram, warnings);
            },
            StructurizrStatement::Block(b) => {
                let lower = to_ascii_lowercase(b.keyword.as_str());
                if contains_str(lower.as_str(), "view") {
                    let w = concat3(
                        "Structurizr `",
                        b.keyword.as_str(),
                        "` view syntax is retained, but this renderer shows the model rather than evaluating a view",
                    );
                    push_warning(warnings, w);
                }
                walk(&b.body, parent, diagram, warnings);
            },
            StructurizrStatement::Property(p) => {
                match parent {
                    Some(pa) => {
                        let values = join(&p.values, " ");
                        add_card_line(diagram, pa, concat3(p.name.as_str(), ": ", values.as_str()));
                    },
                    None => {},
                }
                walk(&p.body, parent, diagram, warnings);
            },
            StructurizrStatement::Directive(_) => {},
        }
    }
    assert(stmts@.take(n as int) =~= stmts@);
}

/// Walks a Structurizr document into a card diagram (titled after the
/// workspace when it has a name) and adds a reference card for every
/// relationship endpoint that names no element.
pub fn build(document: &StructurizrDocument) -> (out: CardBuild)
    ensures
        ({
            let walked = walk_spec(document.statements@, None, initial_state("Structurizr workspace"@));
            &&& out.diagram.title@ == walked.title
            &&& connectors_view(out.diagram.connectors@) == walked.connectors
            &&& strings_view(out.warnings@) == walked.warnings
            &&& cards_view(out.diagram.cards@) == ensure_all_spec(walked.cards, endpoint_ids(walked.connectors))
        }),
{
    let mut b = start_build("Structurizr workspace");
    walk(&document.statements, None, &mut b.diagram, &mut b.warnings);
    ensure_connector_endpoints(&mut b.diagram);
    b
}

/// Law: walking Structurizr statements keeps the card ids unique.
pub proof fn lemma_walk_keeps_ids_unique(stmts: Seq<StructurizrStatement>, parent: Option<Seq<char>>, st: BuildState)
    requires
        ids_unique(st.cards),
    ensures
        ids_unique(walk_spec(stmts, parent, st).cards),
    decreases stmts,
{
    if stmts.len() > 0 {
        lemma_walk_keeps_ids_unique(stmts.drop_last(), parent, st);
        let s1 = walk_spec(stmts.drop_last(), parent, st);
        match stmts.last() {
            StructurizrStatement::Workspace(w) => {
                let s2 = match w.name {
                    Some(n) => BuildState { title: "Structurizr · "@ + n@, ..s1 },
                    None => s1,
                };
                lemma_walk_keeps_ids_unique(w.body@, None, s2);
            },
            StructurizrStatement::Element(e) => {
                let id = element_id(e, s1.cards.len());
                let card = CardModel {
                    id: id,
                    title: match e.name {
                        Some(n) => n@,
                        None => id,
                    },
                    kind: e.element_type@,
                    lines: element_lines(e, parent),
                    color_slot: s1.cards.len(),
                };
                lemma_push_card_keeps_ids_unique(s1.cards, card);
                lemma_walk_keeps_ids_unique(e.body@, Some(id), BuildState { cards: push_card_spec(s1.cards, card), ..s1 });
            },
            StructurizrStatement::Relationship(r) => {
                let c = ConnectorModel {
                    from: r.source@,
                    to: r.target@,
                    label: relationship_label(opt_view(r.description), opt_view(r.technology)),
                    kind: ConnectorKind::Directed,
                    dashed: false,
                };
                lemma_walk_keeps_ids_unique(r.body@, parent, BuildState { connectors: s1.connectors.push(c), ..s1 });
            },
            StructurizrStatement::Block(b) => {
                let s2 = if has_substring(b.keyword@.map_values(|c: char| ascii_lower(c)), "view"@) {
                    BuildState {
                        warnings: s1.warnings.push(
                            "Structurizr `"@ + b.keyword@
                                + "` view syntax is retained, but this renderer shows the model rather than evaluating a view"@,
                        ),
                        ..s1
                    }
                } else {
                    s1
                };
                lemma_walk_keeps_ids_unique(b.body@, parent, s2);
            },
            StructurizrStatement::Property(p) => {
                let s2 = match parent {
                    Some(pa) => {
                        let line = p.name@ + ": "@ + join_spec(p.values@.map_values(|v: String| v@), " "@);
                        lemma_add_line_keeps_ids(s1.cards, pa, line);
                        BuildState { cards: add_line_spec(s1.cards, pa, line), ..s1 }
                    },
                    None => s1,
                };
                lemma_walk_keeps_ids_unique(p.body@, parent, s2);
            },
            StructurizrStatement::Directive(_) => {},
        }
    }
}

/// Law: in a built Structurizr diagram card ids are unique and every
/// relationship's source and target name a card.
pub proof fn lemma_build_is_connected(document: StructurizrDocument)
    ensures
        ({
            let walked = walk_spec(document.statements@, None, initial_state("Structurizr workspace"@));
            let cards = ensure_all_spec(walked.cards, endpoint_ids(walked.connectors));
            &&& ids_unique(cards)
            &&& forall|k: int|
                0 <= k < walked.connectors.len() ==> has_id(cards, (#[trigger] walked.connectors[k]).from)
                    && has_id(cards, walked.connectors[k].to)
        }),
{
    lemma_walk_keeps_ids_unique(document.statements@, None, initial_state("Structurizr workspace"@));
    let walked = walk_spec(document.statements@, None, initial_state("Structurizr workspace"@));
    lemma_connector_endpoints_resolve(walked.cards, walked.connectors);
}

/// Walking never drops or changes a connector already gathered.
proof fn lemma_walk_keeps_connectors(stmts: Seq<StructurizrStatement>, parent: Option<Seq<char>>, st: BuildState)
    ensures
        walk_spec(stmts, parent, st).connectors.len() >= st.connectors.len(),
        walk_spec(stmts, parent, st).connectors.take(st.connectors.len() as int) == st.connectors,
    decreases stmts,
{
    if stmts.len() > 0 {
        let s1 = walk_spec(stmts.drop_last(), parent, st);
        lemma_walk_keeps_connectors(stmts.drop_last(), parent, st);
        let n = st.connectors.len() as int;
        match stmts.last() {
            StructurizrStatement::Workspace(w) => {
                let s2 = match w.name {
                    Some(nm) => BuildState { title: "Structurizr · "@ + nm@, ..s1 },
                    None => s1,
                };
                lemma_walk_keeps_connectors(w.body@, None, s2);
                let out = walk_spec(w.body@, None, s2);
                assert(out.connectors.take(n) =~= out.connectors.take(s2.connectors.len() as int).take(n));
            },
            StructurizrStatement::Element(e) => {
                let id = element_id(e, s1.cards.len());
                let card = CardModel {
                    id: id,
                    title: match e.name {
                        Some(nm) => nm@,
                        None => id,
                    },
                    kind: e.element_type@,
                    lines: element_lines(e, parent),
                    color_slot: s1.cards.len(),
                };
                let s2 = BuildState { cards: push_card_spec(s1.cards, card), ..s1 };
                lemma_walk_keeps_connectors(e.body@, Some(id), s2);
                let out = walk_spec(e.body@, Some(id), s2);
                assert(out.connectors.take(n) =~= out.connectors.take(s2.connectors.len() as int).take(n));
            },
            StructurizrStatement::Relationship(r) => {
                let c = ConnectorModel {
                    from: r.source@,
                    to: r.target@,
                    label: relationship_label(opt_view(r.description), opt_view(r.technology)),
                    kind: ConnectorKind::Directed,
                    dashed: false,
                };
                let s2 = BuildState { connectors: s1.connectors.push(c), ..s1 };
                lemma_walk_keeps_connectors(r.body@, parent, s2);
                let out = walk_spec(r.body@, parent, s2);
                assert(out.connectors.take(n) =~= out.connectors.take(s2.connectors.len() as int).take(n));
                assert(s2.connectors.take(n) =~= s1.connectors.take(n));
            },
            StructurizrStatement::Block(b) => {
                let s2 = if has_substring(b.keyword@.map_values(|c: char| ascii_lower(c)), "view"@) {
                    BuildState {
                        warnings: s1.warnings.push(
                            "Structurizr `"@ + b.keyword@
                                + "` view syntax is retained, but this renderer shows the model rather than evaluating a view"@,
                        ),
                        ..s1
                    }
                } else {
                    s1
                };
                lemma_walk_keeps_connectors(b.body@, parent, s2);
                let out = walk_spec(b.body@, parent, s2);
                assert(out.connectors.take(n) =~= out.connectors.take(s2.connectors.len() as int).take(n));
            },
            StructurizrStatement::Property(p) => {
                let s2 = match parent {
                    Some(pa) => BuildState {
                        cards: add_line_spec(
                            s1.cards,
                            pa,
                            p.name@ + ": "@ + join_spec(p.values@.map_values(|v: String| v@), " "@),
                        ),
                        ..s1
                    },
                    None => s1,
                };
                lemma_walk_keeps_connectors(p.body@, parent, s2);
                let out = walk_spec(p.body@, parent, s2);
                assert(out.connectors.take(n) =~= out.connectors.take(s2.connectors.len() as int).take(n));
            },
            StructurizrStatement::Directive(_) => {},
        }
    }
}

/// Law: a relationship gives a directed, solid connector from its source to
/// its target. When it has a description the label begins with the
/// description, and is exactly the description when there is no technology;
/// when it has a technology as well the label ends with the technology;
/// without a description the label is the technology, if any.
pub proof fn lemma_relationship_connector(r: StructurizrRelationship, parent: Option<Seq<char>>, st: BuildState)
    ensures
        ({
            let out = walk_spec(seq![StructurizrStatement::Relationship(r)], parent, st);
            let c = out.connectors[st.connectors.len() as int];
            let d = opt_view(r.description);
            let t = opt_view(r.technology);
            &&& out.connectors.len() > st.connectors.len()
            &&& c.from == r.source@
            &&& c.to == r.target@
            &&& c.kind == ConnectorKind::Directed
            &&& !c.dashed
            &&& (d is Some ==> (c.label is Some && c.label->0.len() >= d->0.len() && c.label->0.take(
                d->0.len() as int,
            ) == d->0))
            &&& (d is Some && t is None ==> c.label == d)
            &&& (d is Some && t is Some ==> (c.label is Some && c.label->0.len() >= t->0.len() && c.label->0.skip(
                c.label->0.len() - t->0.len(),
            ) == t->0))
            &&& (d is None ==> c.label == t)
        }),
{
    let stmts = seq![StructurizrStatement::Relationship(r)];
    assert(stmts.drop_last() =~= Seq::<StructurizrStatement>::empty());
    let c = ConnectorModel {
        from: r.source@,
        to: r.target@,
        label: relationship_label(opt_view(r.description), opt_view(r.technology)),
        kind: ConnectorKind::Directed,
        dashed: false,
    };
    let s2 = BuildState { connectors: st.connectors.push(c), ..st };
    lemma_walk_keeps_connectors(r.body@, parent, s2);
    let out = walk_spec(r.body@, parent, s2);
    let n = st.connectors.len() as int;
    assert(walk_spec(stmts.drop_last(), parent, st) == st);
    assert(stmts.last() == StructurizrStatement::Relationship(r));
    assert(walk_spec(stmts, parent, st) == out);
    assert(out.connectors.take(n + 1) == s2.connectors);
    assert(out.connectors.take(n + 1)[n] == c);
    assert(out.connectors[n] == c);
    match (r.description, r.technology) {
        (Some(d), Some(t)) => {
            let x = d@ + " · "@ + t@;
            assert(x.take(d@.len() as int) =~= d@);
            assert(x.skip(x.len() - t@.len()) =~= t@);
        },
        _ => {},
    }
}

} // verus!
