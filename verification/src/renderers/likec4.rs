//! LikeC4: model and deployment elements become cards, relationships become
//! connectors; views are reported, not evaluated.

use vstd::prelude::*;

use crate::renderers::cards::{
    add_card_line, add_line_spec, has_id, ids_unique, lemma_add_line_keeps_ids,
    lemma_connector_endpoints_resolve, lemma_push_card_keeps_ids_unique, build_state, cards_view, connectors_view, ensure_all_spec,
    ensure_connector_endpoints, endpoint_ids, initial_state, push_card_spec, push_connector,
    push_warning, start_build, strings_view, BuildState, Card, CardBuild, CardDiagram, CardModel,
    Connector, ConnectorKind, ConnectorModel,
};
use crate::text::{clone_option, concat2, concat3, join, join_spec, opt_str_view, opt_view, owned};

verus! {

/// Which top-level section a block belongs to.
#[derive(Clone, Copy, Debug, PartialEq, Eq, Structural)]
pub enum LikeC4SectionKind {
    Specification,
    Model,
    Deployment,
    Views,
    Global,
}

/// `model { ... }`, `deployment { ... }` and the other sections.
pub struct LikeC4Section {
    pub section: LikeC4SectionKind,
    pub body: Vec<LikeC4Statement>,
}

/// `name = kind 'title' 'description' { ... }`.
pub struct LikeC4Element {
    pub name: String,
    pub element_type: String,
    pub title: Option<String>,
    pub description: Option<String>,
    pub reference: Option<String>,
    pub body: Vec<LikeC4Statement>,
}

/// `source -> target 'title'`, the source possibly implied by the enclosing element.
pub struct LikeC4Relationship {
    pub source: Option<String>,
    pub target: String,
    pub relationship_type: Option<String>,
    pub title: Option<String>,
    pub description: Option<String>,
    pub body: Vec<LikeC4Statement>,
}

/// A view declaration.
pub struct LikeC4View {
    pub view_type: String,
    pub name: Option<String>,
    pub body: Vec<LikeC4Statement>,
}

/// `extend target { ... }`.
pub struct LikeC4Extend {
    pub target: String,
    pub body: Vec<LikeC4Statement>,
}

/// A property line: a name and its values.
pub struct LikeC4Property {
    pub name: String,
    pub values: Vec<String>,
    pub body: Vec<LikeC4Statement>,
}

/// One LikeC4 statement.
pub enum LikeC4Statement {
    Section(LikeC4Section),
    Element(LikeC4Element),
    Relationship(LikeC4Relationship),
    View(LikeC4View),
    Extend(LikeC4Extend),
    Property(LikeC4Property),
    KindDefinition(String),
    Tag(String),
}

/// A parsed LikeC4 document.
pub struct LikeC4Document {
    pub statements: Vec<LikeC4Statement>,
}

/// Body lines of an element card: description, the element it instantiates,
/// and its containing element.
pub open spec fn element_lines(e: LikeC4Element, current: Option<Seq<char>>) -> Seq<Seq<char>> {
    let a: Seq<Seq<char>> = match e.description {
        Some(d) => seq![d@],
        None => Seq::empty(),
    };
    let b = match e.reference {
        Some(r) => a.push("instance of "@ + r@),
        None => a,
    };
    match current {
        Some(p) => b.push("inside "@ + p),
        None => b,
    }
}

/// A relationship's label: its title, else its description, else its type.
pub open spec fn relationship_label(r: LikeC4Relationship) -> Option<Seq<char>> {
    match r.title {
        Some(t) => Some(t@),
        None => match r.description {
            Some(d) => Some(d@),
            None => opt_view(r.relationship_type),
        },
    }
}

/// The effect of walking `stmts` inside element `current` from state `st`.
pub open spec fn walk_spec(stmts: Seq<LikeC4Statement>, current: Option<Seq<char>>, st: BuildState) -> BuildState
    decreases stmts,
{
    if stmts.len() == 0 {
        st
    } else {
        let s1 = walk_spec(stmts.drop_last(), current, st);
        match stmts.last() {
            LikeC4Statement::Section(s) => {
                let s2 = if s.section == LikeC4SectionKind::Deployment {
                    BuildState { title: "LikeC4 deployment model"@, ..s1 }
                } else {
                    s1
                };
                walk_spec(s.body@, current, s2)
            },
            LikeC4Statement::Element(e) => {
                let card = CardModel {
                    id: e.name@,
                    title: match e.title {
                        Some(t) => t@,
                        None => e.name@,
                    },
                    kind: e.element_type@,
                    lines: element_lines(e, current),
                    color_slot: s1.cards.len(),
                };
                walk_spec(e.body@, Some(e.name@), BuildState { cards: push_card_spec(s1.cards, card), ..s1 })
            },
            LikeC4Statement::Relationship(r) => {
                let source = match r.source {
                    Some(s) => Some(s@),
                    None => current,
                };
                let s2 = match source {
                    Some(src) => BuildState {
                        connectors: s1.connectors.push(
                            ConnectorModel {
                                from: src,
                                to: r.target@,
                                label: relationship_label(r),
                                kind: ConnectorKind::Directed,
                                dashed: r.relationship_type is Some,
                            },
                        ),
                        ..s1
                    },
                    None => BuildState {
                        warnings: s1.warnings.push(
                            "LikeC4 relationship targeting `"@ + r.target@ + "` has no resolvable source"@,
                        ),
                        ..s1
                    },
                };
                walk_spec(r.body@, current, s2)
            },
            LikeC4Statement::View(v) => {
                let name = match v.name {
                    Some(n) => n@,
                    None => v.view_type@,
                };
                let s2 = BuildState {
                    warnings: s1.warnings.push(
                        "LikeC4 "@ + name
                            + " view is retained, but this renderer shows the model rather than evaluating predicates/includes"@,
                    ),
                    ..s1
                };
                walk_spec(v.body@, current, s2)
            },
            LikeC4Statement::Extend(x) => walk_spec(x.body@, Some(x.target@), s1),
            LikeC4Statement::Property(p) => {
                let s2 = match current {
                    Some(c) => BuildState {
                        cards: add_line_spec(
                            s1.cards,
                            c,
                            p.name@ + ": "@ + join_spec(p.values@.map_values(|v: String| v@), " "@),
                        ),
                        ..s1
                    },
                    None => s1,
                };
                walk_spec(p.body@, current, s2)
            },
            LikeC4Statement::KindDefinition(_) => s1,
            LikeC4Statement::Tag(_) => s1,
        }
    }
}

fn relationship_label_of(r: &LikeC4Relationship) -> (out: Option<String>)
    ensures
        opt_view(out) == relationship_label(*r),
{
    match &r.title {
        Some(t) => Some(owned(t.as_str())),
        None => match &r.description {
            Some(d) => Some(owned(d.as_str())),
            None => clone_option(&r.relationship_type),
        },
    }
}

/// Walks LikeC4 statements inside element `current`; see [`walk_spec`].
pub fn walk(
    stmts: &Vec<LikeC4Statement>,
    current: Option<&str>,
    diagram: &mut CardDiagram,
    warnings: &mut Vec<String>,
)
    ensures
        build_state(*final(diagram), final(warnings)@) == walk_spec(
            stmts@,
            opt_str_view(current),
            build_state(*old(diagram), old(warnings)@),
        ),
    decreases stmts@,
{
    let ghost st0 = build_state(*diagram, warnings@);
    let n = stmts.len();
    for i in 0..n
        invariant
            n == stmts.len(),
            st0 == build_state(*old(diagram), old(warnings)@),
            build_state(*diagram, warnings@) == walk_spec(stmts@.take(i as int), opt_str_view(current), st0),
    {
        assert(stmts@.take(i + 1).drop_last() =~= stmts@.take(i as int));
        assert(stmts@.take(i + 1).last() == stmts@[i as int]);
        match &stmts[i] {
            LikeC4Statement::Section(s) => {
                if s.section == LikeC4SectionKind::Deployment {
                    diagram.title = owned("LikeC4 deployment model");
                }
                walk(&s.body, current, diagram, warnings);
            },
            LikeC4Statement::Element(e) => {
                let mut lines: Vec<String> = Vec::new();
                match &e.description {
                    Some(d) => lines.push(owned(d.as_str())),
                    None => {},
                }
                match &e.reference {
                    Some(r) => lines.push(concat2("instance of ", r.as_str())),
                    None => {},
                }
                match current {
                    Some(p) => lines.push(concat2("inside ", p)),
                    None => {},
                }
                assert(strings_view(lines@) =~= element_lines(*e, opt_str_view(current)));
                let title = match &e.title {
                    Some(t) => owned(t.as_str()),
                    None => owned(e.name.as_str()),
                };
                let slot = diagram.cards.len();
                diagram.push_card(
                    Card::new(owned(e.name.as_str()), title, owned(e.element_type.as_str()), lines, slot),
                );
                walk(&e.body, Some(e.name.as_str()), diagram, warnings);
            },
            LikeC4Statement::Relationship(r) => {
                let source: Option<&str> = match &r.source {
                    Some(s) => Some(s.as_str()),
                    None => current,
                };
                match source {
                    Some(src) => {
                        let c = Connector {
                            from: owned(src),
                            to: owned(r.target.as_str()),
                            label: relationship_label_of(r),
                            kind: ConnectorKind::Directed,
                            dashed: r.relationship_type.is_some(),
                        };
                        push_connector(diagram, c);
                    },
                    None => {
                        let w = concat3(
                            "LikeC4 relationship targeting `",
                            r.target.as_str(),
                            "` has no resolvable source",
                        );
                        push_warning(warnings, w);
                    },
                }
                walk(&r.body, current, diagram, warnings);
            },
            LikeC4Statement::View(v) => {
                let name: &str = match &v.name {
                    Some(n) => n.as_str(),
                    None => v.view_type.as_str(),
                };
                let w = concat3(
                    "LikeC4 ",
                    name,
                    " view is retained, but this renderer shows the model rather than evaluating predicates/includes",
                );
                push_warning(warnings, w);
                walk(&v.body, current, diagram, warnings);
            },
            LikeC4Statement::Extend(x) => {
                walk(&x.body, Some(x.target.as_str()), diagram, warnings);
            },
            LikeC4Statement::Property(p) => {
                match current {
                    Some(c) => {
                        let values = join(&p.values, " ");
                        add_card_line(diagram, c, concat3(p.name.as_str(), ": ", values.as_str()));
                    },
                    None => {},
                }
                walk(&p.body, current, diagram, warnings);
            },
            LikeC4Statement::KindDefinition(_) => {},
            LikeC4Statement::Tag(_) => {},
        }
    }
    assert(stmts@.take(n as int) =~= stmts@);
}

/// Walks a LikeC4 document into a card diagram and adds a reference card for
/// every relationship endpoint that names no element.
pub fn build(document: &LikeC4Document) -> (out: CardBuild)
    ensures
        ({
            let walked = walk_spec(document.statements@, None, initial_state("LikeC4 model"@));
            &&& out.diagram.title@ == walked.title
            &&& connectors_view(out.diagram.connectors@) == walked.connectors
            &&& strings_view(out.warnings@) == walked.warnings
            &&& cards_view(out.diagram.cards@) == ensure_all_spec(walked.cards, endpoint_ids(walked.connectors))
        }),
{
    let mut b = start_build("LikeC4 model");
    walk(&document.statements, None, &mut b.diagram, &mut b.warnings);
    ensure_connector_endpoints(&mut b.diagram);
    b
}

/// Law: walking LikeC4 statements keeps the card ids unique.
pub proof fn lemma_walk_keeps_ids_unique(stmts: Seq<LikeC4Statement>, current: Option<Seq<char>>, st: BuildState)
    requires
        ids_unique(st.cards),
    ensures
        ids_unique(walk_spec(stmts, current, st).cards),
    decreases stmts,
{
    if stmts.len() > 0 {
        lemma_walk_keeps_ids_unique(stmts.drop_last(), current, st);
        let s1 = walk_spec(stmts.drop_last(), current, st);
        match stmts.last() {
            LikeC4Statement::Section(s) => {
                let s2 = if s.section == LikeC4SectionKind::Deployment {
                    BuildState { title: "LikeC4 deployment model"@, ..s1 }
                } else {
                    s1
                };
                lemma_walk_keeps_ids_unique(s.body@, current, s2);
            },
            LikeC4Statement::Element(e) => {
                let card = CardModel {
                    id: e.name@,
                    title: match e.title {
                        Some(t) => t@,
                        None => e.name@,
                    },
                    kind: e.element_type@,
                    lines: element_lines(e, current),
                    color_slot: s1.cards.len(),
                };
                lemma_push_card_keeps_ids_unique(s1.cards, card);
                lemma_walk_keeps_ids_unique(e.body@, Some(e.name@), BuildState { cards: push_card_spec(s1.cards, card), ..s1 });
            },
            LikeC4Statement::Relationship(r) => {
                let source = match r.source {
                    Some(s) => Some(s@),
                    None => current,
                };
                let s2 = match source {
                    Some(src) => BuildState {
                        connectors: s1.connectors.push(
                            ConnectorModel {
                                from: src,
                                to: r.target@,
                                label: relationship_label(r),
                                kind: ConnectorKind::Directed,
                                dashed: r.relationship_type is Some,
                            },
                        ),
                        ..s1
                    },
                    None => BuildState {
                        warnings: s1.warnings.push(
                            "LikeC4 relationship targeting `"@ + r.target@ + "` has no resolvable source"@,
                        ),
                        ..s1
                    },
                };
                lemma_walk_keeps_ids_unique(r.body@, current, s2);
            },
            LikeC4Statement::View(v) => {
                let name = match v.name {
                    Some(n) => n@,
                    None => v.view_type@,
                };
                let s2 = BuildState {
                    warnings: s1.warnings.push(
                        "LikeC4 "@ + name
                            + " view is retained, but this renderer shows the model rather than evaluating predicates/includes"@,
                    ),
                    ..s1
                };
                lemma_walk_keeps_ids_unique(v.body@, current, s2);
            },
            LikeC4Statement::Extend(x) => {
                lemma_walk_keeps_ids_unique(x.body@, Some(x.target@), s1);
            },
            LikeC4Statement::Property(p) => {
                let s2 = match current {
                    Some(c) => {
                        let line = p.name@ + ": "@ + join_spec(p.values@.map_values(|v: String| v@), " "@);
                        lemma_add_line_keeps_ids(s1.cards, c, line);
                        BuildState { cards: add_line_spec(s1.cards, c, line), ..s1 }
                    },
                    None => s1,
                };
                lemma_walk_keeps_ids_unique(p.body@, current, s2);
            },
            _ => {},
        }
    }
}

/// Law: in a built LikeC4 diagram card ids are unique and every
/// relationship's source and target name a card.
pub proof fn lemma_build_is_connected(document: LikeC4Document)
    ensures
        ({
            let walked = walk_spec(document.statements@, None, initial_state("LikeC4 model"@));
            let cards = ensure_all_spec(walked.cards, endpoint_ids(walked.connectors));
            &&& ids_unique(cards)
            &&& forall|k: int|
                0 <= k < walked.connectors.len() ==> has_id(cards, (#[trigger] walked.connectors[k]).from)
                    && has_id(cards, walked.connectors[k].to)
        }),
{
    lemma_walk_keeps_ids_unique(document.statements@, None, initial_state("LikeC4 model"@));
    let walked = walk_spec(document.statements@, None, initial_state("LikeC4 model"@));
    lemma_connector_endpoints_resolve(walked.cards, walked.connectors);
}

} // verus!
