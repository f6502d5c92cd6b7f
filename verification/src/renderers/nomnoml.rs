//! nomnoml: classifiers become cards, relations become connectors.

use vstd::prelude::*;

use crate::renderers::cards::{
    arrowhead_ends_spec, build_state, cards_view, has_id, ids_unique, lemma_push_card_keeps_ids,
    lemma_push_card_keeps_ids_unique, connectors_view, initial_state, push_card_spec, push_connector,
    start_build, strings_view, BuildState, Card, CardBuild, CardDiagram, CardModel, Connector,
    ConnectorKind, ConnectorModel,
};
use crate::text::{
    concat3, contains_char, contains_str, has_substring, opt_view, owned, str_eq,
};

verus! {

/// One `|`-separated compartment of a classifier box.
pub struct NomnomlCompartment {
    pub lines: Vec<String>,
}

/// One `key=value` attribute of a classifier, in key order.
pub struct NomnomlAttribute {
    pub name: String,
    pub value: String,
}

/// `[<type> name | fields | methods]`.
pub struct NomnomlClassifier {
    pub classifier_type: Option<String>,
    pub compartments: Vec<NomnomlCompartment>,
    pub attributes: Vec<NomnomlAttribute>,
}

/// `[a] label -> label [b]`.
pub struct NomnomlRelation {
    pub start: NomnomlClassifier,
    pub end: NomnomlClassifier,
    pub association: String,
    pub start_label: Option<String>,
    pub end_label: Option<String>,
}

/// One nomnoml statement.
pub enum NomnomlStatement {
    Classifier(NomnomlClassifier),
    Relation(NomnomlRelation),
}

/// A parsed nomnoml document.
pub struct NomnomlDocument {
    pub statements: Vec<NomnomlStatement>,
}

/// The first line of the first compartment: the classifier's name.
pub open spec fn first_line(c: NomnomlClassifier) -> Option<Seq<char>> {
    if c.compartments@.len() > 0 && c.compartments@[0].lines@.len() > 0 {
        Some(c.compartments@[0].lines@[0]@)
    } else {
        None
    }
}

/// The value of the first attribute named `name`.
pub open spec fn attribute(attrs: Seq<NomnomlAttribute>, name: Seq<char>) -> Option<Seq<char>>
    decreases attrs.len(),
{
    if attrs.len() == 0 {
        None
    } else {
        match attribute(attrs.drop_last(), name) {
            Some(v) => Some(v),
            None => if attrs.last().name@ == name {
                Some(attrs.last().value@)
            } else {
                None
            },
        }
    }
}

/// A classifier's card id: its `id` attribute, else its name, else `fallback`.
pub open spec fn classifier_id_spec(c: NomnomlClassifier, fallback: Seq<char>) -> Seq<char> {
    match attribute(c.attributes@, "id"@) {
        Some(v) => v,
        None => match first_line(c) {
            Some(l) => l,
            None => fallback,
        },
    }
}

/// `lines` without those equal to `title`.
pub open spec fn lines_without(lines: Seq<String>, title: Seq<char>) -> Seq<Seq<char>>
    decreases lines.len(),
{
    if lines.len() == 0 {
        Seq::empty()
    } else {
        let rest = lines_without(lines.drop_last(), title);
        if lines.last()@ == title {
            rest
        } else {
            rest.push(lines.last()@)
        }
    }
}

/// All compartment lines, except lines of the first compartment equal to the title.
pub open spec fn compartment_lines(comps: Seq<NomnomlCompartment>, title: Seq<char>) -> Seq<Seq<char>>
    decreases comps.len(),
{
    if comps.len() == 0 {
        Seq::empty()
    } else {
        let rest = compartment_lines(comps.drop_last(), title);
        let lines = comps.last().lines@;
        if comps.len() == 1 {
            rest + lines_without(lines, title)
        } else {
            rest + lines.map_values(|l: String| l@)
        }
    }
}

/// `name: value` for every attribute but `id`.
pub open spec fn attribute_lines(attrs: Seq<NomnomlAttribute>) -> Seq<Seq<char>>
    decreases attrs.len(),
{
    if attrs.len() == 0 {
        Seq::empty()
    } else {
        let rest = attribute_lines(attrs.drop_last());
        if attrs.last().name@ == "id"@ {
            rest
        } else {
            rest.push(attrs.last().name@ + ": "@ + attrs.last().value@)
        }
    }
}

/// The card for a classifier.
pub open spec fn classifier_card_spec(c: NomnomlClassifier, slot: nat) -> CardModel {
    let id = classifier_id_spec(c, "classifier"@);
    let title = match first_line(c) {
        Some(l) => l,
        None => id,
    };
    CardModel {
        id: id,
        title: title,
        kind: match c.classifier_type {
            Some(t) => t@,
            None => "CLASS"@,
        },
        lines: compartment_lines(c.compartments@, title) + attribute_lines(c.attributes@),
        color_slot: slot,
    }
}

/// Arrowheads of a relation from its association text: `<` marks the start,
/// `>` the end.
pub open spec fn relation_kind(association: Seq<char>) -> ConnectorKind {
    if association.contains('<') && association.contains('>') {
        ConnectorKind::Bidirectional
    } else if association.contains('<') {
        ConnectorKind::Reverse
    } else if association.contains('>') {
        ConnectorKind::Directed
    } else {
        ConnectorKind::Undirected
    }
}

/// The label of a relation from its two end labels.
pub open spec fn relation_label(start: Option<Seq<char>>, end: Option<Seq<char>>) -> Option<Seq<char>> {
    match (start, end) {
        (Some(s), Some(e)) => Some(s + " · "@ + e),
        (Some(s), None) => Some(s),
        (None, Some(e)) => Some(e),
        (None, None) => None,
    }
}

/// The connector for a relation between the cards `from` and `to`.
pub open spec fn relation_connector_spec(r: NomnomlRelation, from: Seq<char>, to: Seq<char>) -> ConnectorModel {
    ConnectorModel {
        from: from,
        to: to,
        label: relation_label(opt_view(r.start_label), opt_view(r.end_label)),
        kind: relation_kind(r.association@),
        dashed: has_substring(r.association@, "--"@) || has_substring(r.association@, "__"@),
    }
}

/// The cards and connectors after reading `stmts` from `st`.
pub open spec fn render_spec(stmts: Seq<NomnomlStatement>, st: BuildState) -> BuildState
    decreases stmts.len(),
{
    if stmts.len() == 0 {
        st
    } else {
        let s1 = render_spec(stmts.drop_last(), st);
        match stmts.last() {
            NomnomlStatement::Classifier(c) => BuildState {
                cards: push_card_spec(s1.cards, classifier_card_spec(c, s1.cards.len())),
                ..s1
            },
            NomnomlStatement::Relation(r) => {
                let start = classifier_id_spec(r.start, "start"@);
                let end = classifier_id_spec(r.end, "end"@);
                let c1 = push_card_spec(s1.cards, classifier_card_spec(r.start, s1.cards.len()));
                let c2 = push_card_spec(c1, classifier_card_spec(r.end, c1.len()));
                BuildState {
                    cards: c2,
                    connectors: s1.connectors.push(relation_connector_spec(r, start, end)),
                    ..s1
                }
            },
        }
    }
}

fn attribute_of(attrs: &Vec<NomnomlAttribute>, name: &str) -> (out: Option<String>)
    ensures
        opt_view(out) == attribute(attrs@, name@),
{
    let n = attrs.len();
    for i in 0..n
        invariant
            n == attrs.len(),
            attribute(attrs@.take(i as int), name@) is None,
    {
        assert(attrs@.take(i + 1).drop_last() =~= attrs@.take(i as int));
        if str_eq(attrs[i].name.as_str(), name) {
            proof {
                lemma_attribute_extends(attrs@, name@, i + 1);
            }
            return Some(owned(attrs[i].value.as_str()));
        }
    }
    assert(attrs@.take(n as int) =~= attrs@);
    None
}

proof fn lemma_attribute_extends(attrs: Seq<NomnomlAttribute>, name: Seq<char>, k: int)
    requires
        0 <= k <= attrs.len(),
        attribute(attrs.take(k), name) is Some,
    ensures
        attribute(attrs, name) == attribute(attrs.take(k), name),
    decreases attrs.len() - k,
{
    if k < attrs.len() {
        assert(attrs.take(k + 1).drop_last() =~= attrs.take(k));
        lemma_attribute_extends(attrs, name, k + 1);
    } else {
        assert(attrs.take(k) =~= attrs);
    }
}

fn first_line_of(c: &NomnomlClassifier) -> (out: Option<String>)
    ensures
        opt_view(out) == first_line(*c),
{
    if c.compartments.len() > 0 && c.compartments[0].lines.len() > 0 {
        Some(owned(c.compartments[0].lines[0].as_str()))
    } else {
        None
    }
}

/// A classifier's card id; see [`classifier_id_spec`].
pub fn classifier_id(c: &NomnomlClassifier, fallback: &str) -> (out: String)
    ensures
        out@ == classifier_id_spec(*c, fallback@),
{
    match attribute_of(&c.attributes, "id") {
        Some(v) => v,
        None => match first_line_of(c) {
            Some(l) => l,
            None => owned(fallback),
        },
    }
}

/// The card for a classifier; see [`classifier_card_spec`].
pub fn classifier_card(c: &NomnomlClassifier, color_slot: usize) -> (card: Card)
    ensures
        card@ == classifier_card_spec(*c, color_slot as nat),
{
    let id = classifier_id(c, "classifier");
    let title = match first_line_of(c) {
        Some(l) => l,
        None => owned(id.as_str()),
    };
    let mut lines: Vec<String> = Vec::new();
    let m = c.compartments.len();
    for ci in 0..m
        invariant
            m == c.compartments.len(),
            strings_view(lines@) == compartment_lines(c.compartments@.take(ci as int), title@),
    {
        let ghost before = strings_view(lines@);
        let ls = &c.compartments[ci].lines;
        let k = ls.len();
        for li in 0..k
            invariant
                k == ls.len(),
                strings_view(lines@) == before + (if ci == 0 {
                    lines_without(ls@.take(li as int), title@)
                } else {
                    ls@.take(li as int).map_values(|l: String| l@)
                }),
        {
            let ghost mid = strings_view(lines@);
            assert(ls@.take(li + 1).drop_last() =~= ls@.take(li as int));
            if ci != 0 || !str_eq(ls[li].as_str(), title.as_str()) {
                lines.push(owned(ls[li].as_str()));
                assert(strings_view(lines@) =~= mid.push(ls@[li as int]@));
            }
            assert(ls@.take(li + 1).map_values(|l: String| l@) =~= ls@.take(li as int).map_values(
                |l: String| l@,
            ).push(ls@[li as int]@));
        }
        assert(ls@.take(k as int) =~= ls@);
        assert(c.compartments@.take(ci + 1).drop_last() =~= c.compartments@.take(ci as int));
        assert(c.compartments@.take(ci + 1).last() == c.compartments@[ci as int]);
    }
    assert(c.compartments@.take(m as int) =~= c.compartments@);
    let ghost comp = strings_view(lines@);
    let a = c.attributes.len();
    for ai in 0..a
        invariant
            a == c.attributes.len(),
            strings_view(lines@) == comp + attribute_lines(c.attributes@.take(ai as int)),
    {
        let ghost mid = strings_view(lines@);
        assert(c.attributes@.take(ai + 1).drop_last() =~= c.attributes@.take(ai as int));
        let attr = &c.attributes[ai];
        if !str_eq(attr.name.as_str(), "id") {
            let line = concat3(attr.name.as_str(), ": ", attr.value.as_str());
            let ghost lv = line@;
            lines.push(line);
            assert(strings_view(lines@) =~= mid.push(lv));
        }
    }
    assert(c.attributes@.take(a as int) =~= c.attributes@);
    let kind = match &c.classifier_type {
        Some(t) => owned(t.as_str()),
        None => owned("CLASS"),
    };
    Card::new(id, title, kind, lines, color_slot)
}

/// The connector for a relation between the cards `from` and `to`.
pub fn relation_connector(r: &NomnomlRelation, from: String, to: String) -> (c: Connector)
    ensures
        c@ == relation_connector_spec(*r, from@, to@),
{
    let label = match (&r.start_label, &r.end_label) {
        (Some(s), Some(e)) => Some(concat3(s.as_str(), " · ", e.as_str())),
        (Some(s), None) => Some(owned(s.as_str())),
        (None, Some(e)) => Some(owned(e.as_str())),
        (None, None) => None,
    };
    let assoc = r.association.as_str();
    let back = contains_char(assoc, '<');
    let forward = contains_char(assoc, '>');
    let kind = if back && forward {
        ConnectorKind::Bidirectional
    } else if back {
        ConnectorKind::Reverse
    } else if forward {
        ConnectorKind::Directed
    } else {
        ConnectorKind::Undirected
    };
    let dashed = contains_str(assoc, "--") || contains_str(assoc, "__");
    Connector { from, to, label, kind, dashed }
}

/// Reads a nomnoml document into a card diagram titled
/// "nomnoml classifier diagram"; see [`render_spec`].
pub fn build(document: &NomnomlDocument) -> (out: CardBuild)
    ensures
        build_state(out.diagram, out.warnings@) == render_spec(
            document.statements@,
            initial_state("nomnoml classifier diagram"@),
        ),
{
    let mut b = start_build("nomnoml classifier diagram");
    let ghost st0 = build_state(b.diagram, b.warnings@);
    let stmts = &document.statements;
    let n = stmts.len();
    for i in 0..n
        invariant
            n == stmts.len(),
            st0 == initial_state("nomnoml classifier diagram"@),
            build_state(b.diagram, b.warnings@) == render_spec(stmts@.take(i as int), st0),
    {
        assert(stmts@.take(i + 1).drop_last() =~= stmts@.take(i as int));
        assert(stmts@.take(i + 1).last() == stmts@[i as int]);
        match &stmts[i] {
            NomnomlStatement::Classifier(c) => {
                let slot = b.diagram.cards.len();
                b.diagram.push_card(classifier_card(c, slot));
            },
            NomnomlStatement::Relation(r) => {
                let start = classifier_id(&r.start, "start");
                let end = classifier_id(&r.end, "end");
                let slot = b.diagram.cards.len();
                b.diagram.push_card(classifier_card(&r.start, slot));
                let slot = b.diagram.cards.len();
                b.diagram.push_card(classifier_card(&r.end, slot));
                push_connector(&mut b.diagram, relation_connector(r, start, end));
            },
        }
    }
    assert(stmts@.take(n as int) =~= stmts@);
    b
}

/// A classifier whose card id does not depend on the fallback: it has an
/// `id` attribute or a name.
pub open spec fn is_named(c: NomnomlClassifier) -> bool {
    attribute(c.attributes@, "id"@) is Some || first_line(c) is Some
}

/// Law: reading nomnoml statements keeps card ids unique, never loses a
/// card id, and every relation between named classifiers joins two cards.
pub proof fn lemma_render_keeps_ids_and_joins_cards(stmts: Seq<NomnomlStatement>, st: BuildState)
    requires
        ids_unique(st.cards),
    ensures
        ids_unique(render_spec(stmts, st).cards),
        forall|id: Seq<char>| has_id(st.cards, id) ==> #[trigger] has_id(render_spec(stmts, st).cards, id),
        render_spec(stmts, st).connectors.len() == st.connectors.len() + relation_count(stmts),
        forall|k: int|
            0 <= k < stmts.len() ==> match #[trigger] stmts[k] {
                NomnomlStatement::Relation(r) => is_named(r.start) && is_named(r.end) ==> {
                    &&& has_id(render_spec(stmts, st).cards, classifier_id_spec(r.start, "start"@))
                    &&& has_id(render_spec(stmts, st).cards, classifier_id_spec(r.end, "end"@))
                },
                _ => true,
            },
    decreases stmts.len(),
{
    if stmts.len() > 0 {
        let init = stmts.drop_last();
        lemma_render_keeps_ids_and_joins_cards(init, st);
        let s1 = render_spec(init, st);
        let s2 = render_spec(stmts, st);
        match stmts.last() {
            NomnomlStatement::Classifier(c) => {
                let card = classifier_card_spec(c, s1.cards.len());
                lemma_push_card_keeps_ids_unique(s1.cards, card);
                lemma_push_card_keeps_ids(s1.cards, card);
            },
            NomnomlStatement::Relation(r) => {
                let c1 = push_card_spec(s1.cards, classifier_card_spec(r.start, s1.cards.len()));
                lemma_push_card_keeps_ids_unique(s1.cards, classifier_card_spec(r.start, s1.cards.len()));
                lemma_push_card_keeps_ids(s1.cards, classifier_card_spec(r.start, s1.cards.len()));
                lemma_push_card_keeps_ids_unique(c1, classifier_card_spec(r.end, c1.len()));
                lemma_push_card_keeps_ids(c1, classifier_card_spec(r.end, c1.len()));
            },
        }
        assert forall|id: Seq<char>| has_id(st.cards, id) implies #[trigger] has_id(s2.cards, id) by {
            assert(has_id(s1.cards, id));
        }
        assert forall|k: int| 0 <= k < stmts.len() implies match #[trigger] stmts[k] {
            NomnomlStatement::Relation(r) => is_named(r.start) && is_named(r.end) ==> {
                &&& has_id(s2.cards, classifier_id_spec(r.start, "start"@))
                &&& has_id(s2.cards, classifier_id_spec(r.end, "end"@))
            },
            _ => true,
        } by {
            if k < stmts.len() - 1 {
                assert(init[k] == stmts[k]);
                match stmts[k] {
                    NomnomlStatement::Relation(r) => {
                        if is_named(r.start) && is_named(r.end) {
                            assert(has_id(s1.cards, classifier_id_spec(r.start, "start"@)));
                            assert(has_id(s1.cards, classifier_id_spec(r.end, "end"@)));
                        }
                    },
                    _ => {},
                }
            }
        }
    }
}

/// Number of relation statements.
pub open spec fn relation_count(stmts: Seq<NomnomlStatement>) -> int
    decreases stmts.len(),
{
    if stmts.len() == 0 {
        0
    } else {
        relation_count(stmts.drop_last()) + match stmts.last() {
            NomnomlStatement::Relation(_) => 1int,
            _ => 0int,
        }
    }
}

/// Law: a relation's connector joins the given cards, draws an arrowhead at
/// its end classifier exactly when the association holds `>` and at its start
/// classifier exactly when it holds `<`, and is dashed exactly when the
/// association holds `--` or `__`.
pub proof fn lemma_relation_direction(r: NomnomlRelation, from: Seq<char>, to: Seq<char>)
    ensures
        relation_connector_spec(r, from, to).from == from,
        relation_connector_spec(r, from, to).to == to,
        arrowhead_ends_spec(relation_connector_spec(r, from, to).kind) == (
            r.association@.contains('>'),
            r.association@.contains('<'),
        ),
        r.association@.contains('>') && !r.association@.contains('<') ==> relation_connector_spec(r, from, to).kind
            == ConnectorKind::Directed,
        r.association@.contains('<') && !r.association@.contains('>') ==> relation_connector_spec(r, from, to).kind
            == ConnectorKind::Reverse,
        relation_connector_spec(r, from, to).dashed == (has_substring(r.association@, "--"@) || has_substring(
            r.association@,
            "__"@,
        )),
{
}

} // verus!
