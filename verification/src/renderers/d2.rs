//! D2: entries and maps become cards, edge chains become connectors.

use vstd::prelude::*;

use crate::renderers::cards::{
    add_card_line, ensure_connector_endpoints, lemma_position_of, add_line_spec, has_id, ids_unique,
    lemma_add_line_keeps_ids, lemma_connector_endpoints_resolve, lemma_push_card_keeps_ids_unique, cards_view, connectors_view, endpoint_ids, ensure_all_spec,
    push_card_spec, strings_view, Card, CardDiagram, CardModel, Connector, ConnectorKind,
    ConnectorModel, CardBuild,
};
use crate::text::{
    ascii_lower, clone_option, opt_str_view, opt_view, concat2, concat3, contains_char, eq_ignore_ascii_case, has_prefix, owned,
    starts_with, str_eq,
};

verus! {

/// Arrow operator between two endpoints of a D2 edge chain.
#[derive(Clone, Copy, Debug, PartialEq, Eq, Structural)]
pub enum D2EdgeOperator {
    Directed,
    ReverseDirected,
    Undirected,
    Bidirectional,
}

/// The value side of a D2 entry.
pub enum D2Value {
    Block { label: Option<String>, statements: Vec<D2Statement> },
    Scalar(String),
}

/// `key` or `key: value` or `key: label { ... }`.
pub struct D2Entry {
    pub key: String,
    pub value: Option<D2Value>,
}

/// `a -> b <- c: label`.
pub struct D2EdgeChain {
    pub endpoints: Vec<String>,
    pub operators: Vec<D2EdgeOperator>,
    pub label: Option<String>,
}

/// `...@path` import.
pub struct D2Import {
    pub path: String,
}

/// One D2 statement.
pub enum D2Statement {
    Entry(D2Entry),
    EdgeChain(D2EdgeChain),
    Import(D2Import),
}

/// A parsed D2 document.
pub struct D2Document {
    pub statements: Vec<D2Statement>,
}

/// A card id qualified by its container: `prefix.key`, unless there is no
/// container or the key is already a dotted path.
pub open spec fn qualify_spec(prefix: Seq<char>, key: Seq<char>) -> Seq<char> {
    if prefix.len() == 0 || key.contains('.') {
        key
    } else {
        prefix + "."@ + key
    }
}

/// Qualifies `key` by the container `prefix`; see [`qualify_spec`].
pub fn qualify(prefix: &str, key: &str) -> (out: String)
    ensures
        out@ == qualify_spec(prefix@, key@),
{
    if prefix.is_empty() || contains_char(key, '.') {
        owned(key)
    } else {
        concat3(prefix, ".", key)
    }
}

/// An edge endpoint named inside a container: dotted paths and top-level
/// endpoints are kept, other names are qualified by the container.
pub open spec fn resolve_edge_endpoint_spec(prefix: Seq<char>, endpoint: Seq<char>) -> Seq<char> {
    if endpoint.contains('.') || prefix.len() == 0 {
        endpoint
    } else {
        qualify_spec(prefix, endpoint)
    }
}

/// Resolves an edge endpoint; see [`resolve_edge_endpoint_spec`].
pub fn resolve_edge_endpoint(prefix: &str, endpoint: &str) -> (out: String)
    ensures
        out@ == resolve_edge_endpoint_spec(prefix@, endpoint@),
{
    if contains_char(endpoint, '.') || prefix.is_empty() {
        owned(endpoint)
    } else {
        qualify(prefix, endpoint)
    }
}

/// Keys that set a property of their container rather than declare a node.
pub open spec fn is_property_spec(key: Seq<char>) -> bool {
    ||| key == "label"@
    ||| key == "shape"@
    ||| key == "icon"@
    ||| key == "tooltip"@
    ||| key == "link"@
    ||| key == "class"@
    ||| key == "width"@
    ||| key == "height"@
    ||| key == "near"@
    ||| has_prefix(key, "style."@)
}

/// Whether `key` is a D2 property key; see [`is_property_spec`].
pub fn is_property(key: &str) -> (r: bool)
    ensures
        r == is_property_spec(key@),
{
    str_eq(key, "label") || str_eq(key, "shape") || str_eq(key, "icon") || str_eq(key, "tooltip")
        || str_eq(key, "link") || str_eq(key, "class") || str_eq(key, "width") || str_eq(key, "height")
        || str_eq(key, "near") || starts_with(key, "style.")
}

/// The scalar value of the first entry named `name` that has a scalar value.
pub open spec fn scalar_property_spec(stmts: Seq<D2Statement>, name: Seq<char>) -> Option<Seq<char>>
    decreases stmts.len(),
{
    if stmts.len() == 0 {
        None
    } else {
        match scalar_property_spec(stmts.drop_last(), name) {
            Some(v) => Some(v),
            None => match stmts.last() {
                D2Statement::Entry(e) => if e.key@ == name {
                    match e.value {
                        Some(D2Value::Scalar(v)) => Some(v@),
                        _ => None,
                    }
                } else {
                    None
                },
                _ => None,
            },
        }
    }
}

/// Looks up a scalar property among a container's statements; see [`scalar_property_spec`].
pub fn scalar_property(stmts: &Vec<D2Statement>, name: &str) -> (out: Option<String>)
    ensures
        match out {
            Some(v) => scalar_property_spec(stmts@, name@) == Some(v@),
            None => scalar_property_spec(stmts@, name@) is None,
        },
{
    let n = stmts.len();
    for i in 0..n
        invariant
            n == stmts.len(),
            scalar_property_spec(stmts@.take(i as int), name@) is None,
    {
        assert(stmts@.take(i + 1).drop_last() =~= stmts@.take(i as int));
        assert(stmts@.take(i + 1).last() == stmts@[i as int]);
        match &stmts[i] {
            D2Statement::Entry(e) => {
                if str_eq(e.key.as_str(), name) {
                    match &e.value {
                        Some(D2Value::Scalar(v)) => {
                            proof {
                                lemma_scalar_property_extends(stmts@, name@, i + 1);
                            }
                            return Some(owned(v.as_str()));
                        },
                        _ => {},
                    }
                }
            },
            _ => {},
        }
    }
    assert(stmts@.take(n as int) =~= stmts@);
    None
}

proof fn lemma_scalar_property_extends(stmts: Seq<D2Statement>, name: Seq<char>, k: int)
    requires
        0 <= k <= stmts.len(),
        scalar_property_spec(stmts.take(k), name) is Some,
    ensures
        scalar_property_spec(stmts, name) == scalar_property_spec(stmts.take(k), name),
    decreases stmts.len() - k,
{
    if k < stmts.len() {
        assert(stmts.take(k + 1).drop_last() =~= stmts.take(k));
        lemma_scalar_property_extends(stmts, name, k + 1);
    } else {
        assert(stmts.take(k) =~= stmts);
    }
}

/// Cards, connectors and warnings gathered while walking a D2 document.
pub struct D2State {
    pub cards: Seq<CardModel>,
    pub connectors: Seq<ConnectorModel>,
    pub warnings: Seq<Seq<char>>,
}

/// The connector kind a D2 edge operator draws.
pub open spec fn connector_kind_of(op: D2EdgeOperator) -> ConnectorKind {
    match op {
        D2EdgeOperator::Directed => ConnectorKind::Directed,
        D2EdgeOperator::ReverseDirected => ConnectorKind::Reverse,
        D2EdgeOperator::Undirected => ConnectorKind::Undirected,
        D2EdgeOperator::Bidirectional => ConnectorKind::Bidirectional,
    }
}

/// Connectors for the first `k` operators of an edge chain: operator `i`
/// joins endpoints `i` and `i + 1` when both exist.
pub open spec fn chain_connectors(
    endpoints: Seq<String>,
    ops: Seq<D2EdgeOperator>,
    label: Option<Seq<char>>,
    prefix: Seq<char>,
    k: int,
) -> Seq<ConnectorModel>
    decreases k,
{
    if k <= 0 {
        Seq::empty()
    } else {
        let rest = chain_connectors(endpoints, ops, label, prefix, k - 1);
        let i = k - 1;
        if i + 1 < endpoints.len() {
            rest.push(ConnectorModel {
                from: resolve_edge_endpoint_spec(prefix, endpoints[i]@),
                to: resolve_edge_endpoint_spec(prefix, endpoints[i + 1]@),
                label: label,
                kind: connector_kind_of(ops[i]),
                dashed: false,
            })
        } else {
            rest
        }
    }
}

/// The body lines of a container card nested in `owner`.
pub open spec fn owner_lines(owner: Option<Seq<char>>) -> Seq<Seq<char>> {
    match owner {
        Some(o) => seq!["inside "@ + o],
        None => Seq::empty(),
    }
}

/// The effect of walking `stmts` inside container `prefix` (owned by `owner`)
/// from state `st`: maps become container cards and are walked in turn,
/// property entries add lines to their owner, other entries become node
/// cards, edge chains become connectors and imports become warnings.
pub open spec fn walk_spec(stmts: Seq<D2Statement>, prefix: Seq<char>, owner: Option<Seq<char>>, st: D2State) -> D2State
    decreases stmts,
{
    if stmts.len() == 0 {
        st
    } else {
        let s1 = walk_spec(stmts.drop_last(), prefix, owner, st);
        match stmts.last() {
            D2Statement::Entry(entry) => {
                let key = entry.key@;
                match entry.value {
                    Some(D2Value::Block { label, statements }) => {
                        let id = qualify_spec(prefix, key);
                        let title = match label {
                            Some(l) => l@,
                            None => match scalar_property_spec(statements@, "label"@) {
                                Some(v) => v,
                                None => key,
                            },
                        };
                        let kind = match scalar_property_spec(statements@, "shape"@) {
                            Some(shape) => "D2 "@ + shape,
                            None => "D2 CONTAINER"@,
                        };
                        let card = CardModel {
                            id: id,
                            title: title,
                            kind: kind,
                            lines: owner_lines(owner),
                            color_slot: s1.cards.len(),
                        };
                        let s2 = D2State { cards: push_card_spec(s1.cards, card), ..s1 };
                        walk_spec(statements@, id, Some(id), s2)
                    },
                    Some(D2Value::Scalar(value)) => {
                        let v = value@;
                        if is_property_spec(key) && owner is Some {
                            if key != "label"@ {
                                D2State {
                                    cards: add_line_spec(s1.cards, owner->0, key + ": "@ + v),
                                    ..s1
                                }
                            } else {
                                s1
                            }
                        } else if key.map_values(|c: char| ascii_lower(c)) == "direction"@.map_values(
                            |c: char| ascii_lower(c),
                        ) {
                            s1
                        } else {
                            let card = CardModel {
                                id: qualify_spec(prefix, key),
                                title: if v.len() == 0 { key } else { v },
                                kind: "D2 NODE"@,
                                lines: if v == key { Seq::empty() } else { seq!["label: "@ + v] },
                                color_slot: s1.cards.len(),
                            };
                            D2State { cards: push_card_spec(s1.cards, card), ..s1 }
                        }
                    },
                    None => {
                        let card = CardModel {
                            id: qualify_spec(prefix, key),
                            title: key,
                            kind: "D2 NODE"@,
                            lines: Seq::empty(),
                            color_slot: s1.cards.len(),
                        };
                        D2State { cards: push_card_spec(s1.cards, card), ..s1 }
                    },
                }
            },
            D2Statement::EdgeChain(edge) => D2State {
                connectors: s1.connectors + chain_connectors(
                    edge.endpoints@,
                    edge.operators@,
                    opt_view(edge.label),
                    prefix,
                    edge.operators@.len() as int,
                ),
                ..s1
            },
            D2Statement::Import(import) => D2State {
                warnings: s1.warnings.push(
                    "D2 import `"@ + import.path@ + "` is shown neither loaded nor expanded"@,
                ),
                ..s1
            },
        }
    }
}

/// The walk state held by a diagram and a warning list.
pub open spec fn state_of(diagram: CardDiagram, warnings: Seq<String>) -> D2State {
    D2State {
        cards: cards_view(diagram.cards@),
        connectors: connectors_view(diagram.connectors@),
        warnings: strings_view(warnings),
    }
}

fn push_chain(edge: &D2EdgeChain, prefix: &str, diagram: &mut CardDiagram)
    ensures
        final(diagram).title == old(diagram).title,
        final(diagram).cards == old(diagram).cards,
        connectors_view(final(diagram).connectors@) == connectors_view(old(diagram).connectors@)
            + chain_connectors(
            edge.endpoints@,
            edge.operators@,
            opt_view(edge.label),
            prefix@,
            edge.operators@.len() as int,
        ),
{
    let ghost start = connectors_view(diagram.connectors@);
    let n = edge.operators.len();
    for index in 0..n
        invariant
            n == edge.operators.len(),
            diagram.title == old(diagram).title,
            diagram.cards == old(diagram).cards,
            start == connectors_view(old(diagram).connectors@),
            connectors_view(diagram.connectors@) == start + chain_connectors(
                edge.endpoints@,
                edge.operators@,
                opt_view(edge.label),
                prefix@,
                index as int,
            ),
    {
        if index < edge.endpoints.len() && index + 1 < edge.endpoints.len() {
            let from = resolve_edge_endpoint(prefix, edge.endpoints[index].as_str());
            let to = resolve_edge_endpoint(prefix, edge.endpoints[index + 1].as_str());
            let kind = match edge.operators[index] {
                D2EdgeOperator::Directed => ConnectorKind::Directed,
                D2EdgeOperator::ReverseDirected => ConnectorKind::Reverse,
                D2EdgeOperator::Undirected => ConnectorKind::Undirected,
                D2EdgeOperator::Bidirectional => ConnectorKind::Bidirectional,
            };
            let connector = Connector { from, to, label: clone_option(&edge.label), kind, dashed: false };
            let ghost before = connectors_view(diagram.connectors@);
            let ghost c = connector@;
            diagram.connectors.push(connector);
            assert(connectors_view(diagram.connectors@) =~= before.push(c));
        }
    }
}

/// Walks D2 statements inside container `prefix`; see [`walk_spec`].
pub fn walk(
    stmts: &Vec<D2Statement>,
    prefix: &str,
    owner: Option<&str>,
    diagram: &mut CardDiagram,
    warnings: &mut Vec<String>,
)
    ensures
        final(diagram).title == old(diagram).title,
        state_of(*final(diagram), final(warnings)@) == walk_spec(
            stmts@,
            prefix@,
            opt_str_view(owner),
            state_of(*old(diagram), old(warnings)@),
        ),
    decreases stmts@,
{
    let ghost st0 = state_of(*diagram, warnings@);
    let n = stmts.len();
    for i in 0..n
        invariant
            n == stmts.len(),
            diagram.title == old(diagram).title,
            st0 == state_of(*old(diagram), old(warnings)@),
            state_of(*diagram, warnings@) == walk_spec(stmts@.take(i as int), prefix@, opt_str_view(owner), st0),
    {
        let ghost s1 = state_of(*diagram, warnings@);
        assert(stmts@.take(i + 1).drop_last() =~= stmts@.take(i as int));
        assert(stmts@.take(i + 1).last() == stmts@[i as int]);
        match &stmts[i] {
            D2Statement::Entry(entry) => {
                let key = entry.key.as_str();
                match &entry.value {
                    Some(D2Value::Block { label, statements }) => {
                        let id = qualify(prefix, key);
                        let mut lines: Vec<String> = Vec::new();
                        match owner {
                            Some(o) => {
                                lines.push(concat2("inside ", o));
                            },
                            None => {},
                        }
                        assert(strings_view(lines@) =~= owner_lines(opt_str_view(owner)));
                        let title = match label {
                            Some(l) => owned(l.as_str()),
                            None => match scalar_property(statements, "label") {
                                Some(v) => v,
                                None => owned(key),
                            },
                        };
                        let kind = match scalar_property(statements, "shape") {
                            Some(shape) => concat2("D2 ", shape.as_str()),
                            None => owned("D2 CONTAINER"),
                        };
                        let slot = diagram.cards.len();
                        diagram.push_card(Card::new(owned(id.as_str()), title, kind, lines, slot));
                        walk(statements, id.as_str(), Some(id.as_str()), diagram, warnings);
                    },
                    Some(D2Value::Scalar(value)) => {
                        let v = value.as_str();
                        if is_property(key) && owner.is_some() {
                            if !str_eq(key, "label") {
                                let o = owner.unwrap();
                                add_card_line(diagram, o, concat3(key, ": ", v));
                            }
                        } else if eq_ignore_ascii_case(key, "direction") {
                        } else {
                            let mut lines: Vec<String> = Vec::new();
                            if !str_eq(v, key) {
                                lines.push(concat2("label: ", v));
                            }
                            assert(strings_view(lines@) =~= (if v@ == key@ {
                                Seq::<Seq<char>>::empty()
                            } else {
                                seq!["label: "@ + v@]
                            }));
                            let title = if v.is_empty() { owned(key) } else { owned(v) };
                            let slot = diagram.cards.len();
                            diagram.push_card(Card::new(qualify(prefix, key), title, owned("D2 NODE"), lines, slot));
                        }
                    },
                    None => {
                        let slot = diagram.cards.len();
                        let lines: Vec<String> = Vec::new();
                        assert(strings_view(lines@) =~= Seq::<Seq<char>>::empty());
                        diagram.push_card(Card::new(qualify(prefix, key), owned(key), owned("D2 NODE"), lines, slot));
                    },
                }
            },
            D2Statement::EdgeChain(edge) => {
                push_chain(edge, prefix, diagram);
            },
            D2Statement::Import(import) => {
                let ghost before = strings_view(warnings@);
                let w = concat3("D2 import `", import.path.as_str(), "` is shown neither loaded nor expanded");
                let ghost wv = w@;
                warnings.push(w);
                assert(strings_view(warnings@) =~= before.push(wv));
            },
        }
    }
    assert(stmts@.take(n as int) =~= stmts@);
}

/// Walks a D2 document into a card diagram titled "D2 diagram" and adds a
/// reference card for every connector endpoint that names no card.
pub fn build(document: &D2Document) -> (out: CardBuild)
    ensures
        out.diagram.title@ == "D2 diagram"@,
        ({
            let walked = walk_spec(
                document.statements@,
                Seq::empty(),
                None,
                D2State { cards: Seq::empty(), connectors: Seq::empty(), warnings: Seq::empty() },
            );
            &&& connectors_view(out.diagram.connectors@) == walked.connectors
            &&& strings_view(out.warnings@) == walked.warnings
            &&& cards_view(out.diagram.cards@) == ensure_all_spec(walked.cards, endpoint_ids(walked.connectors))
        }),
{
    let mut diagram = CardDiagram::new(owned("D2 diagram"));
    let mut warnings: Vec<String> = Vec::new();
    proof {
        assert(state_of(diagram, warnings@) =~= D2State {
            cards: Seq::empty(),
            connectors: Seq::empty(),
            warnings: Seq::empty(),
        }) by {
            assert(cards_view(diagram.cards@) =~= Seq::empty());
            assert(connectors_view(diagram.connectors@) =~= Seq::empty());
            assert(strings_view(warnings@) =~= Seq::empty());
        }
    }
    proof {
        reveal_strlit("");
        assert(""@ =~= Seq::<char>::empty());
    }
    walk(&document.statements, "", None, &mut diagram, &mut warnings);
    ensure_connector_endpoints(&mut diagram);
    CardBuild { diagram, warnings }
}

/// Law: walking D2 statements keeps the card ids unique.
pub proof fn lemma_walk_keeps_ids_unique(
    stmts: Seq<D2Statement>,
    prefix: Seq<char>,
    owner: Option<Seq<char>>,
    st: D2State,
)
    requires
        ids_unique(st.cards),
    ensures
        ids_unique(walk_spec(stmts, prefix, owner, st).cards),
    decreases stmts,
{
    if stmts.len() > 0 {
        lemma_walk_keeps_ids_unique(stmts.drop_last(), prefix, owner, st);
        let s1 = walk_spec(stmts.drop_last(), prefix, owner, st);
        match stmts.last() {
            D2Statement::Entry(entry) => {
                let key = entry.key@;
                match entry.value {
                    Some(D2Value::Block { label, statements }) => {
                        let id = qualify_spec(prefix, key);
                        let title = match label {
                            Some(l) => l@,
                            None => match scalar_property_spec(statements@, "label"@) {
                                Some(v) => v,
                                None => key,
                            },
                        };
                        let kind = match scalar_property_spec(statements@, "shape"@) {
                            Some(shape) => "D2 "@ + shape,
                            None => "D2 CONTAINER"@,
                        };
                        let card = CardModel {
                            id: id,
                            title: title,
                            kind: kind,
                            lines: owner_lines(owner),
                            color_slot: s1.cards.len(),
                        };
                        lemma_push_card_keeps_ids_unique(s1.cards, card);
                        let s2 = D2State { cards: push_card_spec(s1.cards, card), ..s1 };
                        lemma_walk_keeps_ids_unique(statements@, id, Some(id), s2);
                    },
                    Some(D2Value::Scalar(value)) => {
                        let v = value@;
                        if is_property_spec(key) && owner is Some {
                            lemma_add_line_keeps_ids(s1.cards, owner->0, key + ": "@ + v);
                        } else {
                            let card = CardModel {
                                id: qualify_spec(prefix, key),
                                title: if v.len() == 0 { key } else { v },
                                kind: "D2 NODE"@,
                                lines: if v == key { Seq::empty() } else { seq!["label: "@ + v] },
                                color_slot: s1.cards.len(),
                            };
                            lemma_push_card_keeps_ids_unique(s1.cards, card);
                        }
                    },
                    None => {
                        let card = CardModel {
                            id: qualify_spec(prefix, key),
                            title: key,
                            kind: "D2 NODE"@,
                            lines: Seq::empty(),
                            color_slot: s1.cards.len(),
                        };
                        lemma_push_card_keeps_ids_unique(s1.cards, card);
                    },
                }
            },
            _ => {},
        }
    }
}

/// Law: in a built D2 diagram card ids are unique and every connector's
/// source and target name a card, so every connector can be drawn.
pub proof fn lemma_build_is_connected(document: D2Document)
    ensures
        ({
            let walked = walk_spec(
                document.statements@,
                Seq::empty(),
                None,
                D2State { cards: Seq::empty(), connectors: Seq::empty(), warnings: Seq::empty() },
            );
            let cards = ensure_all_spec(walked.cards, endpoint_ids(walked.connectors));
            &&& ids_unique(cards)
            &&& forall|k: int|
                0 <= k < walked.connectors.len() ==> has_id(cards, (#[trigger] walked.connectors[k]).from)
                    && has_id(cards, walked.connectors[k].to)
        }),
{
    let st = D2State { cards: Seq::empty(), connectors: Seq::empty(), warnings: Seq::empty() };
    lemma_walk_keeps_ids_unique(document.statements@, Seq::empty(), None, st);
    let walked = walk_spec(document.statements@, Seq::empty(), None, st);
    lemma_connector_endpoints_resolve(walked.cards, walked.connectors);
}

/// No entry key, at any depth of nesting, contains a `.`: every name is a
/// plain name qualified by its container.
pub open spec fn keys_dotless(stmts: Seq<D2Statement>) -> bool
    decreases stmts,
{
    if stmts.len() == 0 {
        true
    } else {
        keys_dotless(stmts.drop_last()) && match stmts.last() {
            D2Statement::Entry(e) => !e.key@.contains('.') && match e.value {
                Some(D2Value::Block { statements, .. }) => keys_dotless(statements@),
                _ => true,
            },
            _ => true,
        }
    }
}

proof fn lemma_push_card_elsewhere(cards: Seq<CardModel>, card: CardModel, p: int)
    requires
        0 <= p < cards.len(),
        cards[p].id != card.id,
    ensures
        push_card_spec(cards, card).len() >= cards.len(),
        push_card_spec(cards, card)[p] == cards[p],
{
    lemma_position_of(cards, card.id);
}

/// Walking the body of a container named `prefix` whose keys are all plain
/// never touches the id or title of a card whose id is no longer than `prefix`.
proof fn lemma_walk_keeps_short_titles(
    stmts: Seq<D2Statement>,
    prefix: Seq<char>,
    owner: Option<Seq<char>>,
    st: D2State,
    p: int,
)
    requires
        keys_dotless(stmts),
        prefix.len() > 0,
        0 <= p < st.cards.len(),
        st.cards[p].id.len() <= prefix.len(),
    ensures
        walk_spec(stmts, prefix, owner, st).cards.len() >= st.cards.len(),
        walk_spec(stmts, prefix, owner, st).cards[p].id == st.cards[p].id,
        walk_spec(stmts, prefix, owner, st).cards[p].title == st.cards[p].title,
    decreases stmts,
{
    if stmts.len() > 0 {
        lemma_walk_keeps_short_titles(stmts.drop_last(), prefix, owner, st, p);
        let s1 = walk_spec(stmts.drop_last(), prefix, owner, st);
        match stmts.last() {
            D2Statement::Entry(entry) => {
                let key = entry.key@;
                let id = qualify_spec(prefix, key);
                assert(id == prefix + "."@ + key);
                reveal_strlit(".");
                assert(id.len() > prefix.len());
                assert(s1.cards[p].id != id);
                match entry.value {
                    Some(D2Value::Block { label, statements }) => {
                        let title = match label {
                            Some(l) => l@,
                            None => match scalar_property_spec(statements@, "label"@) {
                                Some(v) => v,
                                None => key,
                            },
                        };
                        let kind = match scalar_property_spec(statements@, "shape"@) {
                            Some(shape) => "D2 "@ + shape,
                            None => "D2 CONTAINER"@,
                        };
                        let card = CardModel {
                            id: id,
                            title: title,
                            kind: kind,
                            lines: owner_lines(owner),
                            color_slot: s1.cards.len(),
                        };
                        lemma_push_card_elsewhere(s1.cards, card, p);
                        let s2 = D2State { cards: push_card_spec(s1.cards, card), ..s1 };
                        lemma_walk_keeps_short_titles(statements@, id, Some(id), s2, p);
                    },
                    Some(D2Value::Scalar(value)) => {
                        let v = value@;
                        if is_property_spec(key) && owner is Some {
                            lemma_position_of(s1.cards, owner->0);
                        } else {
                            let card = CardModel {
                                id: id,
                                title: if v.len() == 0 { key } else { v },
                                kind: "D2 NODE"@,
                                lines: if v == key { Seq::empty() } else { seq!["label: "@ + v] },
                                color_slot: s1.cards.len(),
                            };
                            lemma_push_card_elsewhere(s1.cards, card, p);
                        }
                    },
                    None => {
                        let card = CardModel {
                            id: id,
                            title: key,
                            kind: "D2 NODE"@,
                            lines: Seq::empty(),
                            color_slot: s1.cards.len(),
                        };
                        lemma_push_card_elsewhere(s1.cards, card, p);
                    },
                }
            },
            _ => {},
        }
    }
}

/// Law: a container entry whose map carries a label adds a card, with the
/// container's qualified id, whose title is exactly that label; the walk of
/// the container's body (plain names, as the law asks) keeps it so.
pub proof fn lemma_container_label_is_title(
    entry: D2Entry,
    prefix: Seq<char>,
    owner: Option<Seq<char>>,
    st: D2State,
)
    requires
        entry.key@.len() > 0,
        (entry.value matches Some(D2Value::Block { label: Some(_), statements }) && keys_dotless(statements@)),
        !has_id(st.cards, qualify_spec(prefix, entry.key@)),
    ensures
        ({
            let out = walk_spec(seq![D2Statement::Entry(entry)], prefix, owner, st);
            let c = out.cards[st.cards.len() as int];
            &&& out.cards.len() > st.cards.len()
            &&& c.id == qualify_spec(prefix, entry.key@)
            &&& c.title == entry.value->0->Block_label->0@
        }),
{
    let stmts = seq![D2Statement::Entry(entry)];
    assert(stmts.drop_last() =~= Seq::<D2Statement>::empty());
    assert(walk_spec(stmts.drop_last(), prefix, owner, st) == st);
    let key = entry.key@;
    let id = qualify_spec(prefix, key);
    assert(id.len() > 0);
    match entry.value {
        Some(D2Value::Block { label, statements }) => {
            let l = label->0;
            let kind = match scalar_property_spec(statements@, "shape"@) {
                Some(shape) => "D2 "@ + shape,
                None => "D2 CONTAINER"@,
            };
            let card = CardModel {
                id: id,
                title: l@,
                kind: kind,
                lines: owner_lines(owner),
                color_slot: st.cards.len(),
            };
            lemma_position_of(st.cards, id);
            let s2 = D2State { cards: st.cards.push(card), ..st };
            assert(push_card_spec(st.cards, card) == s2.cards);
            lemma_walk_keeps_short_titles(statements@, id, Some(id), s2, st.cards.len() as int);
        },
        _ => {},
    }
}

} // verus!
