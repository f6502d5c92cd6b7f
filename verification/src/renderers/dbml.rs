//! DBML: tables, partials, enums, groups and notes become cards; references
//! become connectors labelled with their columns and cardinality.

use vstd::prelude::*;

use crate::renderers::cards::{
    cards_view, connectors_view, ensure_endpoint_spec, has_id, ids_unique, lemma_ensure_endpoint,
    lemma_push_card_keeps_ids_unique, push_card_spec, push_connector,
    strings_view, Card, CardBuild, CardDiagram, CardModel, Connector, ConnectorKind,
    ConnectorModel, find_card, lemma_position_of,
};
use crate::text::{
    ascii_lower, concat2, concat3, decimal, decimal_string, eq_ignore_ascii_case, join, join_spec,
    opt_view, owned, str_eq,
};

verus! {

/// A column setting such as `pk` or `not null`.
pub struct DbmlSetting {
    pub name: String,
}

/// `name type [settings]`.
pub struct DbmlColumn {
    pub name: String,
    pub data_type: String,
    pub settings: Vec<DbmlSetting>,
}

/// One entry of a table body.
pub enum DbmlTableItem {
    Column(DbmlColumn),
    Indexes { count: usize },
    Check { expression: String },
    Checks { count: usize },
    Note(String),
    Partial(String),
}

/// `Table schema.name as alias { ... }`.
pub struct DbmlTable {
    pub schema: Option<String>,
    pub name: String,
    pub alias: Option<String>,
    pub items: Vec<DbmlTableItem>,
}

/// `TablePartial name { ... }`.
pub struct DbmlTablePartial {
    pub name: String,
    pub items: Vec<DbmlTableItem>,
}

/// `Enum schema.name { values }`.
pub struct DbmlEnum {
    pub schema: Option<String>,
    pub name: String,
    pub values: Vec<String>,
}

/// One side of a reference: `schema.table.(columns)`.
pub struct DbmlEndpoint {
    pub schema: Option<String>,
    pub table: String,
    pub columns: Vec<String>,
}

/// Relationship cardinality of a reference.
#[derive(Clone, Copy, Debug, PartialEq, Eq, Structural)]
pub enum DbmlCardinality {
    ManyToOne,
    OneToMany,
    OneToOne,
    ManyToMany,
}

/// `Ref name: from > to`.
pub struct DbmlRef {
    pub name: Option<String>,
    pub from: DbmlEndpoint,
    pub to: DbmlEndpoint,
    pub cardinality: DbmlCardinality,
}

/// `TableGroup name { tables }`.
pub struct DbmlTableGroup {
    pub name: String,
    pub tables: Vec<String>,
}

/// `Project name { ... }`.
pub struct DbmlProject {
    pub name: String,
}

/// One top-level DBML item.
pub enum DbmlItem {
    Project(DbmlProject),
    Table(DbmlTable),
    TablePartial(DbmlTablePartial),
    Enum(DbmlEnum),
    Ref(DbmlRef),
    TableGroup(DbmlTableGroup),
    Note(String),
}

/// A parsed DBML document.
pub struct DbmlDocument {
    pub items: Vec<DbmlItem>,
}

/// `schema.name`, or `name` without a schema.
pub open spec fn qualified_spec(schema: Option<Seq<char>>, name: Seq<char>) -> Seq<char> {
    match schema {
        Some(s) => s + "."@ + name,
        None => name,
    }
}

/// Qualifies a name by its schema; see [`qualified_spec`].
pub fn qualified(schema: &Option<String>, name: &str) -> (out: String)
    ensures
        out@ == qualified_spec(opt_view(*schema), name@),
{
    match schema {
        Some(s) => concat3(s.as_str(), ".", name),
        None => owned(name),
    }
}

/// The label text of a cardinality.
pub open spec fn cardinality_spec(c: DbmlCardinality) -> Seq<char> {
    match c {
        DbmlCardinality::ManyToOne => "N:1"@,
        DbmlCardinality::OneToMany => "1:N"@,
        DbmlCardinality::OneToOne => "1:1"@,
        DbmlCardinality::ManyToMany => "N:N"@,
    }
}

/// The label text of a cardinality.
pub fn cardinality(c: DbmlCardinality) -> (out: &'static str)
    ensures
        out@ == cardinality_spec(c),
{
    match c {
        DbmlCardinality::ManyToOne => "N:1",
        DbmlCardinality::OneToMany => "1:N",
        DbmlCardinality::OneToOne => "1:1",
        DbmlCardinality::ManyToMany => "N:N",
    }
}

/// ASCII case folding of a whole string.
pub open spec fn folded(s: Seq<char>) -> Seq<char> {
    s.map_values(|c: char| ascii_lower(c))
}

/// The column suffixes shown for the settings, in order.
pub open spec fn setting_suffixes(settings: Seq<DbmlSetting>) -> Seq<Seq<char>>
    decreases settings.len(),
{
    if settings.len() == 0 {
        Seq::empty()
    } else {
        let rest = setting_suffixes(settings.drop_last());
        let n = folded(settings.last().name@);
        if n == folded("pk"@) {
            rest.push("PK"@)
        } else if n == folded("unique"@) {
            rest.push("UNIQUE"@)
        } else if n == folded("not null"@) {
            rest.push("NOT NULL"@)
        } else {
            rest
        }
    }
}

/// `name  type`, followed by ` · `-joined setting suffixes when there are any.
pub open spec fn column_line(c: DbmlColumn) -> Seq<char> {
    let suffixes = setting_suffixes(c.settings@);
    let suffix = if suffixes.len() == 0 {
        Seq::empty()
    } else {
        " · "@ + join_spec(suffixes, " · "@)
    };
    c.name@ + "  "@ + c.data_type@ + suffix
}

/// The body line a table item shows.
pub open spec fn table_item_line(item: DbmlTableItem) -> Seq<char> {
    match item {
        DbmlTableItem::Column(c) => column_line(c),
        DbmlTableItem::Indexes { count } => decimal(count as nat) + " index(es)"@,
        DbmlTableItem::Check { expression } => "check "@ + expression@,
        DbmlTableItem::Checks { count } => decimal(count as nat) + " checks"@,
        DbmlTableItem::Note(n) => "note: "@ + n@,
        DbmlTableItem::Partial(p) => "uses ~"@ + p@,
    }
}

/// The body lines of a table.
pub open spec fn table_lines(items: Seq<DbmlTableItem>) -> Seq<Seq<char>> {
    items.map_values(|i: DbmlTableItem| table_item_line(i))
}

/// The body lines of a table partial: its columns as `name  type`.
pub open spec fn partial_lines(items: Seq<DbmlTableItem>) -> Seq<Seq<char>>
    decreases items.len(),
{
    if items.len() == 0 {
        Seq::empty()
    } else {
        let rest = partial_lines(items.drop_last());
        match items.last() {
            DbmlTableItem::Column(c) => rest.push(c.name@ + "  "@ + c.data_type@),
            _ => rest,
        }
    }
}

/// Names mapped to card ids; a later entry for a name wins.
pub open spec fn lookup(aliases: Seq<(Seq<char>, Seq<char>)>, key: Seq<char>) -> Option<Seq<char>>
    decreases aliases.len(),
{
    if aliases.len() == 0 {
        None
    } else if aliases.last().0 == key {
        Some(aliases.last().1)
    } else {
        lookup(aliases.drop_last(), key)
    }
}

/// State after reading the items: cards, alias table, references and notes seen.
pub struct DbmlState {
    pub cards: Seq<CardModel>,
    pub aliases: Seq<(Seq<char>, Seq<char>)>,
    pub refs: Seq<DbmlRef>,
    pub notes: nat,
}

/// The state after reading `items` in order.
pub open spec fn items_spec(items: Seq<DbmlItem>) -> DbmlState
    decreases items.len(),
{
    if items.len() == 0 {
        DbmlState { cards: Seq::empty(), aliases: Seq::empty(), refs: Seq::empty(), notes: 0 }
    } else {
        let s = items_spec(items.drop_last());
        match items.last() {
            DbmlItem::Project(_) => s,
            DbmlItem::Table(t) => {
                let id = qualified_spec(opt_view(t.schema), t.name@);
                let a1 = s.aliases.push((t.name@, id));
                let a2 = match t.alias {
                    Some(a) => a1.push((a@, id)),
                    None => a1,
                };
                let card = CardModel {
                    id: id,
                    title: t.name@,
                    kind: "TABLE"@,
                    lines: table_lines(t.items@),
                    color_slot: 0,
                };
                DbmlState { cards: push_card_spec(s.cards, card), aliases: a2, ..s }
            },
            DbmlItem::TablePartial(p) => {
                let card = CardModel {
                    id: "partial."@ + p.name@,
                    title: p.name@,
                    kind: "TABLE PARTIAL"@,
                    lines: partial_lines(p.items@),
                    color_slot: 4,
                };
                DbmlState { cards: push_card_spec(s.cards, card), ..s }
            },
            DbmlItem::Enum(e) => {
                let id = qualified_spec(opt_view(e.schema), e.name@);
                let card = CardModel {
                    id: id,
                    title: e.name@,
                    kind: "ENUM"@,
                    lines: e.values@.map_values(|v: String| v@),
                    color_slot: 1,
                };
                DbmlState {
                    cards: push_card_spec(s.cards, card),
                    aliases: s.aliases.push((e.name@, id)),
                    ..s
                }
            },
            DbmlItem::Ref(r) => DbmlState { refs: s.refs.push(r), ..s },
            DbmlItem::TableGroup(g) => {
                let card = CardModel {
                    id: "group."@ + g.name@,
                    title: g.name@,
                    kind: "TABLE GROUP"@,
                    lines: g.tables@.map_values(|t: String| t@),
                    color_slot: 2,
                };
                DbmlState { cards: push_card_spec(s.cards, card), ..s }
            },
            DbmlItem::Note(note) => {
                let k = s.notes + 1;
                let card = CardModel {
                    id: "note."@ + decimal(k),
                    title: "Note "@ + decimal(k),
                    kind: "SCHEMA NOTE"@,
                    lines: seq![note@],
                    color_slot: 4,
                };
                DbmlState { cards: push_card_spec(s.cards, card), notes: k, ..s }
            },
        }
    }
}

/// The card a reference endpoint names: its qualified name when a card has
/// it, else the id its table name is an alias of, else the qualified name.
pub open spec fn resolve_endpoint_spec(
    e: DbmlEndpoint,
    aliases: Seq<(Seq<char>, Seq<char>)>,
    cards: Seq<CardModel>,
) -> Seq<char> {
    let full = qualified_spec(opt_view(e.schema), e.table@);
    if has_id(cards, full) {
        full
    } else {
        match lookup(aliases, e.table@) {
            Some(id) => id,
            None => full,
        }
    }
}

/// `from-columns cardinality to-columns`, after the reference name when it has one.
pub open spec fn ref_label(r: DbmlRef) -> Seq<char> {
    let columns = join_spec(r.from.columns@.map_values(|c: String| c@), ","@) + " "@ + cardinality_spec(
        r.cardinality,
    ) + " "@ + join_spec(r.to.columns@.map_values(|c: String| c@), ","@);
    match r.name {
        Some(n) => n@ + " · "@ + columns,
        None => columns,
    }
}

/// Cards and connectors after resolving `refs` in order from `cards`.
pub open spec fn refs_spec(
    refs: Seq<DbmlRef>,
    aliases: Seq<(Seq<char>, Seq<char>)>,
    cards: Seq<CardModel>,
) -> (Seq<CardModel>, Seq<ConnectorModel>)
    decreases refs.len(),
{
    if refs.len() == 0 {
        (cards, Seq::empty())
    } else {
        let (c0, conns) = refs_spec(refs.drop_last(), aliases, cards);
        let r = refs.last();
        let from = resolve_endpoint_spec(r.from, aliases, c0);
        let to = resolve_endpoint_spec(r.to, aliases, c0);
        let c1 = ensure_endpoint_spec(ensure_endpoint_spec(c0, from), to);
        (
            c1,
            conns.push(
                ConnectorModel {
                    from: from,
                    to: to,
                    label: Some(ref_label(r)),
                    kind: ConnectorKind::Directed,
                    dashed: false,
                },
            ),
        )
    }
}

/// The diagram title: `DBML · name` after the first project, else `DBML schema`.
pub open spec fn title_spec(items: Seq<DbmlItem>) -> Seq<char>
    decreases items.len(),
{
    if items.len() == 0 {
        "DBML schema"@
    } else {
        match items[0] {
            DbmlItem::Project(p) => "DBML · "@ + p.name@,
            _ => title_spec(items.drop_first()),
        }
    }
}

fn lookup_alias(aliases: &Vec<(String, String)>, key: &str) -> (out: Option<String>)
    ensures
        opt_view(out) == lookup(aliases_view(aliases@), key@),
{
    let ghost v = aliases_view(aliases@);
    let mut i = aliases.len();
    assert(v.take(i as int) =~= v);
    while i > 0
        invariant
            i <= aliases.len(),
            v == aliases_view(aliases@),
            lookup(v, key@) == lookup(v.take(i as int), key@),
        decreases i,
    {
        assert(v.take(i as int).drop_last() =~= v.take(i - 1));
        if str_eq(aliases[i - 1].0.as_str(), key) {
            return Some(owned(aliases[i - 1].1.as_str()));
        }
        i = i - 1;
    }
    None
}

/// The alias table as pairs of character sequences.
pub open spec fn aliases_view(a: Seq<(String, String)>) -> Seq<(Seq<char>, Seq<char>)> {
    a.map_values(|p: (String, String)| (p.0@, p.1@))
}

fn push_alias(aliases: &mut Vec<(String, String)>, name: &str, id: &str)
    ensures
        aliases_view(final(aliases)@) == aliases_view(old(aliases)@).push((name@, id@)),
{
    let ghost before = aliases_view(aliases@);
    aliases.push((owned(name), owned(id)));
    assert(aliases_view(aliases@) =~= before.push((name@, id@)));
}

/// Resolves a reference endpoint against the cards and aliases; see [`resolve_endpoint_spec`].
pub fn resolve_endpoint(e: &DbmlEndpoint, aliases: &Vec<(String, String)>, diagram: &CardDiagram) -> (out: String)
    ensures
        out@ == resolve_endpoint_spec(*e, aliases_view(aliases@), cards_view(diagram.cards@)),
{
    let full = qualified(&e.schema, e.table.as_str());
    proof {
        lemma_position_of(cards_view(diagram.cards@), full@);
    }
    if find_card(&diagram.cards, full.as_str()).is_some() {
        return full;
    }
    match lookup_alias(aliases, e.table.as_str()) {
        Some(id) => id,
        None => full,
    }
}

fn setting_suffix_list(settings: &Vec<DbmlSetting>) -> (out: Vec<String>)
    ensures
        strings_view(out@) == setting_suffixes(settings@),
{
    let mut out: Vec<String> = Vec::new();
    let n = settings.len();
    for i in 0..n
        invariant
            n == settings.len(),
            strings_view(out@) == setting_suffixes(settings@.take(i as int)),
    {
        assert(settings@.take(i + 1).drop_last() =~= settings@.take(i as int));
        let name = settings[i].name.as_str();
        let ghost before = strings_view(out@);
        if eq_ignore_ascii_case(name, "pk") {
            out.push(owned("PK"));
            assert(strings_view(out@) =~= before.push("PK"@));
        } else if eq_ignore_ascii_case(name, "unique") {
            out.push(owned("UNIQUE"));
            assert(strings_view(out@) =~= before.push("UNIQUE"@));
        } else if eq_ignore_ascii_case(name, "not null") {
            out.push(owned("NOT NULL"));
            assert(strings_view(out@) =~= before.push("NOT NULL"@));
        }
    }
    assert(settings@.take(n as int) =~= settings@);
    out
}

fn table_item_text(item: &DbmlTableItem) -> (out: String)
    ensures
        out@ == table_item_line(*item),
{
    match item {
        DbmlTableItem::Column(c) => {
            let suffixes = setting_suffix_list(&c.settings);
            let mut line = concat3(c.name.as_str(), "  ", c.data_type.as_str());
            if suffixes.len() > 0 {
                line.append(" · ");
                let joined = join(&suffixes, " · ");
                line.append(joined.as_str());
            }
            line
        },
        DbmlTableItem::Indexes { count } => {
            let d = decimal_string(*count as u128);
            concat2(d.as_str(), " index(es)")
        },
        DbmlTableItem::Check { expression } => concat2("check ", expression.as_str()),
        DbmlTableItem::Checks { count } => {
            let d = decimal_string(*count as u128);
            concat2(d.as_str(), " checks")
        },
        DbmlTableItem::Note(n) => concat2("note: ", n.as_str()),
        DbmlTableItem::Partial(p) => concat2("uses ~", p.as_str()),
    }
}

fn table_body(items: &Vec<DbmlTableItem>) -> (out: Vec<String>)
    ensures
        strings_view(out@) == table_lines(items@),
{
    let mut out: Vec<String> = Vec::new();
    let n = items.len();
    for i in 0..n
        invariant
            n == items.len(),
            strings_view(out@) == table_lines(items@.take(i as int)),
    {
        let ghost before = strings_view(out@);
        let line = table_item_text(&items[i]);
        let ghost l = line@;
        out.push(line);
        assert(strings_view(out@) =~= before.push(l));
        assert(table_lines(items@.take(i + 1)) =~= table_lines(items@.take(i as int)).push(l));
    }
    assert(items@.take(n as int) =~= items@);
    out
}

fn partial_body(items: &Vec<DbmlTableItem>) -> (out: Vec<String>)
    ensures
        strings_view(out@) == partial_lines(items@),
{
    let mut out: Vec<String> = Vec::new();
    let n = items.len();
    for i in 0..n
        invariant
            n == items.len(),
            strings_view(out@) == partial_lines(items@.take(i as int)),
    {
        assert(items@.take(i + 1).drop_last() =~= items@.take(i as int));
        let ghost before = strings_view(out@);
        match &items[i] {
            DbmlTableItem::Column(c) => {
                let line = concat3(c.name.as_str(), "  ", c.data_type.as_str());
                let ghost l = line@;
                out.push(line);
                assert(strings_view(out@) =~= before.push(l));
            },
            _ => {},
        }
    }
    assert(items@.take(n as int) =~= items@);
    out
}

fn copy_strings(v: &Vec<String>) -> (out: Vec<String>)
    ensures
        strings_view(out@) == strings_view(v@),
{
    let mut out: Vec<String> = Vec::new();
    let n = v.len();
    for i in 0..n
        invariant
            n == v.len(),
            strings_view(out@) == strings_view(v@.take(i as int)),
    {
        let ghost before = strings_view(out@);
        out.push(owned(v[i].as_str()));
        assert(strings_view(out@) =~= before.push(v@[i as int]@));
        assert(strings_view(v@.take(i + 1)) =~= strings_view(v@.take(i as int)).push(v@[i as int]@));
    }
    assert(v@.take(n as int) =~= v@);
    out
}

fn document_title(items: &Vec<DbmlItem>) -> (out: String)
    ensures
        out@ == title_spec(items@),
{
    let n = items.len();
    assert(items@.skip(0) =~= items@);
    for i in 0..n
        invariant
            n == items.len(),
            title_spec(items@) == title_spec(items@.skip(i as int)),
    {
        assert(items@.skip(i as int)[0] == items@[i as int]);
        match &items[i] {
            DbmlItem::Project(p) => {
                return concat2("DBML · ", p.name.as_str());
            },
            _ => {
                assert(items@.skip(i as int).drop_first() =~= items@.skip(i + 1));
            },
        }
    }
    assert(items@.skip(n as int) =~= Seq::<DbmlItem>::empty());
    owned("DBML schema")
}

fn ref_label_text(r: &DbmlRef) -> (out: String)
    ensures
        out@ == ref_label(*r),
{
    let from_cols = join(&r.from.columns, ",");
    let to_cols = join(&r.to.columns, ",");
    let mut columns = concat3(from_cols.as_str(), " ", cardinality(r.cardinality));
    columns.append(" ");
    columns.append(to_cols.as_str());
    match &r.name {
        Some(n) => concat3(n.as_str(), " · ", columns.as_str()),
        None => columns,
    }
}

/// Reads a DBML schema into a card diagram: the items give cards in order,
/// then each reference resolves its endpoints, ensures their cards and adds a
/// directed connector.
pub fn build(document: &DbmlDocument) -> (out: CardBuild)
    ensures
        ({
            let s = items_spec(document.items@);
            let (cards, connectors) = refs_spec(s.refs, s.aliases, s.cards);
            &&& out.diagram.title@ == title_spec(document.items@)
            &&& cards_view(out.diagram.cards@) == cards
            &&& connectors_view(out.diagram.connectors@) == connectors
            &&& out.warnings@.len() == 0
        }),
{
    let items = &document.items;
    let mut diagram = CardDiagram::new(document_title(items));
    let mut aliases: Vec<(String, String)> = Vec::new();
    let mut refs: Vec<&DbmlRef> = Vec::new();
    let mut notes: usize = 0;
    let n = items.len();
    assert(cards_view(diagram.cards@) =~= Seq::empty());
    assert(aliases_view(aliases@) =~= Seq::empty());
    for i in 0..n
        invariant
            n == items.len(),
            diagram.title@ == title_spec(items@),
            diagram.connectors@.len() == 0,
            notes <= i,
            ({
                let s = items_spec(items@.take(i as int));
                &&& cards_view(diagram.cards@) == s.cards
                &&& aliases_view(aliases@) == s.aliases
                &&& refs@.map_values(|r: &DbmlRef| *r) == s.refs
                &&& notes as nat == s.notes
            }),
    {
        assert(items@.take(i + 1).drop_last() =~= items@.take(i as int));
        assert(items@.take(i + 1).last() == items@[i as int]);
        match &items[i] {
            DbmlItem::Project(_) => {},
            DbmlItem::Table(t) => {
                let id = qualified(&t.schema, t.name.as_str());
                push_alias(&mut aliases, t.name.as_str(), id.as_str());
                match &t.alias {
                    Some(a) => push_alias(&mut aliases, a.as_str(), id.as_str()),
                    None => {},
                }
                let lines = table_body(&t.items);
                diagram.push_card(Card::new(id, owned(t.name.as_str()), owned("TABLE"), lines, 0));
            },
            DbmlItem::TablePartial(p) => {
                let lines = partial_body(&p.items);
                diagram.push_card(
                    Card::new(
                        concat2("partial.", p.name.as_str()),
                        owned(p.name.as_str()),
                        owned("TABLE PARTIAL"),
                        lines,
                        4,
                    ),
                );
            },
            DbmlItem::Enum(e) => {
                let id = qualified(&e.schema, e.name.as_str());
                push_alias(&mut aliases, e.name.as_str(), id.as_str());
                let lines = copy_strings(&e.values);
                diagram.push_card(Card::new(id, owned(e.name.as_str()), owned("ENUM"), lines, 1));
            },
            DbmlItem::Ref(r) => {
                let ghost before = refs@.map_values(|r: &DbmlRef| *r);
                refs.push(r);
                assert(refs@.map_values(|r: &DbmlRef| *r) =~= before.push(*r));
            },
            DbmlItem::TableGroup(g) => {
                let lines = copy_strings(&g.tables);
                diagram.push_card(
                    Card::new(
                        concat2("group.", g.name.as_str()),
                        owned(g.name.as_str()),
                        owned("TABLE GROUP"),
                        lines,
                        2,
                    ),
                );
            },
            DbmlItem::Note(note) => {
                notes = notes + 1;
                let d = decimal_string(notes as u128);
                let mut lines: Vec<String> = Vec::new();
                lines.push(owned(note.as_str()));
                assert(strings_view(lines@) =~= seq![note@]);
                diagram.push_card(
                    Card::new(
                        concat2("note.", d.as_str()),
                        concat2("Note ", d.as_str()),
                        owned("SCHEMA NOTE"),
                        lines,
                        4,
                    ),
                );
            },
        }
    }
    assert(items@.take(n as int) =~= items@);
    let ghost s = items_spec(items@);
    let m = refs.len();
    assert(connectors_view(diagram.connectors@) =~= Seq::empty());
    for k in 0..m
        invariant
            m == refs.len(),
            refs@.map_values(|r: &DbmlRef| *r) == s.refs,
            aliases_view(aliases@) == s.aliases,
            diagram.title@ == title_spec(items@),
            s == items_spec(items@),
            ({
                let (cards, connectors) = refs_spec(s.refs.take(k as int), s.aliases, s.cards);
                &&& cards_view(diagram.cards@) == cards
                &&& connectors_view(diagram.connectors@) == connectors
            }),
    {
        let r = refs[k];
        assert(s.refs.take(k + 1).drop_last() =~= s.refs.take(k as int));
        assert(s.refs.take(k + 1).last() == *r);
        let from = resolve_endpoint(&r.from, &aliases, &diagram);
        let to = resolve_endpoint(&r.to, &aliases, &diagram);
        diagram.ensure_endpoint(from.as_str());
        diagram.ensure_endpoint(to.as_str());
        let label = ref_label_text(r);
        push_connector(
            &mut diagram,
            Connector { from, to, label: Some(label), kind: ConnectorKind::Directed, dashed: false },
        );
    }
    assert(s.refs.take(m as int) =~= s.refs);
    CardBuild { diagram, warnings: Vec::new() }
}

/// Law: the cards read from DBML items have unique ids.
pub proof fn lemma_items_ids_unique(items: Seq<DbmlItem>)
    ensures
        ids_unique(items_spec(items).cards),
    decreases items.len(),
{
    if items.len() > 0 {
        lemma_items_ids_unique(items.drop_last());
        let s = items_spec(items.drop_last());
        match items.last() {
            DbmlItem::Table(t) => {
                let id = qualified_spec(opt_view(t.schema), t.name@);
                lemma_push_card_keeps_ids_unique(
                    s.cards,
                    CardModel { id: id, title: t.name@, kind: "TABLE"@, lines: table_lines(t.items@), color_slot: 0 },
                );
            },
            DbmlItem::TablePartial(p) => {
                lemma_push_card_keeps_ids_unique(
                    s.cards,
                    CardModel {
                        id: "partial."@ + p.name@,
                        title: p.name@,
                        kind: "TABLE PARTIAL"@,
                        lines: partial_lines(p.items@),
                        color_slot: 4,
                    },
                );
            },
            DbmlItem::Enum(e) => {
                let id = qualified_spec(opt_view(e.schema), e.name@);
                lemma_push_card_keeps_ids_unique(
                    s.cards,
                    CardModel {
                        id: id,
                        title: e.name@,
                        kind: "ENUM"@,
                        lines: e.values@.map_values(|v: String| v@),
                        color_slot: 1,
                    },
                );
            },
            DbmlItem::TableGroup(g) => {
                lemma_push_card_keeps_ids_unique(
                    s.cards,
                    CardModel {
                        id: "group."@ + g.name@,
                        title: g.name@,
                        kind: "TABLE GROUP"@,
                        lines: g.tables@.map_values(|t: String| t@),
                        color_slot: 2,
                    },
                );
            },
            DbmlItem::Note(note) => {
                let k = s.notes + 1;
                lemma_push_card_keeps_ids_unique(
                    s.cards,
                    CardModel {
                        id: "note."@ + decimal(k),
                        title: "Note "@ + decimal(k),
                        kind: "SCHEMA NOTE"@,
                        lines: seq![note@],
                        color_slot: 4,
                    },
                );
            },
            _ => {},
        }
    }
}

/// Law: resolving references keeps card ids unique, keeps every card that
/// was there, and leaves every reference joining two cards.
pub proof fn lemma_refs_join_cards(refs: Seq<DbmlRef>, aliases: Seq<(Seq<char>, Seq<char>)>, cards: Seq<CardModel>)
    requires
        ids_unique(cards),
    ensures
        ({
            let (out, connectors) = refs_spec(refs, aliases, cards);
            &&& ids_unique(out)
            &&& connectors.len() == refs.len()
            &&& forall|id: Seq<char>| has_id(cards, id) ==> #[trigger] has_id(out, id)
            &&& forall|k: int|
                0 <= k < connectors.len() ==> has_id(out, (#[trigger] connectors[k]).from) && has_id(out, connectors[k].to)
        }),
    decreases refs.len(),
{
    if refs.len() > 0 {
        lemma_refs_join_cards(refs.drop_last(), aliases, cards);
        let (c0, conns) = refs_spec(refs.drop_last(), aliases, cards);
        let r = refs.last();
        let from = resolve_endpoint_spec(r.from, aliases, c0);
        let to = resolve_endpoint_spec(r.to, aliases, c0);
        let ca = ensure_endpoint_spec(c0, from);
        let cb = ensure_endpoint_spec(ca, to);
        lemma_ensure_endpoint(c0, from);
        lemma_ensure_endpoint(ca, to);
        assert forall|id: Seq<char>| has_id(c0, id) implies #[trigger] has_id(cb, id) by {
            let i = choose|i: int| 0 <= i < c0.len() && #[trigger] c0[i].id == id;
            assert(ca.take(c0.len() as int)[i] == c0[i]);
            assert(cb.take(ca.len() as int)[i] == ca[i]);
        }
        assert(has_id(cb, from)) by {
            let i = choose|i: int| 0 <= i < ca.len() && #[trigger] ca[i].id == from;
            assert(cb.take(ca.len() as int)[i] == ca[i]);
        }
        let (out, connectors) = refs_spec(refs, aliases, cards);
        assert forall|id: Seq<char>| has_id(cards, id) implies #[trigger] has_id(out, id) by {
            assert(has_id(c0, id));
        }
        assert forall|k: int| 0 <= k < connectors.len() implies has_id(out, (#[trigger] connectors[k]).from) && has_id(
            out,
            connectors[k].to,
        ) by {
            if k < conns.len() {
                assert(connectors[k] == conns[k]);
                assert(has_id(c0, conns[k].from));
                assert(has_id(c0, conns[k].to));
            }
        }
    }
}

/// Law: in a built DBML diagram card ids are unique and every reference's
/// connector joins two cards.
pub proof fn lemma_build_is_connected(document: DbmlDocument)
    ensures
        ({
            let s = items_spec(document.items@);
            let (cards, connectors) = refs_spec(s.refs, s.aliases, s.cards);
            &&& ids_unique(cards)
            &&& connectors.len() == s.refs.len()
            &&& forall|k: int|
                0 <= k < connectors.len() ==> has_id(cards, (#[trigger] connectors[k]).from) && has_id(
                    cards,
                    connectors[k].to,
                )
        }),
{
    let s = items_spec(document.items@);
    lemma_items_ids_unique(document.items@);
    lemma_refs_join_cards(s.refs, s.aliases, s.cards);
}

} // verus!
