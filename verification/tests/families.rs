use diagram_render_rs::renderers::cards::{arrowhead_ends, CardBuild, ConnectorKind};
use diagram_render_rs::renderers::d2::{
    self, is_property, qualify, resolve_edge_endpoint, D2Document, D2EdgeChain, D2EdgeOperator,
    D2Entry, D2Import, D2Statement, D2Value,
};
use diagram_render_rs::renderers::dbml::{
    self, DbmlCardinality, DbmlColumn, DbmlDocument, DbmlEndpoint, DbmlEnum, DbmlItem, DbmlProject,
    DbmlRef, DbmlSetting, DbmlTable, DbmlTableItem,
};
use diagram_render_rs::renderers::likec4::{
    self, LikeC4Document, LikeC4Element, LikeC4Relationship, LikeC4Section, LikeC4SectionKind,
    LikeC4Statement, LikeC4View,
};
use diagram_render_rs::renderers::nomnoml::{
    self, NomnomlAttribute, NomnomlClassifier, NomnomlCompartment, NomnomlDocument,
    NomnomlRelation, NomnomlStatement,
};
use diagram_render_rs::renderers::structurizr::{
    self, StructurizrBlock, StructurizrDocument, StructurizrElement, StructurizrProperty,
    StructurizrRelationship, StructurizrStatement, StructurizrWorkspace,
};

fn ids(build: &CardBuild) -> Vec<String> {
    build.diagram.cards.iter().map(|c| c.id.clone()).collect()
}

fn entry(key: &str, value: Option<D2Value>) -> D2Statement {
    D2Statement::Entry(D2Entry { key: key.to_owned(), value })
}

fn edge(endpoints: &[&str], operators: Vec<D2EdgeOperator>, label: Option<&str>) -> D2Statement {
    D2Statement::EdgeChain(D2EdgeChain {
        endpoints: endpoints.iter().map(|e| e.to_string()).collect(),
        operators,
        label: label.map(str::to_owned),
    })
}

#[test]
fn d2_edge_operators_keep_their_arrowhead_cardinality() {
    for (operator, expected_arrowheads) in [
        (D2EdgeOperator::Directed, 1),
        (D2EdgeOperator::ReverseDirected, 1),
        (D2EdgeOperator::Undirected, 0),
        (D2EdgeOperator::Bidirectional, 2),
    ] {
        let document = D2Document { statements: vec![edge(&["a", "b"], vec![operator], None)] };
        let build = d2::build(&document);
        assert_eq!(build.diagram.connectors.len(), 1);
        let (at_target, at_source) = arrowhead_ends(build.diagram.connectors[0].kind);
        assert_eq!(usize::from(at_target) + usize::from(at_source), expected_arrowheads);
        assert_eq!(ids(&build), vec!["a", "b"]);
    }
}

#[test]
fn d2_qualifies_names_inside_containers() {
    assert_eq!(qualify("", "a"), "a");
    assert_eq!(qualify("outer", "a"), "outer.a");
    assert_eq!(qualify("outer", "x.a"), "x.a");
    assert_eq!(resolve_edge_endpoint("outer", "a"), "outer.a");
    assert_eq!(resolve_edge_endpoint("", "a"), "a");
    assert!(is_property("style.fill"));
    assert!(is_property("near"));
    assert!(!is_property("stylefill"));
}

#[test]
fn d2_walk_builds_containers_nodes_and_warnings() {
    let document = D2Document {
        statements: vec![
            entry("direction", Some(D2Value::Scalar("right".to_owned()))),
            entry(
                "cloud",
                Some(D2Value::Block {
                    label: None,
                    statements: vec![
                        entry("label", Some(D2Value::Scalar("Cloud".to_owned()))),
                        entry("shape", Some(D2Value::Scalar("rectangle".to_owned()))),
                        entry("tooltip", Some(D2Value::Scalar("hover".to_owned()))),
                        entry("api", None),
                        edge(&["api", "db", "x.y"], vec![D2EdgeOperator::Directed, D2EdgeOperator::Undirected], Some("calls")),
                    ],
                }),
            ),
            entry("a", Some(D2Value::Scalar("<unsafe & visible>".to_owned()))),
            D2Statement::Import(D2Import { path: "lib.d2".to_owned() }),
        ],
    };
    let build = d2::build(&document);
    assert_eq!(build.diagram.title, "D2 diagram");
    assert_eq!(ids(&build), vec!["cloud", "cloud.api", "a", "cloud.db", "x.y"]);
    let cloud = &build.diagram.cards[0];
    assert_eq!(cloud.title, "Cloud");
    assert_eq!(cloud.kind, "D2 rectangle");
    assert_eq!(cloud.lines, vec!["shape: rectangle", "tooltip: hover"]);
    let api = &build.diagram.cards[1];
    assert!(api.lines.is_empty());
    assert_eq!(api.kind, "D2 NODE");
    assert_eq!(api.title, "api");
    let a = &build.diagram.cards[2];
    assert_eq!(a.title, "<unsafe & visible>");
    assert_eq!(a.lines, vec!["label: <unsafe & visible>"]);
    assert_eq!(build.diagram.cards[3].kind, "REFERENCE");
    assert_eq!(build.diagram.connectors.len(), 2);
    assert_eq!(build.diagram.connectors[0].from, "cloud.api");
    assert_eq!(build.diagram.connectors[0].to, "cloud.db");
    assert_eq!(build.diagram.connectors[1].to, "x.y");
    assert_eq!(build.diagram.connectors[1].kind, ConnectorKind::Undirected);
    assert_eq!(build.diagram.connectors[1].label.as_deref(), Some("calls"));
    assert_eq!(build.warnings, vec!["D2 import `lib.d2` is shown neither loaded nor expanded"]);
}

fn column(name: &str, data_type: &str, settings: &[&str]) -> DbmlTableItem {
    DbmlTableItem::Column(DbmlColumn {
        name: name.to_owned(),
        data_type: data_type.to_owned(),
        settings: settings.iter().map(|s| DbmlSetting { name: s.to_string() }).collect(),
    })
}

fn endpoint(table: &str, columns: &[&str]) -> DbmlEndpoint {
    DbmlEndpoint {
        schema: None,
        table: table.to_owned(),
        columns: columns.iter().map(|c| c.to_string()).collect(),
    }
}

#[test]
fn dbml_tables_enums_and_references() {
    let document = DbmlDocument {
        items: vec![
            DbmlItem::Table(DbmlTable {
                schema: Some("core".to_owned()),
                name: "users".to_owned(),
                alias: Some("U".to_owned()),
                items: vec![
                    column("id", "bigint", &["PK", "not null"]),
                    column("email", "text", &["Unique", "note"]),
                    DbmlTableItem::Indexes { count: 2 },
                    DbmlTableItem::Note("people".to_owned()),
                ],
            }),
            DbmlItem::Project(DbmlProject { name: "commerce".to_owned() }),
            DbmlItem::Enum(DbmlEnum {
                schema: None,
                name: "status".to_owned(),
                values: vec!["active".to_owned(), "gone".to_owned()],
            }),
            DbmlItem::Ref(DbmlRef {
                name: Some("owner".to_owned()),
                from: endpoint("orders", &["user_id"]),
                to: endpoint("U", &["id"]),
                cardinality: DbmlCardinality::ManyToOne,
            }),
            DbmlItem::Note("schema note".to_owned()),
        ],
    };
    let build = dbml::build(&document);
    assert_eq!(build.diagram.title, "DBML · commerce");
    assert_eq!(ids(&build), vec!["core.users", "status", "note.1", "orders"]);
    assert_eq!(
        build.diagram.cards[0].lines,
        vec!["id  bigint · PK · NOT NULL", "email  text · UNIQUE", "2 index(es)", "note: people"]
    );
    assert_eq!(build.diagram.cards[2].title, "Note 1");
    assert_eq!(build.diagram.connectors.len(), 1);
    let c = &build.diagram.connectors[0];
    assert_eq!(c.from, "orders");
    assert_eq!(c.to, "core.users");
    assert_eq!(c.label.as_deref(), Some("owner · user_id N:1 id"));
    assert!(build.warnings.is_empty());
}

#[test]
fn dbml_without_a_project_is_a_schema() {
    let build = dbml::build(&DbmlDocument { items: Vec::new() });
    assert_eq!(build.diagram.title, "DBML schema");
    assert!(build.diagram.cards.is_empty());
}

fn element(element_type: &str, id: Option<&str>, name: Option<&str>, body: Vec<StructurizrStatement>) -> StructurizrStatement {
    StructurizrStatement::Element(StructurizrElement {
        id: id.map(str::to_owned),
        element_type: element_type.to_owned(),
        name: name.map(str::to_owned),
        description: None,
        technology: Some("Rust".to_owned()),
        body,
    })
}

#[test]
fn structurizr_workspace_elements_and_views() {
    let document = StructurizrDocument {
        statements: vec![StructurizrStatement::Workspace(StructurizrWorkspace {
            name: Some("Payments".to_owned()),
            body: vec![
                element(
                    "softwareSystem",
                    Some("pay"),
                    Some("Payments"),
                    vec![
                        element("container", None, None, Vec::new()),
                        StructurizrStatement::Property(StructurizrProperty {
                            name: "tags".to_owned(),
                            values: vec!["a".to_owned(), "b".to_owned()],
                            body: Vec::new(),
                        }),
                    ],
                ),
                StructurizrStatement::Relationship(StructurizrRelationship {
                    source: "pay".to_owned(),
                    target: "bank".to_owned(),
                    description: Some("settles".to_owned()),
                    technology: Some("HTTPS".to_owned()),
                    body: Vec::new(),
                }),
                StructurizrStatement::Block(StructurizrBlock { keyword: "systemContextView".to_owned(), body: Vec::new() }),
            ],
        })],
    };
    let build = structurizr::build(&document);
    assert_eq!(build.diagram.title, "Structurizr · Payments");
    assert_eq!(ids(&build), vec!["pay", "element-2", "bank"]);
    assert_eq!(build.diagram.cards[0].lines, vec!["technology: Rust", "tags: a b"]);
    assert_eq!(build.diagram.cards[1].lines, vec!["technology: Rust", "inside pay"]);
    assert_eq!(build.diagram.connectors[0].label.as_deref(), Some("settles · HTTPS"));
    assert_eq!(
        build.warnings,
        vec!["Structurizr `systemContextView` view syntax is retained, but this renderer shows the model rather than evaluating a view"]
    );
}

#[test]
fn likec4_model_deployment_and_relationships() {
    let customer = LikeC4Statement::Element(LikeC4Element {
        name: "customer".to_owned(),
        element_type: "actor".to_owned(),
        title: Some("Customer".to_owned()),
        description: None,
        reference: None,
        body: vec![LikeC4Statement::Relationship(LikeC4Relationship {
            source: None,
            target: "shop".to_owned(),
            relationship_type: Some("async".to_owned()),
            title: None,
            description: None,
            body: Vec::new(),
        })],
    });
    let document = LikeC4Document {
        statements: vec![
            LikeC4Statement::Section(LikeC4Section { section: LikeC4SectionKind::Deployment, body: vec![customer] }),
            LikeC4Statement::Relationship(LikeC4Relationship {
                source: None,
                target: "nowhere".to_owned(),
                relationship_type: None,
                title: None,
                description: None,
                body: Vec::new(),
            }),
            LikeC4Statement::View(LikeC4View { view_type: "dynamic".to_owned(), name: None, body: Vec::new() }),
        ],
    };
    let build = likec4::build(&document);
    assert_eq!(build.diagram.title, "LikeC4 deployment model");
    assert_eq!(ids(&build), vec!["customer", "shop"]);
    let c = &build.diagram.connectors[0];
    assert_eq!((c.from.as_str(), c.to.as_str()), ("customer", "shop"));
    assert!(c.dashed);
    assert_eq!(c.label.as_deref(), Some("async"));
    assert_eq!(
        build.warnings,
        vec![
            "LikeC4 relationship targeting `nowhere` has no resolvable source",
            "LikeC4 dynamic view is retained, but this renderer shows the model rather than evaluating predicates/includes",
        ]
    );
}

fn classifier(lines: &[&[&str]], attributes: &[(&str, &str)]) -> NomnomlClassifier {
    NomnomlClassifier {
        classifier_type: None,
        compartments: lines
            .iter()
            .map(|c| NomnomlCompartment { lines: c.iter().map(|l| l.to_string()).collect() })
            .collect(),
        attributes: attributes
            .iter()
            .map(|(n, v)| NomnomlAttribute { name: n.to_string(), value: v.to_string() })
            .collect(),
    }
}

#[test]
fn nomnoml_classifiers_and_relations() {
    let document = NomnomlDocument {
        statements: vec![
            NomnomlStatement::Classifier(classifier(&[&["Repo", "Repo"], &["save()"]], &[("color", "red")])),
            NomnomlStatement::Relation(NomnomlRelation {
                start: classifier(&[&["Repo"]], &[]),
                end: classifier(&[&["PostgreSQL"]], &[("id", "db")]),
                association: "<-->".to_owned(),
                start_label: Some("uses".to_owned()),
                end_label: None,
            }),
        ],
    };
    let build = nomnoml::build(&document);
    assert_eq!(build.diagram.title, "nomnoml classifier diagram");
    assert_eq!(ids(&build), vec!["Repo", "db"]);
    assert_eq!(build.diagram.cards[0].lines, vec!["save()", "color: red"]);
    assert_eq!(build.diagram.cards[0].kind, "CLASS");
    assert_eq!(build.diagram.cards[1].title, "PostgreSQL");
    let c = &build.diagram.connectors[0];
    assert_eq!(c.kind, ConnectorKind::Bidirectional);
    assert!(c.dashed);
    assert_eq!(c.label.as_deref(), Some("uses"));
    assert_eq!((c.from.as_str(), c.to.as_str()), ("Repo", "db"));
}
