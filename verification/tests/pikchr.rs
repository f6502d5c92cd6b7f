use diagram_render_rs::renderers::pikchr::{
    label_lines, object_label, plan, shape_count, shape_kind, PikchrAttribute, PikchrDirection,
    PikchrDocument, PikchrObject, PikchrStatement, PikchrStep, ShapeKind,
};

fn object(kind: &str, label: Option<&str>, attributes: &[(bool, &str)]) -> PikchrStatement {
    PikchrStatement::Object(PikchrObject {
        object_type: kind.to_owned(),
        label: label.map(str::to_owned),
        attributes: attributes
            .iter()
            .map(|(s, v)| PikchrAttribute { is_string: *s, value: v.to_string() })
            .collect(),
    })
}

#[test]
fn shapes_advance_only_after_a_shape() {
    let document = PikchrDocument {
        statements: vec![
            object("box", Some("Rust"), &[]),
            object("Circle", None, &[(false, "rad 1")]),
            object("arrow", None, &[(true, "x")]),
            PikchrStatement::Direction(PikchrDirection::Down),
            object("cylinder", None, &[]),
            PikchrStatement::Place { label: "P".to_owned() },
            PikchrStatement::Define { name: "m".to_owned() },
            PikchrStatement::Assignment { variable: "$x".to_owned() },
        ],
    };
    assert_eq!(shape_count(&document), 3);
    let p = plan(&document);
    assert_eq!(
        p.steps,
        vec![
            PikchrStep::Shape { index: 0, advance: false },
            PikchrStep::Shape { index: 1, advance: true },
            PikchrStep::Flow { index: 2 },
            PikchrStep::Turn(PikchrDirection::Down),
            PikchrStep::Shape { index: 4, advance: false },
        ]
    );
    assert_eq!(
        p.warnings,
        vec![
            "Pikchr attributes are retained by the AST; this renderer currently applies labels and common flow geometry, not expression-level sizing/placement",
            "Pikchr place `P` is retained but its expression is not geometrically evaluated",
            "Pikchr macro `m` is retained but not expanded",
            "Pikchr assignment `$x` is retained but not expression-evaluated",
        ]
    );
}

#[test]
fn object_labels_join_distinct_neighbours() {
    let o = PikchrObject {
        object_type: "box".to_owned(),
        label: Some("A".to_owned()),
        attributes: vec![
            PikchrAttribute { is_string: true, value: "A".to_owned() },
            PikchrAttribute { is_string: false, value: "wid 2".to_owned() },
            PikchrAttribute { is_string: true, value: "B".to_owned() },
            PikchrAttribute { is_string: true, value: "A".to_owned() },
        ],
    };
    assert_eq!(object_label(&o), "A\nB\nA");
}

#[test]
fn label_lines_follow_str_lines_and_stop_at_three() {
    assert_eq!(label_lines("a\r\nb\n\nc\nd"), vec!["a", "b", ""]);
    assert_eq!(label_lines("one\n"), vec!["one"]);
    assert_eq!(label_lines("a\r"), vec!["a\r"]);
    assert_eq!(label_lines("a\r\nb\r"), vec!["a", "b\r"]);
    assert!(label_lines("").is_empty());
}

#[test]
fn shape_kinds() {
    assert_eq!(shape_kind("circle"), ShapeKind::Circle);
    assert_eq!(shape_kind("oval"), ShapeKind::Ellipse);
    assert_eq!(shape_kind("diamond"), ShapeKind::Diamond);
    assert_eq!(shape_kind("file"), ShapeKind::Box);
}
