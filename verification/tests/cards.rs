use diagram_render_rs::renderers::cards::{
    arrowhead_ends, card_heading, connector_label, deduplicate_cards, display_id, ensure_connector_endpoints,
    layout_grid, plan_cards, prepare_cards, truncate, wrap, Card, CardDiagram, Connector,
    ConnectorKind, GridRect,
};

fn card(id: &str, lines: &[&str]) -> Card {
    Card::new(
        id.to_owned(),
        id.to_owned(),
        "NODE".to_owned(),
        lines.iter().map(|l| l.to_string()).collect(),
        0,
    )
}

fn ids(diagram: &CardDiagram) -> Vec<String> {
    diagram.cards.iter().map(|c| c.id.clone()).collect()
}

#[test]
fn truncate_keeps_fitting_text() {
    assert_eq!(truncate("short", 10), "short");
    assert_eq!(truncate("exactly10!", 10), "exactly10!");
}

#[test]
fn truncate_leaves_room_for_the_ellipsis() {
    assert_eq!(truncate("abcdefghij", 5), "abcd…");
    assert_eq!(truncate("日本語テキスト", 7), "日本語…");
    assert_eq!(truncate("abc", 0), "…");
}

#[test]
fn wrap_fills_lines_greedily() {
    assert_eq!(wrap("the quick brown fox", 9), vec!["the quick", "brown fox"]);
    assert_eq!(wrap("  spaced   out  ", 34), vec!["spaced out"]);
}

#[test]
fn wrap_of_blank_text_is_one_empty_line() {
    assert_eq!(wrap("", 34), vec![String::new()]);
    assert_eq!(wrap(" \t ", 34), vec![String::new()]);
}

#[test]
fn wrap_truncates_only_the_last_line() {
    assert_eq!(wrap("abcdefgh ijklmnop", 5), vec!["abcdefgh", "ijkl…"]);
}

#[test]
fn card_heading_capitalises_the_kind_and_cuts_both_texts() {
    let c = Card::new(
        "id".to_owned(),
        "A title that is far too long to fit".to_owned(),
        "d2 container".to_owned(),
        Vec::new(),
        0,
    );
    assert_eq!(
        card_heading(&c),
        ("D2 CONTAINER".to_owned(), "A title that is far too long t…".to_owned())
    );
}

#[test]
fn display_id_is_the_last_path_segment() {
    assert_eq!(display_id("schema.users"), "users");
    assert_eq!(display_id("a/b.c"), "c");
    assert_eq!(display_id("plain"), "plain");
    assert_eq!(display_id("trailing."), "");
}

#[test]
fn push_card_keeps_the_first_card_unless_it_had_no_lines() {
    let mut d = CardDiagram::new("t".to_owned());
    d.push_card(card("a", &[]));
    d.push_card(card("b", &["x"]));
    d.push_card(card("a", &["filled"]));
    d.push_card(card("b", &["other"]));
    assert_eq!(ids(&d), vec!["a", "b"]);
    assert_eq!(d.cards[0].lines, vec!["filled"]);
    assert_eq!(d.cards[1].lines, vec!["x"]);
}

#[test]
fn ensure_endpoint_adds_a_reference_card_once() {
    let mut d = CardDiagram::new("t".to_owned());
    d.push_card(card("a", &[]));
    d.ensure_endpoint("a");
    d.ensure_endpoint("svc.api");
    d.ensure_endpoint("svc.api");
    assert_eq!(ids(&d), vec!["a", "svc.api"]);
    assert_eq!(d.cards[1].title, "api");
    assert_eq!(d.cards[1].kind, "REFERENCE");
    assert_eq!(d.cards[1].color_slot, 1);
    assert!(d.cards[1].lines.is_empty());
}

#[test]
fn deduplicate_keeps_first_occurrences_in_order() {
    let mut d = CardDiagram::new("t".to_owned());
    d.cards = vec![card("a", &["1"]), card("b", &[]), card("a", &["2"]), card("c", &[]), card("b", &[])];
    deduplicate_cards(&mut d);
    assert_eq!(ids(&d), vec!["a", "b", "c"]);
    assert_eq!(d.cards[0].lines, vec!["1"]);
}

#[test]
fn an_empty_diagram_gets_the_placeholder_card() {
    let mut d = CardDiagram::new("t".to_owned());
    prepare_cards(&mut d);
    assert_eq!(ids(&d), vec!["empty"]);
    assert_eq!(d.cards[0].title, "Empty diagram");
    assert_eq!(d.cards[0].kind, "NO ELEMENTS");
    assert_eq!(d.cards[0].lines, vec!["The AST contains no renderable elements."]);
}

#[test]
fn connector_endpoints_all_name_cards_afterwards() {
    let mut d = CardDiagram::new("t".to_owned());
    d.push_card(card("a", &[]));
    d.connectors.push(Connector {
        from: "a".to_owned(),
        to: "x.y".to_owned(),
        label: None,
        kind: ConnectorKind::Directed,
        dashed: false,
    });
    d.connectors.push(Connector {
        from: "z".to_owned(),
        to: "a".to_owned(),
        label: None,
        kind: ConnectorKind::Directed,
        dashed: false,
    });
    ensure_connector_endpoints(&mut d);
    assert_eq!(ids(&d), vec!["a", "x.y", "z"]);
    for c in &d.connectors {
        assert!(d.cards.iter().any(|card| card.id == c.from));
        assert!(d.cards.iter().any(|card| card.id == c.to));
    }
}

#[test]
fn arrowheads_follow_the_connector_kind() {
    assert_eq!(arrowhead_ends(ConnectorKind::Directed), (true, false));
    assert_eq!(arrowhead_ends(ConnectorKind::Reverse), (false, true));
    assert_eq!(arrowhead_ends(ConnectorKind::Bidirectional), (true, true));
    assert_eq!(arrowhead_ends(ConnectorKind::Undirected), (false, false));
}

#[test]
fn connector_labels_skip_empty_text_and_truncate() {
    let mut c = Connector {
        from: "a".to_owned(),
        to: "b".to_owned(),
        label: Some(String::new()),
        kind: ConnectorKind::Directed,
        dashed: false,
    };
    assert_eq!(connector_label(&c), None);
    c.label = Some("x".repeat(40));
    assert_eq!(connector_label(&c), Some(format!("{}…", "x".repeat(33))));
    c.label = None;
    assert_eq!(connector_label(&c), None);
}

#[test]
fn grid_of_five_cards_has_three_columns() {
    let layout = layout_grid(&vec![0, 2, 1, 0, 3]);
    assert_eq!(layout.columns, 3);
    assert_eq!(layout.rows, 2);
    assert_eq!(layout.width, 42 * 2 + 3 * 258 + 2 * 92);
    // Row heights: max(97, 116, 97) = 116 and max(97, 135) = 135.
    assert_eq!(layout.height, 72 + 42 + 116 + 135 + 82 + 42);
    assert_eq!(layout.rects[0], GridRect { x: 42, y: 72, width: 258, height: 97 });
    assert_eq!(layout.rects[2], GridRect { x: 742, y: 72, width: 258, height: 97 });
    assert_eq!(layout.rects[4], GridRect { x: 392, y: 72 + 116 + 82, width: 258, height: 135 });
}

#[test]
fn grid_columns_never_exceed_four() {
    let layout = layout_grid(&vec![1; 17]);
    assert_eq!(layout.columns, 4);
    assert_eq!(layout.rows, 5);
    assert_eq!(layout.rects.len(), 17);
    let single = layout_grid(&vec![0]);
    assert_eq!(single.columns, 1);
    assert_eq!(single.width, 342);
    assert_eq!(single.height, 72 + 42 + 97 + 42);
}

#[test]
fn grid_cards_never_overlap_and_stay_on_the_canvas() {
    let counts: Vec<usize> = (0..23).map(|i| (i * 7) % 5).collect();
    let layout = layout_grid(&counts);
    for (i, a) in layout.rects.iter().enumerate() {
        assert!(a.x + a.width <= layout.width);
        assert!(a.y + a.height <= layout.height);
        for b in layout.rects.iter().skip(i + 1) {
            let apart = a.x + a.width <= b.x
                || b.x + b.width <= a.x
                || a.y + a.height <= b.y
                || b.y + b.height <= a.y;
            assert!(apart);
        }
    }
}

#[test]
fn plan_wraps_card_bodies_at_thirty_four_columns() {
    let mut d = CardDiagram::new("t".to_owned());
    d.push_card(card(
        "a",
        &["a fairly long body line that has to wrap somewhere", ""],
    ));
    let plan = plan_cards(&mut d).expect("small grid");
    assert_eq!(
        plan.wrapped[0],
        vec!["a fairly long body line that has", "to wrap somewhere", ""]
    );
    assert_eq!(plan.layout.rects[0].height, 78 + 3 * 19);
}
