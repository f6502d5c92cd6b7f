use diagram_render_rs::renderers::wavedrom::{
    edge_outcome, edge_parts, flatten_lanes, lane_nodes, max_cells, register_bit_labels, register_fits,
    register_total_bits, wave_steps, LaneView, LevelPos, WaveGroup, WaveLane, WaveSignalItem,
    WaveStep,
};

fn lane(name: &str, wave: Option<&str>) -> WaveLane {
    WaveLane {
        name: Some(name.to_owned()),
        wave: wave.map(str::to_owned),
        data: Vec::new(),
        node: None,
    }
}

#[test]
fn edge_parser_separates_node_names_from_the_label() {
    assert_eq!(edge_parts("a~>b transfer"), Some(('a', 'b', "transfer")));
    assert_eq!(edge_parts("a-b"), Some(('a', 'b', "")));
    assert_eq!(edge_parts("a"), None);
}

#[test]
fn edge_label_is_trimmed_on_both_sides() {
    assert_eq!(edge_parts("  x |-> y   two words  "), Some(('x', 'y', "two words")));
    assert_eq!(edge_parts("~>"), None);
}

#[test]
fn edges_need_two_marked_nodes() {
    let known = vec!['a', 'b'];
    assert_eq!(edge_outcome("a~>b transfer", &known), Ok(('a', 'b', "transfer".to_owned())));
    assert_eq!(
        edge_outcome("a", &known),
        Err("WaveDrom edge `a` has no two node labels".to_owned())
    );
    assert_eq!(
        edge_outcome("a->c", &known),
        Err("WaveDrom edge `a->c` references an unknown node".to_owned())
    );
    assert_eq!(
        edge_outcome("a-b", &Vec::new()),
        Err("WaveDrom edge `a-b` references an unknown node".to_owned())
    );
}

#[test]
fn negative_clock_continuation_keeps_its_polarity() {
    let steps = wave_steps("n.", 2, 0);
    assert_eq!(
        steps,
        vec![WaveStep::Clock { inverted: true }, WaveStep::Clock { inverted: true }]
    );
}

#[test]
fn positive_clock_and_levels() {
    let steps = wave_steps("p.01.x=z", 8, 1);
    assert_eq!(
        steps,
        vec![
            WaveStep::Clock { inverted: false },
            WaveStep::Clock { inverted: false },
            WaveStep::Level { from: LevelPos::Mid, to: LevelPos::Low },
            WaveStep::Level { from: LevelPos::Low, to: LevelPos::High },
            WaveStep::Level { from: LevelPos::High, to: LevelPos::High },
            WaveStep::Unknown,
            WaveStep::Data { label: Some(0) },
            WaveStep::HighZ,
        ]
    );
}

#[test]
fn waves_are_cut_at_the_cell_count_and_data_labels_run_out() {
    let steps = wave_steps("==3=", 3, 2);
    assert_eq!(
        steps,
        vec![
            WaveStep::Data { label: Some(0) },
            WaveStep::Data { label: Some(1) },
            WaveStep::Data { label: None },
        ]
    );
    assert_eq!(
        wave_steps("?", 4, 0),
        vec![WaveStep::Level { from: LevelPos::Low, to: LevelPos::Mid }]
    );
}

#[test]
fn nested_groups_flatten_with_their_innermost_label() {
    let items = vec![
        WaveSignalItem::Lane(lane("clk", Some("p....."))),
        WaveSignalItem::Group(WaveGroup {
            label: "bus".to_owned(),
            items: vec![
                WaveSignalItem::Lane(lane("req", Some("01.."))),
                WaveSignalItem::Group(WaveGroup {
                    label: "inner".to_owned(),
                    items: vec![WaveSignalItem::Lane(lane("ack", None))],
                }),
            ],
        }),
    ];
    let mut out: Vec<LaneView> = Vec::new();
    flatten_lanes(&items, None, &mut out);
    let summary: Vec<(Option<String>, Option<String>)> = out
        .iter()
        .map(|view| (view.group.clone(), view.lane.name.clone()))
        .collect();
    assert_eq!(
        summary,
        vec![
            (None, Some("clk".to_owned())),
            (Some("bus".to_owned()), Some("req".to_owned())),
            (Some("inner".to_owned()), Some("ack".to_owned())),
        ]
    );
    assert_eq!(max_cells(&out), 6);
}

#[test]
fn cell_count_defaults_to_eight_and_is_at_least_four() {
    let lanes = vec![lane("a", None)];
    let views: Vec<LaneView> = lanes.iter().map(|l| LaneView { group: None, lane: l }).collect();
    assert_eq!(max_cells(&views), 8);
    let short = vec![lane("b", Some("01"))];
    let views: Vec<LaneView> = short.iter().map(|l| LaneView { group: None, lane: l }).collect();
    assert_eq!(max_cells(&views), 4);
}

#[test]
fn node_markers_skip_dots_and_whitespace() {
    assert_eq!(lane_nodes(".a. b.c", 6), vec![(1, 'a'), (4, 'b')]);
}

#[test]
fn register_fields_are_labelled_from_the_top_bit() {
    let fields = vec![Some(4), None, Some(3)];
    assert!(register_fits(&fields));
    assert_eq!(register_total_bits(&fields), 8);
    assert_eq!(register_bit_labels(&fields), vec!["7:4", "3", "2:0"]);
}

#[test]
fn zero_width_fields_still_take_a_bit() {
    let fields = vec![Some(0), Some(2)];
    assert!(register_fits(&fields));
    assert_eq!(register_total_bits(&fields), 2);
    assert_eq!(register_bit_labels(&fields), vec!["1", "0:0"]);
    assert!(!register_fits(&vec![Some(0), Some(0), Some(2)]));
    assert!(!register_fits(&vec![Some(u64::MAX), Some(1)]));
    assert_eq!(register_total_bits(&Vec::new()), 1);
}
