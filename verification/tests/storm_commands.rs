use h7cad::dim_override::ExtendedData;
use h7cad::storm_commands::{
    CmdResult, NewEntity, PipePrompt, PlacePipe, PlaceStructure, StructurePrompt,
};
use h7cad::storm_sewer::{
    pipe_xdata, read_structure, structure_xdata, DrawnEntity, NodeKind, Shape, APP_PIPE, APP_STRUCT,
};

fn num(v: f64) -> Option<u64> {
    Some(v.to_bits())
}

fn has_record(xd: &ExtendedData, app: &str) -> bool {
    xd.records.iter().any(|r| r.application_name == app)
}

#[test]
fn structure_prompts_then_commits_tagged_circle() {
    let mut cmd = PlaceStructure::inlet();
    // pick a point
    assert!(matches!(cmd.on_point(10.0f64.to_bits(), 20.0f64.to_bits()), CmdResult::NeedPoint));
    assert!(cmd.wants_text_input());
    // invert, rim, area, then C completes
    assert!(cmd.on_text_input(num(104.0)).is_none()); // invert -> rim
    assert!(cmd.on_text_input(num(110.0)).is_none()); // rim -> area
    assert!(cmd.on_text_input(num(2.0)).is_none()); // area -> C
    match cmd.on_text_input(num(0.8)) {
        Some(CmdResult::CommitAndExit(NewEntity::Circle { x, extended_data, .. })) => {
            assert_eq!(f64::from_bits(x), 10.0);
            assert!(has_record(&extended_data, APP_STRUCT));
        }
        _ => panic!("expected CommitAndExit(Circle) with XDATA"),
    }
}

#[test]
fn outfall_skips_area_and_c() {
    let mut cmd = PlaceStructure::outfall();
    cmd.on_point(0.0f64.to_bits(), 0.0f64.to_bits());
    assert!(cmd.on_text_input(num(100.0)).is_none()); // invert -> rim
    // rim completes immediately for an outfall
    assert!(matches!(cmd.on_text_input(num(105.0)), Some(CmdResult::CommitAndExit(_))));
}

#[test]
fn pipe_connects_two_structures() {
    let mut cmd = PlacePipe::new();
    assert!(cmd.needs_entity_pick());
    // simulate picking the start structure
    let s1 = DrawnEntity {
        handle: 0,
        extended_data: ExtendedData {
            records: vec![structure_xdata(
                NodeKind::Inlet,
                100.0f64.to_bits(),
                105.0f64.to_bits(),
                1.0f64.to_bits(),
                0.7f64.to_bits(),
            )],
        },
        shape: Shape::Circle { x: 0.0f64.to_bits(), y: 0.0f64.to_bits() },
    };
    cmd.on_entity_pick(0);
    cmd.inject_picked_entity(&s1);
    // now picking the end structure
    let s2 = DrawnEntity {
        handle: 0,
        extended_data: ExtendedData {
            records: vec![structure_xdata(
                NodeKind::Outfall,
                99.0f64.to_bits(),
                104.0f64.to_bits(),
                0.0f64.to_bits(),
                0.0f64.to_bits(),
            )],
        },
        shape: Shape::Circle { x: 100.0f64.to_bits(), y: 0.0f64.to_bits() },
    };
    cmd.on_entity_pick(0);
    cmd.inject_picked_entity(&s2);
    assert!(cmd.wants_text_input(), "should be prompting diameter");
    assert!(cmd.on_text_input(num(1.5)).is_none()); // diameter -> n
    match cmd.on_text_input(num(0.013)) {
        Some(CmdResult::CommitAndExit(NewEntity::Line { start, end, .. })) => {
            assert_eq!(f64::from_bits(start.0), 0.0);
            assert_eq!(f64::from_bits(end.0), 100.0);
        }
        _ => panic!("expected CommitAndExit(Line)"),
    }
}

#[test]
fn structure_prompts_follow_the_steps() {
    let mut cmd = PlaceStructure::junction();
    assert_eq!(cmd.name(), "SS_STRUCTURE");
    assert!(matches!(cmd.prompt(), StructurePrompt::PickLocation(NodeKind::Junction)));
    assert!(!cmd.wants_text_input());
    assert!(cmd.on_text_input(num(1.0)).is_none());
    assert!(matches!(cmd.prompt(), StructurePrompt::PickLocation(_)));
    cmd.on_point(1, 2);
    assert!(matches!(cmd.prompt(), StructurePrompt::Invert(v) if f64::from_bits(v) == 100.0));
    cmd.on_text_input(None);
    assert!(matches!(cmd.prompt(), StructurePrompt::Rim(v) if f64::from_bits(v) == 105.0));
    cmd.on_text_input(num(108.0));
    assert!(matches!(cmd.prompt(), StructurePrompt::Area(v) if f64::from_bits(v) == 1.0));
    cmd.on_text_input(None);
    assert!(matches!(cmd.prompt(), StructurePrompt::C(v) if f64::from_bits(v) == 0.7));
    assert!(matches!(cmd.on_enter(), CmdResult::Cancel));
}

#[test]
fn committed_marker_reads_back_as_the_structure() {
    let mut cmd = PlaceStructure::outfall();
    cmd.on_point(5.0f64.to_bits(), 6.0f64.to_bits());
    cmd.on_text_input(None);
    match cmd.on_text_input(num(103.0)) {
        Some(CmdResult::CommitAndExit(NewEntity::Circle { x, y, radius, extended_data })) => {
            assert_eq!(f64::from_bits(radius), 6.0);
            let drawn = DrawnEntity { handle: 77, extended_data, shape: Shape::Circle { x, y } };
            let s = read_structure(&drawn).unwrap();
            assert_eq!(s.kind, NodeKind::Outfall);
            assert_eq!(f64::from_bits(s.invert), 100.0);
            assert_eq!(f64::from_bits(s.rim), 103.0);
            assert_eq!(s.area, 0);
            assert_eq!(s.c, 0);
            assert_eq!(f64::from_bits(s.y), 6.0);
        }
        _ => panic!("expected a committed circle"),
    }
}

#[test]
fn picking_a_non_structure_is_ignored() {
    let mut cmd = PlacePipe::default();
    let line = DrawnEntity {
        handle: 3,
        extended_data: ExtendedData { records: vec![pipe_xdata(0, 0, 1, 2)] },
        shape: Shape::Line { length: 0 },
    };
    cmd.on_entity_pick(3);
    cmd.inject_picked_entity(&line);
    assert!(cmd.needs_entity_pick());
    assert!(matches!(cmd.prompt(), PipePrompt::PickStart));
    let untagged = DrawnEntity {
        handle: 4,
        extended_data: ExtendedData { records: vec![] },
        shape: Shape::Circle { x: 0, y: 0 },
    };
    cmd.on_entity_pick(4);
    cmd.inject_picked_entity(&untagged);
    assert!(matches!(cmd.prompt(), PipePrompt::PickStart));
}

#[test]
fn committed_pipe_links_the_picked_handles() {
    let marker = |x: f64| DrawnEntity {
        handle: 0,
        extended_data: ExtendedData { records: vec![structure_xdata(NodeKind::Inlet, 0, 0, 0, 0)] },
        shape: Shape::Circle { x: x.to_bits(), y: 0 },
    };
    let mut cmd = PlacePipe::new();
    assert_eq!(cmd.name(), "SS_PIPE");
    cmd.on_entity_pick(11);
    cmd.inject_picked_entity(&marker(0.0));
    cmd.on_entity_pick(12);
    cmd.inject_picked_entity(&marker(40.0));
    assert!(matches!(cmd.prompt(), PipePrompt::Diameter(v) if f64::from_bits(v) == 1.25));
    cmd.on_text_input(None);
    assert!(matches!(cmd.prompt(), PipePrompt::N(v) if f64::from_bits(v) == 0.013));
    match cmd.on_text_input(None) {
        Some(CmdResult::CommitAndExit(NewEntity::Line { extended_data, .. })) => {
            assert!(has_record(&extended_data, APP_PIPE));
            let values = &extended_data.records[0].values;
            assert!(matches!(values[2], h7cad::dim_override::XDataValue::Handle(11)));
            assert!(matches!(values[3], h7cad::dim_override::XDataValue::Handle(12)));
        }
        _ => panic!("expected a committed line"),
    }
}
