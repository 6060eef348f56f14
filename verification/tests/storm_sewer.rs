use h7cad::dim_override::{ExtendedData, ExtendedDataRecord, XDataValue};
use h7cad::storm_sewer::{
    kind_str, network_from_entities, parse_kind, pipe_xdata, read_pipe, read_structure, structure_xdata,
    DrawnEntity, NodeKind, Shape, APP_PIPE, APP_STRUCT,
};

fn structure(h: u64, kind: NodeKind, x: f64, invert: f64) -> DrawnEntity {
    let rec = structure_xdata(
        kind,
        invert.to_bits(),
        (invert + 6.0).to_bits(),
        1.0f64.to_bits(),
        0.7f64.to_bits(),
    );
    DrawnEntity {
        handle: h,
        extended_data: ExtendedData { records: vec![rec] },
        shape: Shape::Circle { x: x.to_bits(), y: 0.0f64.to_bits() },
    }
}

fn pipe(from: u64, to: u64, x1: f64, x2: f64) -> DrawnEntity {
    let rec = pipe_xdata(1.5f64.to_bits(), 0.013f64.to_bits(), from, to);
    DrawnEntity {
        handle: 0,
        extended_data: ExtendedData { records: vec![rec] },
        shape: Shape::Line { length: (x2 - x1).abs().to_bits() },
    }
}

#[test]
fn reconstructs_network_from_tagged_entities() {
    let ents = vec![
        structure(1, NodeKind::Inlet, 0.0, 104.0),
        structure(2, NodeKind::Outfall, 100.0, 100.0),
        pipe(1, 2, 0.0, 100.0),
    ];
    let net = network_from_entities(&ents).unwrap();
    assert_eq!(net.nodes.len(), 2);
    assert_eq!(net.pipes.len(), 1);
    assert_eq!(net.pipes[0].from, "N1");
    assert_eq!(net.pipes[0].to, "N2");
    assert!((f64::from_bits(net.pipes[0].length) - 100.0).abs() < 1e-6);
    assert!((f64::from_bits(net.pipes[0].diameter) - 1.5).abs() < 1e-9);
}

#[test]
fn errors_when_no_structures() {
    let ents: Vec<DrawnEntity> = vec![];
    assert!(network_from_entities(&ents).is_err());
}

#[test]
fn dangling_pipe_is_reported() {
    let ents = vec![
        structure(1, NodeKind::Inlet, 0.0, 104.0),
        pipe(1, 99, 0.0, 100.0), // 99 doesn't exist
    ];
    assert!(network_from_entities(&ents).is_err());
}

#[test]
fn error_messages_name_the_counts() {
    let none: Vec<DrawnEntity> = vec![];
    assert_eq!(
        network_from_entities(&none).err().unwrap(),
        "No storm-sewer structures in the drawing — place Inlet/Junction/Outfall first."
    );
    let ents = vec![
        structure(1, NodeKind::Inlet, 0.0, 104.0),
        structure(2, NodeKind::Junction, 50.0, 102.0),
        pipe(1, 99, 0.0, 100.0),
        pipe(98, 2, 0.0, 100.0),
    ];
    assert_eq!(
        network_from_entities(&ents).err().unwrap(),
        "No connected storm-sewer pipes (2 structure(s) found, 2 dangling pipe(s)). Use Pipe Run to connect structures."
    );
}

#[test]
fn nodes_carry_their_structure_data() {
    let ents = vec![
        structure(7, NodeKind::Junction, 25.0, 101.5),
        structure(8, NodeKind::Outfall, 75.0, 99.0),
        pipe(7, 8, 25.0, 75.0),
    ];
    let net = network_from_entities(&ents).unwrap();
    assert_eq!(net.nodes[0].id, "N1");
    assert_eq!(net.nodes[0].kind, NodeKind::Junction);
    assert_eq!(f64::from_bits(net.nodes[0].invert), 101.5);
    assert_eq!(f64::from_bits(net.nodes[0].rim), 107.5);
    assert_eq!(f64::from_bits(net.nodes[0].x), 25.0);
    assert_eq!(net.nodes[1].id, "N2");
    assert_eq!(net.nodes[1].kind, NodeKind::Outfall);
    assert_eq!(f64::from_bits(net.pipes[0].n), 0.013);
}

#[test]
fn pipes_are_numbered_among_all_pipes() {
    let ents = vec![
        structure(1, NodeKind::Inlet, 0.0, 104.0),
        pipe(1, 42, 0.0, 10.0),
        structure(2, NodeKind::Outfall, 100.0, 100.0),
        pipe(2, 1, 100.0, 0.0),
    ];
    let net = network_from_entities(&ents).unwrap();
    assert_eq!(net.pipes.len(), 1);
    assert_eq!(net.pipes[0].id, "P2");
    assert_eq!(net.pipes[0].from, "N2");
    assert_eq!(net.pipes[0].to, "N1");
}

#[test]
fn untagged_or_misshaped_entities_are_ignored() {
    let plain_circle = DrawnEntity {
        handle: 5,
        extended_data: ExtendedData { records: vec![] },
        shape: Shape::Circle { x: 0, y: 0 },
    };
    assert!(read_structure(&plain_circle).is_none());
    let mut tagged_line = structure(6, NodeKind::Inlet, 0.0, 100.0);
    tagged_line.shape = Shape::Line { length: 1.0f64.to_bits() };
    assert!(read_structure(&tagged_line).is_none());
    let mut short = pipe(1, 2, 0.0, 1.0);
    short.extended_data.records[0].values.pop();
    assert!(read_pipe(&short).is_none());
    let mut wrong = pipe(1, 2, 0.0, 1.0);
    wrong.extended_data.records[0].values[2] = XDataValue::Integer16(1);
    assert!(read_pipe(&wrong).is_none());
}

#[test]
fn records_read_back_as_written() {
    let s = structure(3, NodeKind::Outfall, 12.0, 98.5);
    let r = read_structure(&s).unwrap();
    assert_eq!(r.handle, 3);
    assert_eq!(r.kind, NodeKind::Outfall);
    assert_eq!(f64::from_bits(r.invert), 98.5);
    assert_eq!(f64::from_bits(r.c), 0.7);
    let p = read_pipe(&pipe(3, 4, 0.0, 30.0)).unwrap();
    assert_eq!((p.from, p.to), (3, 4));
    assert_eq!(f64::from_bits(p.length), 30.0);
}

#[test]
fn records_name_their_application() {
    let r: ExtendedDataRecord = structure_xdata(NodeKind::Inlet, 0, 0, 0, 0);
    assert_eq!(r.application_name, APP_STRUCT);
    assert!(matches!(&r.values[0], XDataValue::String(s) if s == "inlet"));
    let p = pipe_xdata(0, 0, 1, 2);
    assert_eq!(p.application_name, APP_PIPE);
    assert!(matches!(p.values[3], XDataValue::Handle(2)));
}

#[test]
fn kind_names_round_trip() {
    for k in [NodeKind::Inlet, NodeKind::Junction, NodeKind::Outfall] {
        assert_eq!(parse_kind(kind_str(k)), k);
    }
    assert_eq!(kind_str(NodeKind::Junction), "junction");
    assert_eq!(parse_kind("manhole"), NodeKind::Inlet);
}
