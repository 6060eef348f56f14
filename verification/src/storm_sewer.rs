//! Storm-sewer network data carried on drawing entities via XDATA, and the
//! reconstruction of the network from the drawn entities.
//!
//! Structures are circles tagged with the `STORMSEWER_STRUCT` record
//! [kind, invert, rim, area, C]; pipes are lines tagged with the
//! `STORMSEWER_PIPE` record [diameter, n, from-handle, to-handle].
//! Connectivity is by entity handle, so the drawn network round-trips through
//! the drawing file. Reals are held as their IEEE-754 bit patterns.

use vstd::prelude::*;

use crate::dim_override::{
    find_record, record_position, xvalue, xvalues, ExtendedData, ExtendedDataRecord, XDataValue,
    XValue,
};
use crate::text::{decimal, push_decimal, push_str, same_text};

verus! {

/// XDATA application name of a structure marker.
pub const APP_STRUCT: &'static str = "STORMSEWER_STRUCT";

/// XDATA application name of a pipe.
pub const APP_PIPE: &'static str = "STORMSEWER_PIPE";

/// What a structure of the network is.
#[derive(Clone, Copy, Debug, PartialEq, Eq, Structural)]
pub enum NodeKind {
    Inlet,
    Junction,
    Outfall,
}

/// The name a structure kind is stored under.
pub open spec fn kind_name(k: NodeKind) -> Seq<char> {
    match k {
        NodeKind::Inlet => "inlet"@,
        NodeKind::Junction => "junction"@,
        NodeKind::Outfall => "outfall"@,
    }
}

/// The kind a stored name stands for; anything unknown is an inlet.
pub open spec fn kind_of_name(s: Seq<char>) -> NodeKind {
    if s == "outfall"@ {
        NodeKind::Outfall
    } else if s == "junction"@ {
        NodeKind::Junction
    } else {
        NodeKind::Inlet
    }
}

/// The name a structure kind is stored under.
pub fn kind_str(k: NodeKind) -> (r: &'static str)
    ensures
        r@ == kind_name(k),
{
    match k {
        NodeKind::Inlet => "inlet",
        NodeKind::Junction => "junction",
        NodeKind::Outfall => "outfall",
    }
}

/// The kind a stored name stands for; anything unknown is an inlet.
pub fn parse_kind(s: &str) -> (r: NodeKind)
    ensures
        r == kind_of_name(s@),
{
    if same_text(s, "outfall") {
        NodeKind::Outfall
    } else if same_text(s, "junction") {
        NodeKind::Junction
    } else {
        NodeKind::Inlet
    }
}

/// Reading back a stored kind name gives the kind.
pub proof fn lemma_kind_name_round_trip(k: NodeKind)
    ensures
        kind_of_name(kind_name(k)) == k,
{
    reveal_strlit("inlet");
    reveal_strlit("junction");
    reveal_strlit("outfall");
    assert("inlet"@ != "outfall"@ ==> true);
    match k {
        NodeKind::Inlet => {
            assert("inlet"@[0] != "outfall"@[0]);
            assert("inlet"@[0] != "junction"@[0]);
        },
        NodeKind::Junction => {
            assert("junction"@[0] != "outfall"@[0]);
        },
        NodeKind::Outfall => {},
    }
}

// ── XDATA records ───────────────────────────────────────────────────────────

/// The values of a structure record.
pub open spec fn structure_values(kind: NodeKind, invert: u64, rim: u64, area: u64, c: u64) -> Seq<
    XValue,
> {
    seq![
        XValue::String(kind_name(kind)),
        XValue::Real(invert),
        XValue::Real(rim),
        XValue::Real(area),
        XValue::Real(c),
    ]
}

/// The values of a pipe record.
pub open spec fn pipe_values(diameter: u64, n: u64, from: u64, to: u64) -> Seq<XValue> {
    seq![XValue::Real(diameter), XValue::Real(n), XValue::Handle(from), XValue::Handle(to)]
}

fn owned(s: &str) -> (r: String)
    ensures
        r@ == s@,
{
    let mut r = String::new();
    push_str(&mut r, s);
    r
}

/// The XDATA record of a structure marker.
pub fn structure_xdata(kind: NodeKind, invert: u64, rim: u64, area: u64, c: u64) -> (r:
    ExtendedDataRecord)
    ensures
        r.application_name@ == APP_STRUCT@,
        xvalues(r.values@) == structure_values(kind, invert, rim, area, c),
{
    let mut values: Vec<XDataValue> = Vec::new();
    values.push(XDataValue::String(owned(kind_str(kind))));
    values.push(XDataValue::Real(invert));
    values.push(XDataValue::Real(rim));
    values.push(XDataValue::Real(area));
    values.push(XDataValue::Real(c));
    let r = ExtendedDataRecord { application_name: owned(APP_STRUCT), values };
    proof {
        assert(xvalues(r.values@) =~= structure_values(kind, invert, rim, area, c));
    }
    r
}

/// The XDATA record of a pipe, linking the two structures it connects by
/// handle.
pub fn pipe_xdata(diameter: u64, n: u64, from: u64, to: u64) -> (r: ExtendedDataRecord)
    ensures
        r.application_name@ == APP_PIPE@,
        xvalues(r.values@) == pipe_values(diameter, n, from, to),
{
    let mut values: Vec<XDataValue> = Vec::new();
    values.push(XDataValue::Real(diameter));
    values.push(XDataValue::Real(n));
    values.push(XDataValue::Handle(from));
    values.push(XDataValue::Handle(to));
    let r = ExtendedDataRecord { application_name: owned(APP_PIPE), values };
    proof {
        assert(xvalues(r.values@) =~= pipe_values(diameter, n, from, to));
    }
    r
}

// ── Drawn entities ──────────────────────────────────────────────────────────

/// The geometry of a drawn entity, as far as the network reads it.
pub enum Shape {
    /// A circle centred at (`x`, `y`).
    Circle { x: u64, y: u64 },
    /// A line of length `length`.
    Line { length: u64 },
    /// Any other entity.
    Other,
}

/// A drawn entity: its handle, its XDATA and its geometry.
pub struct DrawnEntity {
    pub handle: u64,
    pub extended_data: ExtendedData,
    pub shape: Shape,
}

/// A structure read off a tagged circle.
#[derive(Clone, Copy, Debug, PartialEq, Eq, Structural)]
pub struct StructRec {
    pub handle: u64,
    pub kind: NodeKind,
    pub invert: u64,
    pub rim: u64,
    pub area: u64,
    pub c: u64,
    pub x: u64,
    pub y: u64,
}

/// A pipe read off a tagged line.
#[derive(Clone, Copy, Debug, PartialEq, Eq, Structural)]
pub struct PipeRec {
    pub diameter: u64,
    pub n: u64,
    pub from: u64,
    pub to: u64,
    pub length: u64,
}

/// The values of the first record of application `app`, if there is one.
pub open spec fn record_values(xd: ExtendedData, app: Seq<char>) -> Option<Seq<XValue>> {
    let k = find_record(xd.records@, app);
    if k < xd.records@.len() {
        Some(xvalues(xd.records@[k].values@))
    } else {
        None
    }
}

/// The real a value holds, if it is a real.
pub open spec fn real_value(v: XValue) -> Option<u64> {
    match v {
        XValue::Real(x) => Some(x),
        _ => None,
    }
}

/// The handle a value holds, if it is a handle.
pub open spec fn handle_value(v: XValue) -> Option<u64> {
    match v {
        XValue::Handle(h) => Some(h),
        _ => None,
    }
}

/// The structure an entity stands for: a circle whose structure record holds
/// a kind name and four reals.
pub open spec fn structure_of(e: DrawnEntity) -> Option<StructRec> {
    match record_values(e.extended_data, APP_STRUCT@) {
        Some(vs) => if vs.len() < 5 {
            None
        } else {
            match (vs[0], e.shape) {
                (XValue::String(name), Shape::Circle { x, y }) => match (
                    real_value(vs[1]),
                    real_value(vs[2]),
                    real_value(vs[3]),
                    real_value(vs[4]),
                ) {
                    (Some(invert), Some(rim), Some(area), Some(c)) => Some(
                        StructRec { handle: e.handle, kind: kind_of_name(name), invert, rim, area, c, x, y },
                    ),
                    _ => None,
                },
                _ => None,
            }
        },
        None => None,
    }
}

/// The pipe an entity stands for: a line whose pipe record holds two reals
/// and two handles.
pub open spec fn pipe_of(e: DrawnEntity) -> Option<PipeRec> {
    match record_values(e.extended_data, APP_PIPE@) {
        Some(vs) => if vs.len() < 4 {
            None
        } else {
            match e.shape {
                Shape::Line { length } => match (
                    real_value(vs[0]),
                    real_value(vs[1]),
                    handle_value(vs[2]),
                    handle_value(vs[3]),
                ) {
                    (Some(diameter), Some(n), Some(from), Some(to)) => Some(
                        PipeRec { diameter, n, from, to, length },
                    ),
                    _ => None,
                },
                _ => None,
            }
        },
        None => None,
    }
}

/// Whether XDATA holds a structure record.
pub open spec fn has_struct_record(xd: ExtendedData) -> bool {
    find_record(xd.records@, APP_STRUCT@) < xd.records@.len()
}

/// Whether XDATA holds a structure record.
pub fn struct_record_present(xd: &ExtendedData) -> (r: bool)
    ensures
        r == has_struct_record(*xd),
{
    record_position(xd, APP_STRUCT) < xd.records.len()
}

fn real_in(v: &XDataValue) -> (r: Option<u64>)
    ensures
        r == real_value(xvalue(*v)),
{
    match v {
        XDataValue::Real(x) => Some(*x),
        _ => None,
    }
}

fn handle_in(v: &XDataValue) -> (r: Option<u64>)
    ensures
        r == handle_value(xvalue(*v)),
{
    match v {
        XDataValue::Handle(h) => Some(*h),
        _ => None,
    }
}

/// The structure an entity stands for, if it is a tagged circle.
pub fn read_structure(e: &DrawnEntity) -> (r: Option<StructRec>)
    ensures
        r == structure_of(*e),
{
    let k = record_position(&e.extended_data, APP_STRUCT);
    if k == e.extended_data.records.len() {
        return None;
    }
    let vals = &e.extended_data.records[k].values;
    let ghost vs = xvalues(vals@);
    if vals.len() < 5 {
        return None;
    }
    proof {
        assert(vs[0] == xvalue(vals@[0]));
        assert(vs[1] == xvalue(vals@[1]));
        assert(vs[2] == xvalue(vals@[2]));
        assert(vs[3] == xvalue(vals@[3]));
        assert(vs[4] == xvalue(vals@[4]));
    }
    let kind = match &vals[0] {
        XDataValue::String(s) => parse_kind(s.as_str()),
        _ => {
            return None;
        },
    };
    let (x, y) = match e.shape {
        Shape::Circle { x, y } => (x, y),
        _ => {
            return None;
        },
    };
    let invert = match real_in(&vals[1]) {
        Some(v) => v,
        None => {
            return None;
        },
    };
    let rim = match real_in(&vals[2]) {
        Some(v) => v,
        None => {
            return None;
        },
    };
    let area = match real_in(&vals[3]) {
        Some(v) => v,
        None => {
            return None;
        },
    };
    let c = match real_in(&vals[4]) {
        Some(v) => v,
        None => {
            return None;
        },
    };
    Some(StructRec { handle: e.handle, kind, invert, rim, area, c, x, y })
}

/// The pipe an entity stands for, if it is a tagged line.
pub fn read_pipe(e: &DrawnEntity) -> (r: Option<PipeRec>)
    ensures
        r == pipe_of(*e),
{
    let k = record_position(&e.extended_data, APP_PIPE);
    if k == e.extended_data.records.len() {
        return None;
    }
    let vals = &e.extended_data.records[k].values;
    let ghost vs = xvalues(vals@);
    if vals.len() < 4 {
        return None;
    }
    proof {
        assert(vs[0] == xvalue(vals@[0]));
        assert(vs[1] == xvalue(vals@[1]));
        assert(vs[2] == xvalue(vals@[2]));
        assert(vs[3] == xvalue(vals@[3]));
    }
    let length = match e.shape {
        Shape::Line { length } => length,
        _ => {
            return None;
        },
    };
    let diameter = match real_in(&vals[0]) {
        Some(v) => v,
        None => {
            return None;
        },
    };
    let n = match real_in(&vals[1]) {
        Some(v) => v,
        None => {
            return None;
        },
    };
    let from = match handle_in(&vals[2]) {
        Some(v) => v,
        None => {
            return None;
        },
    };
    let to = match handle_in(&vals[3]) {
        Some(v) => v,
        None => {
            return None;
        },
    };
    Some(PipeRec { diameter, n, from, to, length })
}

// ── The network ─────────────────────────────────────────────────────────────

/// A node of the reconstructed network.
pub struct Node {
    pub id: String,
    pub kind: NodeKind,
    pub invert: u64,
    pub rim: u64,
    pub area: u64,
    pub c: u64,
    pub x: u64,
    pub y: u64,
}

/// A pipe of the reconstructed network, between the nodes `from` and `to`.
pub struct Pipe {
    pub id: String,
    pub from: String,
    pub to: String,
    pub length: u64,
    pub diameter: u64,
    pub n: u64,
}

/// A reconstructed network.
pub struct Network {
    pub nodes: Vec<Node>,
    pub pipes: Vec<Pipe>,
}

/// A node as plain values.
pub struct NodeView {
    pub id: Seq<char>,
    pub kind: NodeKind,
    pub invert: u64,
    pub rim: u64,
    pub area: u64,
    pub c: u64,
    pub x: u64,
    pub y: u64,
}

/// A pipe as plain values.
pub struct PipeView {
    pub id: Seq<char>,
    pub from: Seq<char>,
    pub to: Seq<char>,
    pub length: u64,
    pub diameter: u64,
    pub n: u64,
}

/// A network as plain values.
pub struct NetworkView {
    pub nodes: Seq<NodeView>,
    pub pipes: Seq<PipeView>,
}

/// A node as plain values.
pub open spec fn node_view(n: Node) -> NodeView {
    NodeView {
        id: n.id@,
        kind: n.kind,
        invert: n.invert,
        rim: n.rim,
        area: n.area,
        c: n.c,
        x: n.x,
        y: n.y,
    }
}

/// A pipe as plain values.
pub open spec fn pipe_view(p: Pipe) -> PipeView {
    PipeView {
        id: p.id@,
        from: p.from@,
        to: p.to@,
        length: p.length,
        diameter: p.diameter,
        n: p.n,
    }
}

/// A reconstruction's outcome as plain values.
pub open spec fn network_view(r: Result<Network, String>) -> Result<NetworkView, Seq<char>> {
    match r {
        Ok(net) => Ok(
            NetworkView {
                nodes: net.nodes@.map_values(|n: Node| node_view(n)),
                pipes: net.pipes@.map_values(|p: Pipe| pipe_view(p)),
            },
        ),
        Err(e) => Err(e@),
    }
}

/// The structures among `es`, in order.
pub open spec fn structures_of(es: Seq<DrawnEntity>) -> Seq<StructRec>
    decreases es.len(),
{
    if es.len() == 0 {
        seq![]
    } else {
        match structure_of(es.last()) {
            Some(s) => structures_of(es.drop_last()).push(s),
            None => structures_of(es.drop_last()),
        }
    }
}

/// The pipes among `es` (entities that are not structures), in order.
pub open spec fn pipes_raw_of(es: Seq<DrawnEntity>) -> Seq<PipeRec>
    decreases es.len(),
{
    if es.len() == 0 {
        seq![]
    } else {
        match (structure_of(es.last()), pipe_of(es.last())) {
            (None, Some(p)) => pipes_raw_of(es.drop_last()).push(p),
            _ => pipes_raw_of(es.drop_last()),
        }
    }
}

/// The id of the `i`-th structure: `N1`, `N2`, …
pub open spec fn node_id(i: int) -> Seq<char> {
    "N"@ + decimal((i + 1) as nat)
}

/// The id of the `k`-th pipe: `P1`, `P2`, …
pub open spec fn pipe_id(k: int) -> Seq<char> {
    "P"@ + decimal((k + 1) as nat)
}

/// Index of the last structure with handle `h`, or -1 when none has it.
pub open spec fn last_with_handle(structs: Seq<StructRec>, h: u64) -> int
    decreases structs.len(),
{
    if structs.len() == 0 {
        -1
    } else if structs.last().handle == h {
        structs.len() - 1
    } else {
        last_with_handle(structs.drop_last(), h)
    }
}

/// The nodes for `structs`, named in order.
pub open spec fn nodes_of(structs: Seq<StructRec>) -> Seq<NodeView> {
    Seq::new(
        structs.len(),
        |i: int|
            NodeView {
                id: node_id(i),
                kind: structs[i].kind,
                invert: structs[i].invert,
                rim: structs[i].rim,
                area: runoff_of(structs[i].kind, structs[i].area),
                c: runoff_of(structs[i].kind, structs[i].c),
                x: structs[i].x,
                y: structs[i].y,
            },
    )
}

/// A structure's runoff value (area or C) as its node carries it: an outfall
/// takes no runoff, so it carries zero (the bits of `0.0`).
pub open spec fn runoff_of(kind: NodeKind, v: u64) -> u64 {
    match kind {
        NodeKind::Outfall => 0,
        _ => v,
    }
}

fn node_runoff(kind: NodeKind, v: u64) -> (r: u64)
    ensures
        r == runoff_of(kind, v),
{
    match kind {
        NodeKind::Outfall => 0,
        _ => v,
    }
}

/// The pipe links for `raw`: each pipe whose two handles name structures,
/// numbered by its place among all pipes.
pub open spec fn pipes_of(structs: Seq<StructRec>, raw: Seq<PipeRec>) -> Seq<PipeView>
    decreases raw.len(),
{
    if raw.len() == 0 {
        seq![]
    } else {
        let prev = pipes_of(structs, raw.drop_last());
        let p = raw.last();
        let f = last_with_handle(structs, p.from);
        let t = last_with_handle(structs, p.to);
        if f >= 0 && t >= 0 {
            prev.push(
                PipeView {
                    id: pipe_id(raw.len() - 1),
                    from: node_id(f),
                    to: node_id(t),
                    length: p.length,
                    diameter: p.diameter,
                    n: p.n,
                },
            )
        } else {
            prev
        }
    }
}

/// The error when no structure is drawn.
pub open spec fn no_structures_message() -> Seq<char> {
    "No storm-sewer structures in the drawing — place Inlet/Junction/Outfall first."@
}

/// The error when no pipe connects two structures.
pub open spec fn unconnected_message(found: nat, dangling: nat) -> Seq<char> {
    "No connected storm-sewer pipes ("@ + decimal(found) + " structure(s) found, "@ + decimal(
        dangling,
    ) + " dangling pipe(s)). Use Pipe Run to connect structures."@
}

/// The network the entities `es` describe, or why there is none.
pub open spec fn network_of(es: Seq<DrawnEntity>) -> Result<NetworkView, Seq<char>> {
    let structs = structures_of(es);
    let raw = pipes_raw_of(es);
    if structs.len() == 0 {
        Err(no_structures_message())
    } else if pipes_of(structs, raw).len() == 0 {
        Err(unconnected_message(structs.len(), raw.len()))
    } else {
        Ok(NetworkView { nodes: nodes_of(structs), pipes: pipes_of(structs, raw) })
    }
}

fn id_text(prefix: &str, i: usize) -> (r: String)
    requires
        i < usize::MAX,
    ensures
        r@ == prefix@ + decimal((i + 1) as nat),
{
    let mut r = String::new();
    push_str(&mut r, prefix);
    push_decimal(&mut r, (i + 1) as u64);
    r
}

fn last_with(structs: &Vec<StructRec>, h: u64) -> (r: Option<usize>)
    ensures
        match r {
            Some(i) => i == last_with_handle(structs@, h) && i < structs@.len() && i < usize::MAX,
            None => last_with_handle(structs@, h) == -1,
        },
{
    let mut i: usize = structs.len();
    proof {
        assert(structs@.take(i as int) =~= structs@);
    }
    while i > 0 && structs[i - 1].handle != h
        invariant
            i <= structs@.len(),
            last_with_handle(structs@.take(i as int), h) == last_with_handle(structs@, h),
        decreases i,
    {
        proof {
            let t = structs@.take(i as int);
            assert(t.drop_last() =~= structs@.take(i - 1));
            assert(t.last() == structs@[i - 1]);
        }
        i = i - 1;
    }
    if i == 0 {
        proof {
            assert(structs@.take(0) =~= Seq::<StructRec>::empty());
        }
        None
    } else {
        proof {
            let t = structs@.take(i as int);
            assert(t.last() == structs@[i - 1]);
        }
        Some(i - 1)
    }
}

/// The storm-sewer network the drawn entities describe. Structures become
/// nodes named `N1`, `N2`, … in encounter order; pipes become links between
/// the nodes whose handles their XDATA names (the last structure with a
/// handle wins), named `P1`, `P2`, … by their place among all pipes. An error
/// when no structure is drawn, or when no pipe connects two structures.
pub fn network_from_entities(entities: &[DrawnEntity]) -> (r: Result<Network, String>)
    ensures
        network_view(r) == network_of(entities@),
{
    let ghost es = entities@;
    let mut structs: Vec<StructRec> = Vec::new();
    let mut raw: Vec<PipeRec> = Vec::new();
    let mut i: usize = 0;
    proof {
        assert(es.take(0) =~= Seq::<DrawnEntity>::empty());
    }
    while i < entities.len()
        invariant
            es == entities@,
            i <= es.len(),
            structs@ == structures_of(es.take(i as int)),
            raw@ == pipes_raw_of(es.take(i as int)),
        decreases es.len() - i,
    {
        proof {
            assert(es.take(i + 1).drop_last() =~= es.take(i as int));
            assert(es.take(i + 1).last() == es[i as int]);
        }
        match read_structure(&entities[i]) {
            Some(s) => {
                structs.push(s);
            },
            None => {
                match read_pipe(&entities[i]) {
                    Some(p) => {
                        raw.push(p);
                    },
                    None => {},
                }
            },
        }
        i = i + 1;
    }
    proof {
        assert(es.take(es.len() as int) =~= es);
    }
    if structs.len() == 0 {
        return Err(owned("No storm-sewer structures in the drawing — place Inlet/Junction/Outfall first."));
    }
    let mut nodes: Vec<Node> = Vec::new();
    let mut j: usize = 0;
    while j < structs.len()
        invariant
            j <= structs@.len(),
            structs@ == structures_of(es),
            nodes@.map_values(|n: Node| node_view(n)) == nodes_of(structs@).take(j as int),
        decreases structs@.len() - j,
    {
        let s = structs[j];
        let ghost before = nodes@.map_values(|n: Node| node_view(n));
        nodes.push(
            Node {
                id: id_text("N", j),
                kind: s.kind,
                invert: s.invert,
                rim: s.rim,
                area: node_runoff(s.kind, s.area),
                c: node_runoff(s.kind, s.c),
                x: s.x,
                y: s.y,
            },
        );
        proof {
            assert(nodes@.map_values(|n: Node| node_view(n)) =~= before.push(nodes_of(structs@)[j as int]));
            assert(nodes_of(structs@).take(j + 1) =~= nodes_of(structs@).take(j as int).push(
                nodes_of(structs@)[j as int],
            ));
        }
        j = j + 1;
    }
    proof {
        assert(nodes_of(structs@).take(structs@.len() as int) =~= nodes_of(structs@));
    }
    let mut pipes: Vec<Pipe> = Vec::new();
    let mut dropped: usize = 0;
    let mut k: usize = 0;
    proof {
        assert(raw@.take(0) =~= Seq::<PipeRec>::empty());
    }
    while k < raw.len()
        invariant
            k <= raw@.len(),
            structs@ == structures_of(es),
            raw@ == pipes_raw_of(es),
            pipes@.map_values(|p: Pipe| pipe_view(p)) == pipes_of(structs@, raw@.take(k as int)),
            dropped + pipes@.len() == k,
        decreases raw@.len() - k,
    {
        let p = raw[k];
        proof {
            assert(raw@.take(k + 1).drop_last() =~= raw@.take(k as int));
            assert(raw@.take(k + 1).last() == p);
        }
        match (last_with(&structs, p.from), last_with(&structs, p.to)) {
            (Some(f), Some(t)) => {
                let ghost before = pipes@.map_values(|p: Pipe| pipe_view(p));
                pipes.push(
                    Pipe {
                        id: id_text("P", k),
                        from: id_text("N", f),
                        to: id_text("N", t),
                        length: p.length,
                        diameter: p.diameter,
                        n: p.n,
                    },
                );
                proof {
                    assert(pipes@.map_values(|p: Pipe| pipe_view(p)) =~= before.push(
                        pipe_view(pipes@.last()),
                    ));
                }
            },
            _ => {
                dropped = dropped + 1;
            },
        }
        k = k + 1;
    }
    proof {
        assert(raw@.take(raw@.len() as int) =~= raw@);
    }
    if pipes.len() == 0 {
        let mut msg = String::new();
        push_str(&mut msg, "No connected storm-sewer pipes (");
        push_decimal(&mut msg, structs.len() as u64);
        push_str(&mut msg, " structure(s) found, ");
        push_decimal(&mut msg, dropped as u64);
        push_str(&mut msg, " dangling pipe(s)). Use Pipe Run to connect structures.");
        return Err(msg);
    }
    Ok(Network { nodes, pipes })
}

// ── Laws ────────────────────────────────────────────────────────────────────

/// A circle whose first structure record was written by `structure_xdata`
/// reads back as the structure written, at the circle's centre.
pub proof fn lemma_structure_read_back(
    e: DrawnEntity,
    kind: NodeKind,
    invert: u64,
    rim: u64,
    area: u64,
    c: u64,
    x: u64,
    y: u64,
)
    requires
        record_values(e.extended_data, APP_STRUCT@) == Some(
            structure_values(kind, invert, rim, area, c),
        ),
        e.shape == (Shape::Circle { x, y }),
    ensures
        structure_of(e) == Some(StructRec { handle: e.handle, kind, invert, rim, area, c, x, y }),
{
    lemma_kind_name_round_trip(kind);
}

/// A line whose first pipe record was written by `pipe_xdata` reads back as
/// the pipe written, with the line's length.
pub proof fn lemma_pipe_read_back(
    e: DrawnEntity,
    diameter: u64,
    n: u64,
    from: u64,
    to: u64,
    length: u64,
)
    requires
        record_values(e.extended_data, APP_PIPE@) == Some(pipe_values(diameter, n, from, to)),
        e.shape == (Shape::Line { length }),
    ensures
        pipe_of(e) == Some(PipeRec { diameter, n, from, to, length }),
{
}

proof fn lemma_last_with_handle(structs: Seq<StructRec>, h: u64)
    ensures
        -1 <= last_with_handle(structs, h) < structs.len(),
        last_with_handle(structs, h) >= 0 ==> structs[last_with_handle(structs, h)].handle == h,
    decreases structs.len(),
{
    if structs.len() > 0 && structs.last().handle != h {
        lemma_last_with_handle(structs.drop_last(), h);
    }
}

proof fn lemma_pipes_connect(structs: Seq<StructRec>, raw: Seq<PipeRec>)
    ensures
        forall|k: int|
            0 <= k < pipes_of(structs, raw).len() ==> exists|i: int, j: int|
                0 <= i < structs.len() && 0 <= j < structs.len() && (#[trigger] pipes_of(
                    structs,
                    raw,
                )[k]).from == node_id(i) && pipes_of(structs, raw)[k].to == node_id(j),
    decreases raw.len(),
{
    if raw.len() > 0 {
        let init = raw.drop_last();
        lemma_pipes_connect(structs, init);
        let p = raw.last();
        lemma_last_with_handle(structs, p.from);
        lemma_last_with_handle(structs, p.to);
        let ps = pipes_of(structs, raw);
        let prev = pipes_of(structs, init);
        assert forall|k: int| 0 <= k < ps.len() implies exists|i: int, j: int|
            0 <= i < structs.len() && 0 <= j < structs.len() && (#[trigger] ps[k]).from == node_id(i)
                && ps[k].to == node_id(j) by {
            if k < prev.len() {
                assert(ps[k] == prev[k]);
                let (i, j) = choose|i: int, j: int|
                    0 <= i < structs.len() && 0 <= j < structs.len() && (#[trigger] prev[k]).from
                        == node_id(i) && prev[k].to == node_id(j);
                assert(ps[k].from == node_id(i));
            } else {
                let i = last_with_handle(structs, p.from);
                let j = last_with_handle(structs, p.to);
                assert(ps[k].from == node_id(i));
                assert(ps[k].to == node_id(j));
            }
        }
    }
}

/// Pipe `k` of `net` runs between two of its nodes.
pub open spec fn pipe_joins(net: NetworkView, k: int) -> bool {
    exists|i: int, j: int|
        0 <= i < net.nodes.len() && 0 <= j < net.nodes.len() && #[trigger] net.nodes[i].id
            == net.pipes[k].from && #[trigger] net.nodes[j].id == net.pipes[k].to
}

/// Every pipe of `net` runs between two of its nodes.
pub open spec fn pipes_join_nodes(net: NetworkView) -> bool {
    forall|k: int| 0 <= k < net.pipes.len() ==> #[trigger] pipe_joins(net, k)
}

/// In a reconstructed network every pipe runs between two of its nodes.
pub proof fn lemma_network_is_connected(es: Seq<DrawnEntity>)
    ensures
        network_of(es) matches Ok(net) ==> pipes_join_nodes(net),
{
    let structs = structures_of(es);
    let raw = pipes_raw_of(es);
    lemma_pipes_connect(structs, raw);
    if let Ok(net) = network_of(es) {
        assert forall|k: int| 0 <= k < net.pipes.len() implies #[trigger] pipe_joins(net, k) by {
            assert(pipes_of(structs, raw)[k] == net.pipes[k]);
            let (i, j) = choose|i: int, j: int|
                0 <= i < structs.len() && 0 <= j < structs.len() && (#[trigger] pipes_of(
                    structs,
                    raw,
                )[k]).from == node_id(i) && pipes_of(structs, raw)[k].to == node_id(j);
            assert(net.nodes[i].id == net.pipes[k].from);
            assert(net.nodes[j].id == net.pipes[k].to);
        }
    }
}


/// Every node of the network carries what its structure's record holds: the
/// `i`-th node, named `N` and `i + 1`, comes from the `i`-th structure drawn,
/// with its kind, invert,
/// rim and position, and, unless it is an outfall, its drainage area and
/// runoff coefficient; an outfall takes no runoff and carries zero for both.
pub proof fn lemma_nodes_carry_their_structures(es: Seq<DrawnEntity>)
    ensures
        network_of(es) matches Ok(net) ==> {
            let structs = structures_of(es);
            &&& net.nodes.len() == structs.len()
            &&& forall|i: int|
                0 <= i < structs.len() ==> {
                    let n = #[trigger] net.nodes[i];
                    let st = structs[i];
                    &&& n.id == "N"@ + decimal((i + 1) as nat)
                    &&& n.kind == st.kind
                    &&& n.invert == st.invert
                    &&& n.rim == st.rim
                    &&& n.x == st.x
                    &&& n.y == st.y
                    &&& st.kind != NodeKind::Outfall ==> n.area == st.area && n.c == st.c
                    &&& st.kind == NodeKind::Outfall ==> n.area == 0 && n.c == 0
                }
        },
{
}

} // verus!
