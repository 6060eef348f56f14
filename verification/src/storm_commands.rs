//! Interactive storm-sewer drafting commands, as step machines.
//!
//! `PlaceStructure`: pick a location, then read invert / rim / area / C from
//! the command line; commits a circle marker carrying the structure record.
//! `PlacePipe`: pick a start and an end structure (their centres become the
//! line's ends), then read diameter / n; commits a line carrying the pipe
//! record with the two structures' handles.
//!
//! Reals are IEEE-754 bit patterns; parsing the typed text into a number, and
//! formatting the prompts' defaults, is the caller's.

use vstd::prelude::*;

use crate::dim_override::{xvalues, ExtendedData, ExtendedDataRecord, XValue};
use crate::storm_sewer::{
    has_struct_record, pipe_values, pipe_xdata, struct_record_present, structure_values,
    structure_xdata, DrawnEntity, NodeKind, Shape, APP_PIPE, APP_STRUCT,
};

verus! {

/// `100.0`
pub const DEFAULT_INVERT: u64 = 0x4059000000000000;

/// `105.0`
pub const DEFAULT_RIM: u64 = 0x405a400000000000;

/// `1.0`
pub const DEFAULT_AREA: u64 = 0x3ff0000000000000;

/// `0.70`
pub const DEFAULT_C: u64 = 0x3fe6666666666666;

/// `3.0`: marker radius of an inlet.
pub const INLET_RADIUS: u64 = 0x4008000000000000;

/// `4.0`: marker radius of a junction.
pub const JUNCTION_RADIUS: u64 = 0x4010000000000000;

/// `6.0`: marker radius of an outfall.
pub const OUTFALL_RADIUS: u64 = 0x4018000000000000;

/// `1.25`
pub const DEFAULT_DIAMETER: u64 = 0x3ff4000000000000;

/// `0.013`
pub const DEFAULT_MANNING_N: u64 = 0x3f8a9fbe76c8b439;

/// `0.0`
pub const ZERO: u64 = 0;

/// An entity a command commits.
pub enum NewEntity {
    /// A circle centred at (`x`, `y`).
    Circle { x: u64, y: u64, radius: u64, extended_data: ExtendedData },
    /// A line from `start` to `end`.
    Line { start: (u64, u64), end: (u64, u64), extended_data: ExtendedData },
}

/// What a command asks of its host after an input.
pub enum CmdResult {
    /// Keep going; more input is needed.
    NeedPoint,
    /// Add the entity to the drawing and end the command.
    CommitAndExit(NewEntity),
    /// End the command without a change.
    Cancel,
}

/// The XDATA of a fresh entity holding one record.
pub open spec fn only_record(xd: ExtendedData, app: Seq<char>, values: Seq<XValue>) -> bool {
    &&& xd.records@.len() == 1
    &&& xd.records@[0].application_name@ == app
    &&& xvalues(xd.records@[0].values@) == values
}

fn single(r: ExtendedDataRecord) -> (xd: ExtendedData)
    ensures
        xd.records@ == seq![r],
{
    let mut records: Vec<ExtendedDataRecord> = Vec::new();
    records.push(r);
    proof {
        assert(records@ =~= seq![r]);
    }
    ExtendedData { records }
}

// ── Structure placement ─────────────────────────────────────────────────────

/// Where structure placement stands.
#[derive(Clone, Copy, Debug, PartialEq, Eq, Structural)]
pub enum SStep {
    Point,
    Invert,
    Rim,
    Area,
    C,
}

/// The structure placement command.
pub struct PlaceStructure {
    kind: NodeKind,
    radius: u64,
    x: u64,
    y: u64,
    invert: u64,
    rim: u64,
    area: u64,
    c: u64,
    step: SStep,
}

/// The structure placement command as plain values.
pub struct StructureState {
    pub kind: NodeKind,
    pub radius: u64,
    pub x: u64,
    pub y: u64,
    pub invert: u64,
    pub rim: u64,
    pub area: u64,
    pub c: u64,
    pub step: SStep,
}

/// What structure placement prompts for, with the current value.
pub enum StructurePrompt {
    PickLocation(NodeKind),
    Invert(u64),
    Rim(u64),
    Area(u64),
    C(u64),
}

impl View for PlaceStructure {
    type V = StructureState;

    closed spec fn view(&self) -> StructureState {
        StructureState {
            kind: self.kind,
            radius: self.radius,
            x: self.x,
            y: self.y,
            invert: self.invert,
            rim: self.rim,
            area: self.area,
            c: self.c,
            step: self.step,
        }
    }
}

/// A fresh placement of a `kind` structure drawn with radius `radius`.
pub open spec fn fresh_structure(kind: NodeKind, radius: u64) -> StructureState {
    StructureState {
        kind,
        radius,
        x: ZERO,
        y: ZERO,
        invert: DEFAULT_INVERT,
        rim: DEFAULT_RIM,
        area: DEFAULT_AREA,
        c: DEFAULT_C,
        step: SStep::Point,
    }
}

/// Whether `r` commits the marker of the structure `s` describes: a circle at
/// its location carrying its record (an outfall stores no area and no C).
pub open spec fn commits_structure(r: CmdResult, s: StructureState) -> bool {
    match r {
        CmdResult::CommitAndExit(NewEntity::Circle { x, y, radius, extended_data }) => {
            &&& x == s.x
            &&& y == s.y
            &&& radius == s.radius
            &&& only_record(
                extended_data,
                APP_STRUCT@,
                if s.kind == NodeKind::Outfall {
                    structure_values(s.kind, s.invert, s.rim, ZERO, ZERO)
                } else {
                    structure_values(s.kind, s.invert, s.rim, s.area, s.c)
                },
            )
        },
        _ => false,
    }
}

/// A typed value, or the current one when nothing usable was typed.
pub open spec fn or_current(v: Option<u64>, current: u64) -> u64 {
    match v {
        Some(x) => x,
        None => current,
    }
}

impl PlaceStructure {
    fn new(kind: NodeKind, radius: u64) -> (r: Self)
        ensures
            r@ == fresh_structure(kind, radius),
    {
        PlaceStructure {
            kind,
            radius,
            x: ZERO,
            y: ZERO,
            invert: DEFAULT_INVERT,
            rim: DEFAULT_RIM,
            area: DEFAULT_AREA,
            c: DEFAULT_C,
            step: SStep::Point,
        }
    }

    /// Places an inlet.
    pub fn inlet() -> (r: Self)
        ensures
            r@ == fresh_structure(NodeKind::Inlet, INLET_RADIUS),
    {
        Self::new(NodeKind::Inlet, INLET_RADIUS)
    }

    /// Places a junction.
    pub fn junction() -> (r: Self)
        ensures
            r@ == fresh_structure(NodeKind::Junction, JUNCTION_RADIUS),
    {
        Self::new(NodeKind::Junction, JUNCTION_RADIUS)
    }

    /// Places an outfall.
    pub fn outfall() -> (r: Self)
        ensures
            r@ == fresh_structure(NodeKind::Outfall, OUTFALL_RADIUS),
    {
        Self::new(NodeKind::Outfall, OUTFALL_RADIUS)
    }

    fn commit(&self) -> (r: CmdResult)
        ensures
            commits_structure(r, self@),
    {
        let (area, c) = if self.kind == NodeKind::Outfall {
            (ZERO, ZERO)
        } else {
            (self.area, self.c)
        };
        let xd = single(structure_xdata(self.kind, self.invert, self.rim, area, c));
        CmdResult::CommitAndExit(
            NewEntity::Circle { x: self.x, y: self.y, radius: self.radius, extended_data: xd },
        )
    }

    /// The command's name.
    pub fn name(&self) -> (r: &'static str)
        ensures
            r@ == "SS_STRUCTURE"@,
    {
        "SS_STRUCTURE"
    }

    /// What the command prompts for now.
    pub fn prompt(&self) -> (p: StructurePrompt)
        ensures
            p == match self@.step {
                SStep::Point => StructurePrompt::PickLocation(self@.kind),
                SStep::Invert => StructurePrompt::Invert(self@.invert),
                SStep::Rim => StructurePrompt::Rim(self@.rim),
                SStep::Area => StructurePrompt::Area(self@.area),
                SStep::C => StructurePrompt::C(self@.c),
            },
    {
        match self.step {
            SStep::Point => StructurePrompt::PickLocation(self.kind),
            SStep::Invert => StructurePrompt::Invert(self.invert),
            SStep::Rim => StructurePrompt::Rim(self.rim),
            SStep::Area => StructurePrompt::Area(self.area),
            SStep::C => StructurePrompt::C(self.c),
        }
    }

    /// A picked point: the location, while one is asked for.
    pub fn on_point(&mut self, x: u64, y: u64) -> (r: CmdResult)
        ensures
            r is NeedPoint,
            final(self)@ == if old(self)@.step == SStep::Point {
                StructureState { x, y, step: SStep::Invert, ..old(self)@ }
            } else {
                old(self)@
            },
    {
        if self.step == SStep::Point {
            self.x = x;
            self.y = y;
            self.step = SStep::Invert;
        }
        CmdResult::NeedPoint
    }

    /// Whether the command reads typed text now (after the location).
    pub fn wants_text_input(&self) -> (r: bool)
        ensures
            r == (self@.step != SStep::Point),
    {
        self.step != SStep::Point
    }

    /// A typed value (`None` when the text was not a number: the current
    /// value is kept). Invert, rim, area and C are read in turn; an outfall
    /// commits after the rim, other structures after C.
    pub fn on_text_input(&mut self, v: Option<u64>) -> (r: Option<CmdResult>)
        ensures
            match old(self)@.step {
                SStep::Point => r is None && final(self)@ == old(self)@,
                SStep::Invert => r is None && final(self)@ == (StructureState {
                    invert: or_current(v, old(self)@.invert),
                    step: SStep::Rim,
                    ..old(self)@
                }),
                SStep::Rim => if old(self)@.kind == NodeKind::Outfall {
                    final(self)@ == (StructureState { rim: or_current(v, old(self)@.rim), ..old(self)@ })
                        && (r matches Some(res) && commits_structure(res, final(self)@))
                } else {
                    r is None && final(self)@ == (StructureState {
                        rim: or_current(v, old(self)@.rim),
                        step: SStep::Area,
                        ..old(self)@
                    })
                },
                SStep::Area => r is None && final(self)@ == (StructureState {
                    area: or_current(v, old(self)@.area),
                    step: SStep::C,
                    ..old(self)@
                }),
                SStep::C => final(self)@ == (StructureState { c: or_current(v, old(self)@.c), ..old(self)@ })
                    && (r matches Some(res) && commits_structure(res, final(self)@)),
            },
    {
        match self.step {
            SStep::Point => None,
            SStep::Invert => {
                if let Some(x) = v {
                    self.invert = x;
                }
                self.step = SStep::Rim;
                None
            },
            SStep::Rim => {
                if let Some(x) = v {
                    self.rim = x;
                }
                if self.kind == NodeKind::Outfall {
                    Some(self.commit())
                } else {
                    self.step = SStep::Area;
                    None
                }
            },
            SStep::Area => {
                if let Some(x) = v {
                    self.area = x;
                }
                self.step = SStep::C;
                None
            },
            SStep::C => {
                if let Some(x) = v {
                    self.c = x;
                }
                Some(self.commit())
            },
        }
    }

    /// Enter cancels the command.
    pub fn on_enter(&mut self) -> (r: CmdResult)
        ensures
            r is Cancel,
            final(self)@ == old(self)@,
    {
        CmdResult::Cancel
    }
}

// ── Pipe placement ──────────────────────────────────────────────────────────

/// Where pipe placement stands.
#[derive(Clone, Copy, Debug, PartialEq, Eq, Structural)]
pub enum PStep {
    PickStart,
    PickEnd,
    Diameter,
    N,
}

/// The pipe placement command.
pub struct PlacePipe {
    step: PStep,
    start_handle: Option<u64>,
    start_xy: (u64, u64),
    end_handle: Option<u64>,
    end_xy: (u64, u64),
    pending: Option<u64>,
    diameter: u64,
    n: u64,
}

/// The pipe placement command as plain values.
pub struct PipeState {
    pub step: PStep,
    pub start_handle: Option<u64>,
    pub start_xy: (u64, u64),
    pub end_handle: Option<u64>,
    pub end_xy: (u64, u64),
    /// The handle of the entity just picked, until it is accepted.
    pub pending: Option<u64>,
    pub diameter: u64,
    pub n: u64,
}

/// What pipe placement prompts for, with the current value.
pub enum PipePrompt {
    PickStart,
    PickEnd,
    Diameter(u64),
    N(u64),
}

impl View for PlacePipe {
    type V = PipeState;

    closed spec fn view(&self) -> PipeState {
        PipeState {
            step: self.step,
            start_handle: self.start_handle,
            start_xy: self.start_xy,
            end_handle: self.end_handle,
            end_xy: self.end_xy,
            pending: self.pending,
            diameter: self.diameter,
            n: self.n,
        }
    }
}

/// A fresh pipe placement.
pub open spec fn fresh_pipe() -> PipeState {
    PipeState {
        step: PStep::PickStart,
        start_handle: None,
        start_xy: (ZERO, ZERO),
        end_handle: None,
        end_xy: (ZERO, ZERO),
        pending: None,
        diameter: DEFAULT_DIAMETER,
        n: DEFAULT_MANNING_N,
    }
}

/// Whether `r` commits the line `p` describes, between the two picked
/// centres, carrying the pipe record when both ends are known structures.
pub open spec fn commits_pipe(r: CmdResult, p: PipeState) -> bool {
    match r {
        CmdResult::CommitAndExit(NewEntity::Line { start, end, extended_data }) => {
            &&& start == p.start_xy
            &&& end == p.end_xy
            &&& match (p.start_handle, p.end_handle) {
                (Some(f), Some(t)) => only_record(
                    extended_data,
                    APP_PIPE@,
                    pipe_values(p.diameter, p.n, f, t),
                ),
                _ => extended_data.records@.len() == 0,
            }
        },
        _ => false,
    }
}

/// The state after the entity `e` was offered for the pick in progress: a
/// structure marker is taken as the start or the end; anything else drops
/// the pending pick.
pub open spec fn after_pick(p: PipeState, e: DrawnEntity) -> PipeState {
    match e.shape {
        Shape::Circle { x, y } => if has_struct_record(e.extended_data) {
            match p.step {
                PStep::PickStart => PipeState {
                    start_handle: p.pending,
                    pending: None,
                    start_xy: (x, y),
                    step: PStep::PickEnd,
                    ..p
                },
                PStep::PickEnd => PipeState {
                    end_handle: p.pending,
                    pending: None,
                    end_xy: (x, y),
                    step: PStep::Diameter,
                    ..p
                },
                _ => p,
            }
        } else {
            PipeState { pending: None, ..p }
        },
        _ => PipeState { pending: None, ..p },
    }
}

impl PlacePipe {
    /// A fresh pipe placement.
    pub fn new() -> (r: Self)
        ensures
            r@ == fresh_pipe(),
    {
        PlacePipe {
            step: PStep::PickStart,
            start_handle: None,
            start_xy: (ZERO, ZERO),
            end_handle: None,
            end_xy: (ZERO, ZERO),
            pending: None,
            diameter: DEFAULT_DIAMETER,
            n: DEFAULT_MANNING_N,
        }
    }

    fn commit(&self) -> (r: CmdResult)
        ensures
            commits_pipe(r, self@),
    {
        let xd = match (self.start_handle, self.end_handle) {
            (Some(f), Some(t)) => single(pipe_xdata(self.diameter, self.n, f, t)),
            _ => {
                let e = ExtendedData { records: Vec::new() };
                proof {
                    assert(e.records@.len() == 0);
                }
                e
            },
        };
        CmdResult::CommitAndExit(
            NewEntity::Line { start: self.start_xy, end: self.end_xy, extended_data: xd },
        )
    }

    /// The command's name.
    pub fn name(&self) -> (r: &'static str)
        ensures
            r@ == "SS_PIPE"@,
    {
        "SS_PIPE"
    }

    /// What the command prompts for now.
    pub fn prompt(&self) -> (p: PipePrompt)
        ensures
            p == match self@.step {
                PStep::PickStart => PipePrompt::PickStart,
                PStep::PickEnd => PipePrompt::PickEnd,
                PStep::Diameter => PipePrompt::Diameter(self@.diameter),
                PStep::N => PipePrompt::N(self@.n),
            },
    {
        match self.step {
            PStep::PickStart => PipePrompt::PickStart,
            PStep::PickEnd => PipePrompt::PickEnd,
            PStep::Diameter => PipePrompt::Diameter(self.diameter),
            PStep::N => PipePrompt::N(self.n),
        }
    }

    /// Whether the command asks for an entity pick now.
    pub fn needs_entity_pick(&self) -> (r: bool)
        ensures
            r == (self@.step == PStep::PickStart || self@.step == PStep::PickEnd),
    {
        self.step == PStep::PickStart || self.step == PStep::PickEnd
    }

    /// An entity was picked: its handle is kept until the entity itself is
    /// offered (see `inject_picked_entity`).
    pub fn on_entity_pick(&mut self, handle: u64) -> (r: CmdResult)
        ensures
            r is NeedPoint,
            final(self)@ == (PipeState { pending: Some(handle), ..old(self)@ }),
    {
        self.pending = Some(handle);
        CmdResult::NeedPoint
    }

    /// The picked entity: accepted as the start or end when it is a
    /// structure marker (a circle carrying a structure record).
    pub fn inject_picked_entity(&mut self, entity: &DrawnEntity)
        ensures
            final(self)@ == after_pick(old(self)@, *entity),
    {
        let is_struct = struct_record_present(&entity.extended_data);
        let center = match entity.shape {
            Shape::Circle { x, y } => Some((x, y)),
            _ => None,
        };
        if !is_struct || center.is_none() {
            self.pending = None;
            return;
        }
        let center = center.unwrap();
        match self.step {
            PStep::PickStart => {
                self.start_handle = self.pending.take();
                self.start_xy = center;
                self.step = PStep::PickEnd;
            },
            PStep::PickEnd => {
                self.end_handle = self.pending.take();
                self.end_xy = center;
                self.step = PStep::Diameter;
            },
            _ => {},
        }
    }

    /// Whether the command reads typed text now (diameter and n).
    pub fn wants_text_input(&self) -> (r: bool)
        ensures
            r == (self@.step == PStep::Diameter || self@.step == PStep::N),
    {
        self.step == PStep::Diameter || self.step == PStep::N
    }

    /// A typed value (`None` when the text was not a number: the current
    /// value is kept): the diameter, then n, which commits.
    pub fn on_text_input(&mut self, v: Option<u64>) -> (r: Option<CmdResult>)
        ensures
            match old(self)@.step {
                PStep::Diameter => r is None && final(self)@ == (PipeState {
                    diameter: or_current(v, old(self)@.diameter),
                    step: PStep::N,
                    ..old(self)@
                }),
                PStep::N => final(self)@ == (PipeState { n: or_current(v, old(self)@.n), ..old(self)@ })
                    && (r matches Some(res) && commits_pipe(res, final(self)@)),
                _ => r is None && final(self)@ == old(self)@,
            },
    {
        match self.step {
            PStep::Diameter => {
                if let Some(x) = v {
                    self.diameter = x;
                }
                self.step = PStep::N;
                None
            },
            PStep::N => {
                if let Some(x) = v {
                    self.n = x;
                }
                Some(self.commit())
            },
            _ => None,
        }
    }

    /// Points are ignored: ends are picked as entities.
    pub fn on_point(&mut self) -> (r: CmdResult)
        ensures
            r is NeedPoint,
            final(self)@ == old(self)@,
    {
        CmdResult::NeedPoint
    }

    /// Enter cancels the command.
    pub fn on_enter(&mut self) -> (r: CmdResult)
        ensures
            r is Cancel,
            final(self)@ == old(self)@,
    {
        CmdResult::Cancel
    }
}

impl Default for PlacePipe {
    fn default() -> (r: Self)
        ensures
            r@ == fresh_pipe(),
    {
        Self::new()
    }
}

} // verus!
