//! ROTATE — its ribbon tool and the steps of the interactive command. With
//! objects selected, the user picks the rotation centre, then a reference
//! point (the 0° direction), then a destination point, or types the angle.
//! Angles and points are the caller's values, in floating point: the caller
//! measures the direction of a picked point seen from the centre, and turns
//! a sweep into a rotation.

use vstd::prelude::*;

use crate::text::{decimal, push_decimal, push_str};
use crate::tools::{rotate_tool, tool_command, ToolDef};

verus! {

/// The ribbon tool that starts ROTATE.
pub fn tool() -> (t: ToolDef)
    ensures
        t.id@ == "ROTATE"@,
        t.label@ == "Rotate"@,
        tool_command(t) == "ROTATE"@,
{
    rotate_tool()
}


/// Where ROTATE stands, over points `P` and angles `A`.
#[derive(Clone, Copy)]
pub enum RotateStep<P, A> {
    /// Waiting for the rotation centre.
    Center,
    /// Waiting for the reference point (or a typed angle).
    RefPoint { center: P },
    /// Waiting for the destination point (or a typed angle, or Enter).
    Angle { center: P, ref_angle: A },
}

/// What a ROTATE event leads to.
#[derive(Clone, Copy)]
pub enum RotateOutcome<P, A> {
    /// Another point is wanted.
    NeedPoint,
    /// Rotate the selection about `center` by the sweep from direction
    /// `from` to direction `to`.
    Sweep { center: P, from: A, to: A },
    /// Rotate the selection about `center` by the remembered default angle.
    ByDefault { center: P },
    /// The command ends without rotating.
    Cancel,
}

/// What the live preview draws at a step.
#[derive(Clone, Copy)]
pub enum RotatePreview<P, A> {
    /// Nothing.
    Nothing,
    /// A rubber band from the centre to the cursor.
    RubberBand { center: P },
    /// The selection rotated about `center` by the sweep from `ref_angle` to
    /// the cursor's direction.
    Ghosts { center: P, ref_angle: A },
}

/// The step ROTATE starts in.
pub fn rotate_start<P, A>() -> (r: RotateStep<P, A>)
    ensures
        r is Center,
{
    RotateStep::Center
}

/// The prompt at the first two steps (`count` objects selected); the angle
/// step's prompt shows angles and is the caller's.
pub open spec fn rotate_prompt_text<P, A>(step: RotateStep<P, A>, count: nat) -> Option<Seq<char>> {
    match step {
        RotateStep::Center => Some(
            "ROTATE  Specify rotation center  ["@ + decimal(count) + " objects]:"@,
        ),
        RotateStep::RefPoint { .. } => Some(
            "ROTATE  Specify reference point  (or skip: type angle directly):"@,
        ),
        RotateStep::Angle { .. } => None,
    }
}

/// The prompt at the first two steps; see [`rotate_prompt_text`].
pub fn rotate_prompt<P, A>(step: &RotateStep<P, A>, count: u64) -> (r: Option<String>)
    ensures
        match r {
            Some(t) => rotate_prompt_text(*step, count as nat) == Some(t@),
            None => rotate_prompt_text(*step, count as nat) is None,
        },
{
    match step {
        RotateStep::Center => {
            let mut s = String::new();
            push_str(&mut s, "ROTATE  Specify rotation center  [");
            push_decimal(&mut s, count);
            push_str(&mut s, " objects]:");
            Some(s)
        },
        RotateStep::RefPoint { .. } => {
            let mut s = String::new();
            push_str(&mut s, "ROTATE  Specify reference point  (or skip: type angle directly):");
            Some(s)
        },
        RotateStep::Angle { .. } => None,
    }
}

/// A picked point `pt`, whose direction seen from the current centre is
/// `direction` (not read at the centre step): the first point is the
/// centre, the second fixes the reference direction, the third rotates by
/// the sweep from the reference to it.
pub fn rotate_on_point<P: Copy, A: Copy>(step: RotateStep<P, A>, pt: P, direction: A) -> (r: (
    RotateStep<P, A>,
    RotateOutcome<P, A>,
))
    ensures
        match step {
            RotateStep::Center => r.0 == (RotateStep::<P, A>::RefPoint { center: pt }) && r.1 is NeedPoint,
            RotateStep::RefPoint { center } => r.0 == (RotateStep::<P, A>::Angle {
                center,
                ref_angle: direction,
            }) && r.1 is NeedPoint,
            RotateStep::Angle { center, ref_angle } => r.0 == step && r.1 == (RotateOutcome::<P, A>::Sweep {
                center,
                from: ref_angle,
                to: direction,
            }),
        },
{
    match step {
        RotateStep::Center => (RotateStep::RefPoint { center: pt }, RotateOutcome::NeedPoint),
        RotateStep::RefPoint { center } => (
            RotateStep::Angle { center, ref_angle: direction },
            RotateOutcome::NeedPoint,
        ),
        RotateStep::Angle { center, ref_angle } => (
            step,
            RotateOutcome::Sweep { center, from: ref_angle, to: direction },
        ),
    }
}

/// Enter at the angle step rotates by the default angle; elsewhere it
/// cancels.
pub fn rotate_on_enter<P: Copy, A: Copy>(step: &RotateStep<P, A>) -> (r: RotateOutcome<P, A>)
    ensures
        match *step {
            RotateStep::Angle { center, .. } => r == (RotateOutcome::<P, A>::ByDefault { center }),
            _ => r is Cancel,
        },
{
    match step {
        RotateStep::Angle { center, .. } => RotateOutcome::ByDefault { center: *center },
        _ => RotateOutcome::Cancel,
    }
}

/// Escape cancels ROTATE at any step.
pub fn rotate_on_escape<P, A>(step: &RotateStep<P, A>) -> (r: RotateOutcome<P, A>)
    ensures
        r is Cancel,
{
    RotateOutcome::Cancel
}

/// The centre a typed angle rotates about: once a centre has been picked
/// there is one; at the centre step typed text is not taken.
pub fn rotate_text_center<P: Copy, A>(step: &RotateStep<P, A>) -> (r: Option<P>)
    ensures
        match *step {
            RotateStep::Center => r is None,
            RotateStep::RefPoint { center } => r == Some(center),
            RotateStep::Angle { center, .. } => r == Some(center),
        },
{
    match step {
        RotateStep::Center => None,
        RotateStep::RefPoint { center } => Some(*center),
        RotateStep::Angle { center, .. } => Some(*center),
    }
}

/// What the live preview draws at a step.
pub fn rotate_preview<P: Copy, A: Copy>(step: &RotateStep<P, A>) -> (r: RotatePreview<P, A>)
    ensures
        match *step {
            RotateStep::Center => r is Nothing,
            RotateStep::RefPoint { center } => r == (RotatePreview::<P, A>::RubberBand { center }),
            RotateStep::Angle { center, ref_angle } => r == (RotatePreview::<P, A>::Ghosts {
                center,
                ref_angle,
            }),
        },
{
    match step {
        RotateStep::Center => RotatePreview::Nothing,
        RotateStep::RefPoint { center } => RotatePreview::RubberBand { center: *center },
        RotateStep::Angle { center, ref_angle } => RotatePreview::Ghosts {
            center: *center,
            ref_angle: *ref_angle,
        },
    }
}

/// Whether the step asks for an angle (the dynamic-input field is an angle,
/// committed as typed text); the other steps ask for a point.
pub fn rotate_wants_angle<P, A>(step: &RotateStep<P, A>) -> (r: bool)
    ensures
        r == (*step is Angle),
{
    match step {
        RotateStep::Angle { .. } => true,
        _ => false,
    }
}

} // verus!
