//! DIMORDINATE — ordinate (datum) dimension: its ribbon tool and the steps
//! of the interactive command. The user picks the feature location, then
//! the leader endpoint; the geometry of the dimension (which datum it
//! labels, where the leader bends) is the caller's, in floating point.

use vstd::prelude::*;

use crate::text::push_str;
use crate::tools::{ordinate_dim_tool, tool_command, ToolDef};

verus! {

/// The ribbon tool that starts DIMORDINATE.
pub fn tool() -> (t: ToolDef)
    ensures
        t.id@ == "DIMORDINATE"@,
        t.label@ == "Ordinate"@,
        tool_command(t) == "DIMORDINATE"@,
{
    ordinate_dim_tool()
}


/// Where DIMORDINATE stands, over points of type `P`.
#[derive(Clone, Copy)]
pub enum OrdinateStep<P> {
    /// Waiting for the feature location.
    FeaturePoint,
    /// Waiting for the leader endpoint of the feature picked.
    LeaderEndpoint { feature: P },
}

/// What a DIMORDINATE event leads to.
#[derive(Clone, Copy)]
pub enum OrdinateOutcome<P> {
    /// Another point is wanted.
    NeedPoint,
    /// Place the ordinate dimension from `feature` to the leader endpoint
    /// `leader`, and end the command.
    Commit { feature: P, leader: P },
    /// The command ends without placing anything.
    Cancel,
}

/// The step DIMORDINATE starts in.
pub fn ordinate_start<P>() -> (r: OrdinateStep<P>)
    ensures
        r is FeaturePoint,
{
    OrdinateStep::FeaturePoint
}

/// The prompt shown at `step`.
pub open spec fn ordinate_prompt_text<P>(step: OrdinateStep<P>) -> Seq<char> {
    match step {
        OrdinateStep::FeaturePoint => "DIMORDINATE  Specify feature location:"@,
        OrdinateStep::LeaderEndpoint { .. } => "DIMORDINATE  Specify leader endpoint:"@,
    }
}

/// The prompt shown at `step`.
pub fn ordinate_prompt<P>(step: &OrdinateStep<P>) -> (r: String)
    ensures
        r@ == ordinate_prompt_text(*step),
{
    let mut s = String::new();
    match step {
        OrdinateStep::FeaturePoint => push_str(&mut s, "DIMORDINATE  Specify feature location:"),
        OrdinateStep::LeaderEndpoint { .. } => push_str(&mut s, "DIMORDINATE  Specify leader endpoint:"),
    }
    s
}

/// A picked point: the first is the feature, the second ends the leader and
/// places the dimension.
pub fn ordinate_on_point<P: Copy>(step: OrdinateStep<P>, pt: P) -> (r: (OrdinateStep<P>, OrdinateOutcome<P>))
    ensures
        match step {
            OrdinateStep::FeaturePoint => r.0 == (OrdinateStep::LeaderEndpoint { feature: pt })
                && r.1 is NeedPoint,
            OrdinateStep::LeaderEndpoint { feature } => r.0 == step && r.1 == (OrdinateOutcome::Commit {
                feature,
                leader: pt,
            }),
        },
{
    match step {
        OrdinateStep::FeaturePoint => (OrdinateStep::LeaderEndpoint { feature: pt }, OrdinateOutcome::NeedPoint),
        OrdinateStep::LeaderEndpoint { feature } => (step, OrdinateOutcome::Commit { feature, leader: pt }),
    }
}

/// Enter cancels DIMORDINATE at any step.
pub fn ordinate_on_enter<P>(step: &OrdinateStep<P>) -> (r: OrdinateOutcome<P>)
    ensures
        r is Cancel,
{
    OrdinateOutcome::Cancel
}

/// The feature a live preview runs from: there is one only once the feature
/// has been picked.
pub fn ordinate_preview_from<P: Copy>(step: &OrdinateStep<P>) -> (r: Option<P>)
    ensures
        match *step {
            OrdinateStep::FeaturePoint => r is None,
            OrdinateStep::LeaderEndpoint { feature } => r == Some(feature),
        },
{
    match step {
        OrdinateStep::FeaturePoint => None,
        OrdinateStep::LeaderEndpoint { feature } => Some(*feature),
    }
}

} // verus!
