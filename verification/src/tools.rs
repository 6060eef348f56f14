//! Ribbon tool definitions of the drawing commands.

use vstd::prelude::*;

use crate::text::push_str;

verus! {

/// How a ribbon tool's icon is drawn.
pub enum IconKind {
    /// An SVG icon shipped with the application, by asset path.
    Svg(&'static str),
}

/// What activating a tool does.
pub enum ModuleEvent {
    /// Runs the named command.
    Command(String),
}

/// A ribbon tool: identifier, label, icon and the event it raises.
pub struct ToolDef {
    pub id: &'static str,
    pub label: &'static str,
    pub icon: IconKind,
    pub event: ModuleEvent,
}

/// The command a tool runs.
pub open spec fn tool_command(t: ToolDef) -> Seq<char> {
    match t.event {
        ModuleEvent::Command(c) => c@,
    }
}

fn command(name: &str) -> (e: ModuleEvent)
    ensures
        e matches ModuleEvent::Command(c) && c@ == name@,
{
    let mut c = String::new();
    push_str(&mut c, name);
    ModuleEvent::Command(c)
}

/// The DIMORDINATE (ordinate dimension) tool.
pub fn ordinate_dim_tool() -> (t: ToolDef)
    ensures
        t.id@ == "DIMORDINATE"@,
        t.label@ == "Ordinate"@,
        tool_command(t) == "DIMORDINATE"@,
{
    ToolDef {
        id: "DIMORDINATE",
        label: "Ordinate",
        icon: IconKind::Svg("icons/dim_ordinate.svg"),
        event: command("DIMORDINATE"),
    }
}

/// The ROTATE tool.
pub fn rotate_tool() -> (t: ToolDef)
    ensures
        t.id@ == "ROTATE"@,
        t.label@ == "Rotate"@,
        tool_command(t) == "ROTATE"@,
{
    ToolDef {
        id: "ROTATE",
        label: "Rotate",
        icon: IconKind::Svg("icons/rotate.svg"),
        event: command("ROTATE"),
    }
}

} // verus!
