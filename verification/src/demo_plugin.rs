//! The demo add-on: a minimal plugin that answers one command.

use vstd::prelude::*;

use crate::command_line::{push_capped, EntryKind};
use crate::plugin::{BuiltinPlugin, HostApi, PluginManifest, RibbonModule};
use crate::text::same_text;

verus! {

/// The demo plugin's identifier.
pub const PLUGIN_ID: &'static str = "opencad.demo_plugin";

/// The demo plugin's ribbon position among the add-on tabs.
pub const RIBBON_ORDER: i32 = 99;

/// The demo plugin.
pub struct DemoPlugin;

/// Handles the demo plugin's commands: `DP_HELLO` greets on the command line;
/// anything else is left to other plugins.
pub fn handle<H: HostApi>(host: &mut H, cmd: &str) -> (r: bool)
    ensures
        r == (cmd@ == "DP_HELLO"@),
        r ==> final(host).messages() == push_capped(
            old(host).messages(),
            (EntryKind::Info, "Hello from demo_plugin (plugin host OK)."@),
        ),
        !r ==> final(host).messages() == old(host).messages(),
{
    if same_text(cmd, "DP_HELLO") {
        host.push_info("Hello from demo_plugin (plugin host OK).");
        true
    } else {
        false
    }
}

impl BuiltinPlugin for DemoPlugin {
    fn manifest(&self) -> (r: PluginManifest)
        ensures
            r.id@ == PLUGIN_ID@,
            r.name@ == "Demo Plugin"@,
            r.version@ == "0.1.0"@,
            r.description@ == "Minimal add-on for plugin-host integration tests"@,
            r.ribbon_order == RIBBON_ORDER,
            r.xdata_apps@.len() == 0,
            r.command_prefixes@.len() == 1,
            r.command_prefixes@[0]@ == "DP_"@,
    {
        PluginManifest {
            id: PLUGIN_ID,
            name: "Demo Plugin",
            version: "0.1.0",
            description: "Minimal add-on for plugin-host integration tests",
            ribbon_order: RIBBON_ORDER,
            xdata_apps: Vec::new(),
            command_prefixes: vec!["DP_"],
        }
    }

    fn ribbon(&self) -> (r: RibbonModule)
        ensures
            r.title@ == "Demo Plugin"@,
    {
        RibbonModule { title: "Demo Plugin" }
    }

    fn dispatch<H: HostApi>(&self, host: &mut H, cmd: &str) -> (r: bool)
        ensures
            r == (cmd@ == "DP_HELLO"@),
            r ==> final(host).messages() == push_capped(
                old(host).messages(),
                (EntryKind::Info, "Hello from demo_plugin (plugin host OK)."@),
            ),
            !r ==> final(host).messages() == old(host).messages(),
    {
        handle(host, cmd)
    }
}

} // verus!
