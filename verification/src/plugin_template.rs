//! The starting point for a new plugin's command dispatch.

use vstd::prelude::*;

use crate::command_line::{push_capped, EntryKind};
use crate::plugin::HostApi;

verus! {

/// Handles the template plugin's commands: `MP_HELLO` greets on the command
/// line; anything else is left to other plugins.
pub fn handle<H: HostApi>(host: &mut H, cmd: &str) -> (r: bool)
    ensures
        r == (cmd@ == "MP_HELLO"@),
        r ==> final(host).messages() == push_capped(
            old(host).messages(),
            (EntryKind::Info, "Hello from my_plugin"@),
        ),
        !r ==> final(host).messages() == old(host).messages(),
{
    if crate::text::same_text(cmd, "MP_HELLO") {
        host.push_info("Hello from my_plugin");
        true
    } else {
        false
    }
}

} // verus!
