//! The application state that commands and plugins act on: the command line
//! and the recent-files list.

use vstd::prelude::*;

use crate::command_line::{info_texts, CommandLine, EntryKind};

verus! {

/// The recent-files list keeps at least this many entries.
pub const RECENT_MIN: usize = 5;

/// The recent-files list keeps at most this many entries.
pub const RECENT_MAX: usize = 100;

/// How many recent files are kept when no limit was saved.
pub const RECENT_DEFAULT: usize = 20;

/// The application.
pub struct OpenCADStudio {
    pub command_line: CommandLine,
    /// Recently opened files, newest first.
    pub recent_files: Vec<String>,
    /// How many recent files are kept.
    pub recent_limit: usize,
}

impl OpenCADStudio {
    /// The recent files as text.
    pub open spec fn recents(&self) -> Seq<Seq<char>> {
        self.recent_files@.map_values(|s: String| s@)
    }

    /// A fresh application without any recent file.
    pub fn new_for_test() -> (r: Self)
        ensures
            r.command_line@.input.len() == 0,
            r.command_line@.history == seq![
                (EntryKind::Info, "Open CAD Studio ready."@),
                (EntryKind::Info, "Type a command or use the ribbon. Open OBJ: INSERT tab."@),
            ],
            r.command_line@.recall.len() == 0,
            r.command_line@.cursor is None,
            r.recent_files@.len() == 0,
            r.recent_limit == RECENT_DEFAULT,
    {
        OpenCADStudio {
            command_line: CommandLine::new(),
            recent_files: Vec::new(),
            recent_limit: RECENT_DEFAULT,
        }
    }

    /// The texts of the information lines in the command history.
    pub fn command_history_info(&self) -> (r: Vec<String>)
        ensures
            r@.map_values(|s: String| s@) == info_texts(self.command_line@.history),
    {
        self.command_line.info_lines()
    }
}

} // verus!
