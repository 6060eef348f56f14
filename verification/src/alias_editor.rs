//! The command-alias editor's editable fields.

use vstd::prelude::*;

verus! {

/// Which column of an alias row a text edit targets.
#[derive(Clone, Copy, Debug, PartialEq, Eq, Structural)]
pub enum AliasField {
    Alias,
    Command,
}

} // verus!
