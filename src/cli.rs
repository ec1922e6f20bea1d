//! The command line of the editor.

use vstd::prelude::*;

verus! {

/// What the command line asks for: the file to open or create, if any.
pub struct Args {
    pub file: Option<String>,
}

} // verus!
