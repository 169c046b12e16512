//! The run configuration a driver hands the interpreter: which source
//! file to run. The driver parses the command line and fills this in.

use vstd::prelude::*;

verus! {

/// The interpreter's run configuration.
#[derive(Debug)]
pub struct Args {
    /// Path to the source file to run.
    pub file: String,
}

impl Args {
    /// Wraps a source-file path.
    pub fn new(file: String) -> (r: Args)
        ensures
            r.file@ == file@,
    {
        Args { file }
    }
}

} // verus!
