//! The run configuration the command-line surface hands the engine: the
//! trace file to read and the places to look for debug objects.

use vstd::prelude::*;

verus! {

/// What a run needs: the path of the trace file, and zero or more files
/// or directories to search for debug objects by exact file name.
#[derive(Clone, Debug)]
pub struct Cli {
    pub ftrace_path: String,
    pub elf: Vec<String>,
}

impl Cli {
    pub fn new(ftrace_path: String, elf: Vec<String>) -> (r: Cli)
        ensures
            r.ftrace_path == ftrace_path,
            r.elf == elf,
    {
        Cli { ftrace_path, elf }
    }
}

} // verus!
