//! The options the program is started with.
use vstd::prelude::*;

verus! {

/// Command-line options: an input file to read in place of piped input,
/// the command to start with, a configuration file, the shell that runs
/// commands and completions, whether to print the last command of the
/// history and exit, and whether to run the steps of a pipeline one by one
/// as separate commands.
#[derive(Debug)]
pub struct Args {
    pub file: Option<String>,
    pub command: Option<String>,
    pub config: Option<String>,
    pub shell: Option<String>,
    pub last: bool,
    pub split_commands: bool,
}

} // verus!
