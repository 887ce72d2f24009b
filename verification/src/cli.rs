use vstd::prelude::*;
use std::path::PathBuf;

verus! {

/// What the command line of the emulator says.
pub struct Args {
    pub command: Command,
}

#[derive(Clone)]
pub enum Command {
    /// Run the machine code given.
    Execute(ExecuteArgs),
}

#[derive(Clone)]
pub struct ExecuteArgs {
    /// Where the memory image is kept, given without the name of the option.
    pub ram_legacy: Option<PathBuf>,
    /// Where the memory image is kept.
    pub ram: Option<PathBuf>,
    /// Whether the program's output is all that is to be shown.
    pub output_only: bool,
}

} // verus!
