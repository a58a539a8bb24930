use vstd::prelude::*;

verus! {

/// The command line: whether to log verbosely, and what to do.
#[derive(Debug, Clone, PartialEq, Eq)]
pub struct Cli {
    pub verbose: bool,
    pub command: Command,
}

/// What to do: index a repository, or serve its index to a client.
#[derive(Debug, Clone, PartialEq, Eq)]
pub enum Command {
    Index { path: String },
    Serve { path: String },
}

} // verus!
