use vstd::prelude::*;

verus! {

/// The parsed command line.
pub struct Args {
    pub subcmd: Option<Subcmd>,
}

/// What the command line asks for.
pub enum Subcmd {
    /// Install the named formulae and their dependencies.
    Install { formulae: Vec<String> },
}

} // verus!
