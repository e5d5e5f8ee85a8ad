//! The command-line model of the supervised process. Spawning, killing and
//! the OS process handle live outside the library; what is verified here is
//! that every respawn is bound to exactly the command line of the original
//! spawn.

use vstd::prelude::*;

verus! {

/// The immutable command line of the supervised process. A restart kills the
/// current process and respawns from this same value, so the respawned
/// process always runs the binary and arguments of the original spawn.
pub struct ChildCommand {
    /// The path to the binary to execute.
    binary: String,
    /// The arguments to pass during execution.
    args: Vec<String>,
}

impl ChildCommand {
    /// The recorded binary path.
    pub closed spec fn spec_binary(&self) -> Seq<char> {
        self.binary@
    }

    /// The recorded argument list.
    pub closed spec fn spec_args(&self) -> Seq<String> {
        self.args@
    }

    /// Records the command line of the supervised process.
    pub fn new(binary: String, args: Vec<String>) -> (r: Self)
        ensures
            r.spec_binary() == binary@,
            r.spec_args() == args@,
    {
        ChildCommand { binary, args }
    }

    /// The binary any spawn or respawn must execute.
    pub fn binary(&self) -> (r: &String)
        ensures
            r@ == self.spec_binary(),
    {
        &self.binary
    }

    /// The arguments any spawn or respawn must pass.
    pub fn args(&self) -> (r: &Vec<String>)
        ensures
            r@ == self.spec_args(),
    {
        &self.args
    }
}

} // verus!
