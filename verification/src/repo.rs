//! The repository capability: a polymorphic interface over looking a
//! descriptor up, invoking a program, and listing program ids.

use vstd::prelude::*;

use crate::descriptor::ProgramInfo;

verus! {

/// Why a repository operation failed. Each operation reports its own
/// distinct cause instead of collapsing them into an empty result.
#[derive(PartialEq, Eq, Structural, Clone, Copy, Debug)]
pub enum RepoError {
    /// No executable or sidecar exists for the id.
    NotFound,
    /// The sidecar bytes fail to parse as a canonical descriptor.
    MalformedDescriptor,
    /// The operating system refused to start the process.
    SpawnFailure,
    /// Creating or opening a channel's FIFO failed.
    ChannelInitFailure,
}

/// The non-blocking poll of whether an invoked program has finished.
/// It reports only a binary signal, without the exit status.
pub trait CheckCompletion {
    fn is_program_finished(&mut self) -> bool;
}

/// The repository capability, parameterized by the transport types it
/// hands out: a channel the caller writes program input into, a channel
/// it reads program output from, and a completion checker.
pub trait Repo {
    /// The channel the caller writes a program's input into.
    type InPipe;

    /// The handle used to poll whether the program has finished.
    type Checker;

    /// The channel the caller reads a program's output from.
    type OutPipe;

    /// Loads a program's descriptor and its content fingerprint.
    fn get_program(&mut self, program: &String) -> Result<(ProgramInfo, String), RepoError>;

    /// Invokes a program, wiring one channel per declared interface.
    fn exec_program(&self, program: &String, info: &ProgramInfo) -> Result<
        (Vec<(String, Self::InPipe)>, Self::Checker, Vec<(String, Self::OutPipe)>),
        RepoError,
    >;

    /// Lists the program ids the repository knows, sidecars excluded.
    fn ls_programs(&self) -> (r: Result<Vec<String>, RepoError>)
        ensures
            (match r {
                Ok(ids) => forall|k: int|
                    0 <= k < ids@.len() ==> !crate::fsrepo::is_sidecar_name(#[trigger] ids@[k]@),
                Err(e) => e == RepoError::NotFound,
            }),
    ;
}

} // verus!
