//! The state of one file while the driver rewrites it, and the order in
//! which a firing's triggered rules are propagated.
use vstd::prelude::*;

use crate::store::Scope;

verus! {

/// Where the rewrite of one file stands.
#[derive(PartialEq, Eq, Structural, Clone, Copy, Debug)]
pub enum FileState {
    /// A global scan is under way and has not edited the file yet.
    Clean,
    /// The current pass has applied this many edits.
    Dirty(usize),
    /// Local propagation around the last edits has converged.
    LocalFixpointReached,
    /// Global rules and tags were updated; a new global scan is due.
    GlobalReseedPending,
    /// A whole global scan made no edit: the file is done.
    Fixpoint,
    /// The file failed to parse after an edit.
    Error,
}

/// What the driver reports about the file.
#[derive(PartialEq, Eq, Structural, Clone, Copy, Debug)]
pub enum FileEvent {
    /// An edit was applied to the file.
    EditApplied,
    /// Local propagation found nothing more to do.
    LocalScanIdle,
    /// The triggered global rules and the captured global tags were stored.
    GlobalsPropagated,
    /// A global scan over the file ended.
    ScanEnded,
    /// The file did not parse after an edit.
    ParseFailed,
}

/// The state after `e` in state `s`. `Fixpoint` and `Error` are final; an
/// event that does not apply to a state leaves it as it is.
pub open spec fn step_spec(s: FileState, e: FileEvent) -> FileState {
    match (s, e) {
        (FileState::Fixpoint, _) => FileState::Fixpoint,
        (FileState::Error, _) => FileState::Error,
        (_, FileEvent::ParseFailed) => FileState::Error,
        (FileState::Clean, FileEvent::EditApplied) => FileState::Dirty(1),
        (FileState::Clean, FileEvent::ScanEnded) => FileState::Fixpoint,
        (FileState::Dirty(n), FileEvent::EditApplied) => FileState::Dirty(
            if n == usize::MAX {
                n
            } else {
                (n + 1) as usize
            },
        ),
        (FileState::Dirty(_), FileEvent::LocalScanIdle) => FileState::LocalFixpointReached,
        (FileState::LocalFixpointReached, FileEvent::EditApplied) => FileState::Dirty(1),
        (FileState::LocalFixpointReached, FileEvent::GlobalsPropagated) => FileState::GlobalReseedPending,
        (FileState::GlobalReseedPending, FileEvent::EditApplied) => FileState::Dirty(1),
        (FileState::GlobalReseedPending, FileEvent::ScanEnded) => FileState::Clean,
        (other, _) => other,
    }
}

impl FileState {
    /// The state after `e`.
    pub fn step(self, e: FileEvent) -> (r: FileState)
        ensures
            r == step_spec(self, e),
    {
        match (self, e) {
            (FileState::Fixpoint, _) => FileState::Fixpoint,
            (FileState::Error, _) => FileState::Error,
            (_, FileEvent::ParseFailed) => FileState::Error,
            (FileState::Clean, FileEvent::EditApplied) => FileState::Dirty(1),
            (FileState::Clean, FileEvent::ScanEnded) => FileState::Fixpoint,
            (FileState::Dirty(n), FileEvent::EditApplied) => FileState::Dirty(
                if n == usize::MAX {
                    n
                } else {
                    n + 1
                },
            ),
            (FileState::Dirty(_), FileEvent::LocalScanIdle) => FileState::LocalFixpointReached,
            (FileState::LocalFixpointReached, FileEvent::EditApplied) => FileState::Dirty(1),
            (FileState::LocalFixpointReached, FileEvent::GlobalsPropagated) => FileState::GlobalReseedPending,
            (FileState::GlobalReseedPending, FileEvent::EditApplied) => FileState::Dirty(1),
            (FileState::GlobalReseedPending, FileEvent::ScanEnded) => FileState::Clean,
            (other, _) => other,
        }
    }

    /// Whether the rewrite of the file has ended.
    pub fn is_final(&self) -> (r: bool)
        ensures
            r == (*self == FileState::Fixpoint || *self == FileState::Error),
    {
        match self {
            FileState::Fixpoint | FileState::Error => true,
            _ => false,
        }
    }
}

/// The file reaches its fixpoint only from a scan that edited nothing, and
/// once there, or in error, it stays there whatever happens next.
pub proof fn lemma_final_states_absorb(s: FileState, e: FileEvent)
    ensures
        (s == FileState::Fixpoint || s == FileState::Error) ==> step_spec(s, e) == s,
        step_spec(s, e) == FileState::Fixpoint ==> s == FileState::Fixpoint || (s
            == FileState::Clean && e == FileEvent::ScanEnded),
{
}

/// Where the propagation after one firing stands. The triggered rules run
/// scope by scope, `Parent`, then `Method`, then `Class`, each until a pass
/// over them edits nothing; then the global rules and tags are stored once.
#[derive(PartialEq, Eq, Structural, Clone, Copy, Debug)]
pub enum Propagation {
    /// Running the rules triggered in this local scope.
    Local(Scope),
    /// Storing the rules triggered in global scope, and the global tags.
    Global,
    /// The propagation is over.
    Finished,
}

/// The local scope after `s`, in the order `Parent`, `Method`, `Class`.
pub open spec fn next_local(s: Scope) -> Propagation {
    match s {
        Scope::Parent => Propagation::Local(Scope::Method),
        Scope::Method => Propagation::Local(Scope::Class),
        _ => Propagation::Global,
    }
}

/// The phase after a pass in phase `p` that did, or did not, edit the file:
/// a local scope is repeated until a pass edits nothing.
pub open spec fn propagation_step_spec(p: Propagation, edited: bool) -> Propagation {
    match p {
        Propagation::Local(s) => if edited {
            p
        } else {
            next_local(s)
        },
        _ => Propagation::Finished,
    }
}

impl Propagation {
    /// The first phase: the rules triggered in `Parent` scope.
    pub fn start() -> (r: Propagation)
        ensures
            r == Propagation::Local(Scope::Parent),
    {
        Propagation::Local(Scope::Parent)
    }

    /// The phase after a pass in this one; `edited` tells whether the pass
    /// edited the file.
    pub fn step(self, edited: bool) -> (r: Propagation)
        ensures
            r == propagation_step_spec(self, edited),
    {
        match self {
            Propagation::Local(s) => if edited {
                self
            } else {
                match s {
                    Scope::Parent => Propagation::Local(Scope::Method),
                    Scope::Method => Propagation::Local(Scope::Class),
                    _ => Propagation::Global,
                }
            },
            _ => Propagation::Finished,
        }
    }
}

/// From the start, passes that edit nothing visit `Parent`, `Method`,
/// `Class` and the global step in that order, and then the propagation is
/// over; a pass that edits keeps the propagation in its scope.
pub proof fn lemma_propagation_order(s: Scope)
    ensures
        propagation_step_spec(Propagation::Local(Scope::Parent), false) == Propagation::Local(
            Scope::Method,
        ),
        propagation_step_spec(Propagation::Local(Scope::Method), false) == Propagation::Local(
            Scope::Class,
        ),
        propagation_step_spec(Propagation::Local(Scope::Class), false) == Propagation::Global,
        propagation_step_spec(Propagation::Global, false) == Propagation::Finished,
        propagation_step_spec(Propagation::Local(s), true) == Propagation::Local(s),
        propagation_step_spec(Propagation::Finished, true) == Propagation::Finished,
{
}

} // verus!
