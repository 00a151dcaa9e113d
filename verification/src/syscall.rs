//! What every call to the host has in common: a number, an argument
//! vector of fixed arity, and the three phases stage, commit and collect.

use crate::arena::{Arena, ArenaModel};
use crate::error::Error;
use libc::c_long;
use vstd::prelude::*;

verus! {

/// One kind of call that the host can be asked to perform. A value of the
/// implementing type is the request; the associated types are the shapes
/// that the request takes on its way through the three phases.
pub trait Syscall<'a>: Sized {
    /// The argument vector of the call; its arity is part of the type.
    type Argv;

    /// The scalar that the host returns on success.
    type Ret;

    /// The outputs while their ranges are reserved and not yet sent.
    type Staged;

    /// The outputs once their offsets are frozen in the argument vector.
    type Committed;

    /// What the caller gets back.
    type Collected;

    /// Whether every range of the request fits into the arena.
    spec fn fits(&self, arena: ArenaModel) -> bool;

    /// The arena after the request was staged in it.
    spec fn staged(&self, arena: ArenaModel) -> ArenaModel;

    /// Whether every range of the outputs lies inside the buffer of the
    /// arena they are collected from.
    spec fn collectable(committed: &Self::Committed, arena: ArenaModel) -> bool;

    /// The number under which the host knows the call.
    fn num() -> c_long;

    /// Reserves the ranges of the request and builds its argument vector.
    /// A request that does not fit fails with `AllocationExhausted` and
    /// leaves the arena as it was before the call.
    fn stage(self, arena: &mut Arena) -> (r: Result<(Self::Argv, Self::Staged), Error>)
        requires
            old(arena).wf(),
        ensures
            final(arena).wf(),
            r is Ok <==> self.fits(old(arena)@),
            r is Ok ==> final(arena)@ == self.staged(old(arena)@),
            r matches Err(e) ==> e == Error::AllocationExhausted && final(arena)@ == old(arena)@,
    ;

    /// Freezes the staged offsets.
    fn commit(staged: Self::Staged) -> Self::Committed;

    /// Validates the host's answer `ret` against what was reserved and
    /// hands the results to the caller.
    fn collect(committed: Self::Committed, ret: Result<Self::Ret, Error>, col: &Arena) -> Self::Collected
        requires
            Self::collectable(&committed, col@),
    ;
}

} // verus!
