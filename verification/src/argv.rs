//! The fixed-width argument vector that describes one call to the host.

use vstd::prelude::*;

verus! {

/// Number of words that the host reads for every call.
pub const MAX_ARGS: usize = 6;

/// The word that stands for an absent buffer: no offset into the shared
/// buffer can have this value.
pub const NULL: usize = usize::MAX;

/// The arguments of one call, in order: plain scalars and offsets into the
/// shared buffer.
#[derive(Clone, Copy, Debug, PartialEq, Eq)]
pub struct Argv<const N: usize>(pub [usize; N]);

/// The six words that the host reads for the arguments `args`: the
/// arguments in order, then zeros.
pub open spec fn padded(args: Seq<usize>) -> Seq<usize> {
    Seq::new(
        MAX_ARGS as nat,
        |i: int|
            if i < args.len() {
                args[i]
            } else {
                0usize
            },
    )
}

impl<const N: usize> View for Argv<N> {
    type V = Seq<usize>;

    open spec fn view(&self) -> Seq<usize> {
        self.0@
    }
}

impl<const N: usize> Argv<N> {
    /// Number of arguments of the call.
    pub fn arity(&self) -> (n: usize)
        ensures
            n == N,
            n == self@.len(),
    {
        N
    }

    /// The words handed to the host: unused trailing words are zero.
    pub fn words(&self) -> (w: [usize; 6])
        requires
            N <= MAX_ARGS,
        ensures
            w@ == padded(self@),
    {
        let mut w: [usize; 6] = [0usize; 6];
        let mut i: usize = 0;
        while i < N
            invariant
                i <= N <= MAX_ARGS,
                self@.len() == N,
                forall|j: int| 0 <= j < 6 ==> w@[j] == if j < i { self@[j] } else { 0usize },
            decreases N - i,
        {
            w[i] = self.0[i];
            i += 1;
        }
        assert(w@ =~= padded(self@));
        w
    }
}

} // verus!
