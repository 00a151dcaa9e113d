//! One host-to-guest buffer placed inside the shared buffer.

use crate::arena::{Arena, ArenaModel};
use crate::error::Error;
use core::ops::Range;
use vstd::prelude::*;

verus! {

/// What a destination holds after the bytes `start..end` of a staged range
/// at `offset` in the shared buffer were copied to the same positions of
/// it: those positions hold the buffer's bytes, every other keeps its own.
pub open spec fn copy_range(dest: Seq<u8>, bytes: Seq<u8>, offset: int, start: int, end: int) -> Seq<
    u8,
> {
    Seq::new(
        dest.len(),
        |i: int|
            if start <= i < end {
                bytes[offset + i]
            } else {
                dest[i]
            },
    )
}

/// The smaller of two lengths.
pub open spec fn min_len(a: int, b: int) -> int {
    if a <= b {
        a
    } else {
        b
    }
}

/// A range of the shared buffer reserved for bytes that the host writes,
/// bound to the guest's own storage that they are copied to once the host's
/// claim about them has been checked.
pub struct Output<'a> {
    /// Offset of the range in the shared buffer.
    pub offset: usize,
    /// Number of bytes reserved.
    pub len: usize,
    /// The guest's private destination.
    pub dest: &'a mut [u8],
}

impl<'a> Output<'a> {
    /// The reserved range is no longer than the destination.
    pub open spec fn wf(&self) -> bool {
        &&& self.len <= self.dest@.len()
        &&& self.offset + self.len <= usize::MAX
    }

    /// Whether the reserved range lies inside the buffer of `arena`.
    pub open spec fn within(&self, arena: ArenaModel) -> bool {
        arena.covers(self.offset as int, self.len as int)
    }

    /// Reserves as many bytes as the destination can take, but no more than
    /// `limit`. Nothing is copied in: the range is for the host to fill.
    pub fn stage_limited(arena: &mut Arena, dest: &'a mut [u8], limit: usize) -> (r: Result<
        Output<'a>,
        Error,
    >)
        requires
            old(arena).wf(),
        ensures
            final(arena).wf(),
            match r {
                Ok(out) => {
                    let len = min_len(old(dest)@.len() as int, limit as int) as nat;
                    &&& old(arena)@.fits(len, 1)
                    &&& final(arena)@ == old(arena)@.allocate(len, 1)
                    &&& out.offset == old(arena)@.used
                    &&& out.len == len
                    &&& out.dest@ == old(dest)@
                    &&& final(out.dest)@ == final(dest)@
                    &&& out.wf()
                    &&& out.within(final(arena)@)
                },
                Err(e) => {
                    &&& !old(arena)@.fits(
                        min_len(old(dest)@.len() as int, limit as int) as nat,
                        1,
                    )
                    &&& e == Error::AllocationExhausted
                    &&& final(arena)@ == old(arena)@
                    &&& final(dest)@ == old(dest)@
                },
            },
    {
        let len: usize = if dest.len() <= limit { dest.len() } else { limit };
        proof {
            arena.lemma_wf();
        }
        match arena.allocate(len, 1) {
            Ok(p) => Ok(Output { offset: p.offset, len: p.len, dest }),
            Err(e) => Err(e),
        }
    }

    /// Reserves a range as long as the destination.
    pub fn stage_max(arena: &mut Arena, dest: &'a mut [u8]) -> (r: Result<Output<'a>, Error>)
        requires
            old(arena).wf(),
        ensures
            final(arena).wf(),
            match r {
                Ok(out) => {
                    &&& old(arena)@.fits(old(dest)@.len(), 1)
                    &&& final(arena)@ == old(arena)@.allocate(old(dest)@.len(), 1)
                    &&& out.offset == old(arena)@.used
                    &&& out.len == old(dest)@.len()
                    &&& out.dest@ == old(dest)@
                    &&& final(out.dest)@ == final(dest)@
                    &&& out.wf()
                    &&& out.within(final(arena)@)
                },
                Err(e) => {
                    &&& !old(arena)@.fits(old(dest)@.len(), 1)
                    &&& e == Error::AllocationExhausted
                    &&& final(arena)@ == old(arena)@
                    &&& final(dest)@ == old(dest)@
                },
            },
    {
        let limit: usize = dest.len();
        Output::stage_limited(arena, dest, limit)
    }

    /// Offset of the reserved range in the shared buffer.
    pub fn offset(&self) -> (n: usize)
        ensures
            n == self.offset,
    {
        self.offset
    }

    /// Number of bytes reserved.
    pub fn len(&self) -> (n: usize)
        ensures
            n == self.len,
    {
        self.len
    }

    /// Checks a length that the host reported for this output against the
    /// length that was reserved for it.
    pub fn check_len(&self, reported: usize) -> (r: Result<usize, Error>)
        ensures
            reported <= self.len ==> r == Ok::<usize, Error>(reported),
            reported > self.len ==> r == Err::<usize, Error>(Error::InvalidHostResponse),
    {
        if reported > self.len {
            Err(Error::InvalidHostResponse)
        } else {
            Ok(reported)
        }
    }

    /// Copies the bytes `range` of the reserved range from the shared buffer
    /// to the same positions of the destination and releases the
    /// destination. The caller has checked the range against `len` before:
    /// no length that the host reported reaches this point unchecked.
    pub fn collect_range(self, col: &Arena, range: Range<usize>)
        requires
            self.wf(),
            self.within(col@),
            range.start <= range.end <= self.len,
        ensures
            final(self.dest)@ == copy_range(
                old(self.dest)@,
                col@.bytes,
                self.offset as int,
                range.start as int,
                range.end as int,
            ),
    {
        let Output { offset, len, dest } = self;
        let src = col.bytes();
        let cap: usize = src.len();
        let ghost before = dest@;
        let mut i: usize = range.start;
        while i < range.end
            invariant
                range.start <= i <= range.end <= len,
                len <= dest@.len(),
                offset + len <= cap == src@.len(),
                dest@.len() == before.len(),
                forall|j: int|
                    0 <= j < dest@.len() ==> dest@[j] == if range.start <= j < i {
                        src@[offset + j]
                    } else {
                        before[j]
                    },
            decreases range.end - i,
        {
            dest[i] = src[offset + i];
            i += 1;
        }
        proof {
            assert(dest@ =~= copy_range(
                before,
                src@,
                offset as int,
                range.start as int,
                range.end as int,
            ));
        }
    }
}

/// What the host stored at the offset of a staged range is what a copy of
/// as many bytes hands to the destination; the rest of the destination
/// keeps what it held.
pub proof fn lemma_copy_after_write(s: ArenaModel, offset: nat, data: Seq<u8>, dest: Seq<u8>)
    requires
        s.covers(offset as int, data.len() as int),
        data.len() <= dest.len(),
    ensures
        ({
            let got = copy_range(
                dest,
                s.write(offset, data).bytes,
                offset as int,
                0,
                data.len() as int,
            );
            &&& got.len() == dest.len()
            &&& got.take(data.len() as int) == data
            &&& got.skip(data.len() as int) == dest.skip(data.len() as int)
        }),
{
    let got = copy_range(dest, s.write(offset, data).bytes, offset as int, 0, data.len() as int);
    assert(got.take(data.len() as int) =~= data);
    assert(got.skip(data.len() as int) =~= dest.skip(data.len() as int));
}

} // verus!
