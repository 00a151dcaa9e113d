//! The peer-address output: an address buffer paired with the slot in which
//! the host reports how much of it is valid.

use crate::arena::{Arena, ArenaModel};
use crate::error::Error;
use crate::output::{copy_range, min_len, Output};
use libc::socklen_t;
use vstd::prelude::*;

verus! {

/// Size and alignment of the length slot in the shared buffer.
pub const LEN_SLOT_SIZE: usize = 4;

/// The four bytes that stand for an address length in the shared buffer,
/// least significant first.
pub open spec fn len_bytes(v: socklen_t) -> Seq<u8> {
    seq![
        (v % 256) as u8,
        ((v / 256) % 256) as u8,
        ((v / 65536) % 256) as u8,
        (v / 16777216) as u8,
    ]
}

/// The address length that the four bytes at `offset` stand for.
pub open spec fn len_at(bytes: Seq<u8>, offset: int) -> socklen_t {
    (bytes[offset] + 256 * bytes[offset + 1] + 65536 * bytes[offset + 2] + 16777216 * bytes[offset
        + 3]) as socklen_t
}

/// A reported address length cut down to the capacity that was granted.
pub open spec fn clamped_len(reported: socklen_t, capacity: usize) -> socklen_t {
    if reported <= capacity {
        reported
    } else {
        capacity as socklen_t
    }
}

/// The caller's storage for a peer address: the bytes of the address and
/// the number of them that are valid.
pub struct SockaddrOutput<'a> {
    /// Where the bytes of the address go.
    pub addr: &'a mut [u8],
    /// Where the number of valid bytes goes.
    pub addrlen: &'a mut socklen_t,
}

/// The slot of the shared buffer in which the host reports an address
/// length, bound to the caller's variable for it.
pub struct LenSlot<'a> {
    /// Offset of the slot in the shared buffer.
    pub offset: usize,
    /// The guest's private destination.
    pub dest: &'a mut socklen_t,
}

impl<'a> LenSlot<'a> {
    /// Offset of the slot in the shared buffer.
    pub fn offset(&self) -> (n: usize)
        ensures
            n == self.offset,
    {
        self.offset
    }
}

/// A peer-address output whose ranges are reserved.
pub struct StagedSockaddrOutput<'a> {
    /// The range for the bytes of the address.
    pub addr: Output<'a>,
    /// The slot for the number of valid bytes.
    pub addrlen: LenSlot<'a>,
}

/// A peer-address output whose offsets are part of an argument vector.
pub struct CommittedSockaddrOutput<'a> {
    /// The range for the bytes of the address.
    pub addr: Output<'a>,
    /// The slot for the number of valid bytes.
    pub addrlen: LenSlot<'a>,
}

/// The capacity that is granted for an address buffer of `len` bytes: all
/// of it, as far as an address length can express it.
pub open spec fn addr_capacity(len: nat) -> nat {
    min_len(len as int, socklen_t::MAX as int) as nat
}

impl ArenaModel {
    /// The state after the two ranges of a peer-address output were
    /// reserved for an address buffer of `len` bytes.
    pub open spec fn reserve_sockaddr(self, len: nat) -> ArenaModel {
        self.allocate(addr_capacity(len), 1).allocate(LEN_SLOT_SIZE as nat, LEN_SLOT_SIZE as nat)
    }

    /// Whether both ranges of a peer-address output fit.
    pub open spec fn fits_sockaddr(self, len: nat) -> bool {
        &&& self.fits(addr_capacity(len), 1)
        &&& self.allocate(addr_capacity(len), 1).fits(
            LEN_SLOT_SIZE as nat,
            LEN_SLOT_SIZE as nat,
        )
    }

    /// Offset of the length slot of a peer-address output staged in this
    /// state.
    pub open spec fn sockaddr_slot(self, len: nat) -> nat {
        crate::arena::align_up(self.used + addr_capacity(len), LEN_SLOT_SIZE as nat)
    }

    /// The state after a peer-address output was staged: both ranges are
    /// reserved and the slot holds the capacity of the address range.
    pub open spec fn stage_sockaddr(self, len: nat) -> ArenaModel {
        self.reserve_sockaddr(len).write(
            self.sockaddr_slot(len),
            len_bytes(addr_capacity(len) as socklen_t),
        )
    }
}

/// Encodes an address length for the shared buffer.
pub fn encode_len(v: socklen_t) -> (b: [u8; 4])
    ensures
        b@ == len_bytes(v),
{
    let b: [u8; 4] = [
        (v % 256) as u8,
        ((v / 256) % 256) as u8,
        ((v / 65536) % 256) as u8,
        (v / 16777216) as u8,
    ];
    assert(b@ =~= len_bytes(v));
    b
}

/// Decodes the address length that the four bytes at `offset` stand for.
pub fn decode_len(bytes: &[u8], offset: usize) -> (v: socklen_t)
    requires
        offset + LEN_SLOT_SIZE <= bytes@.len(),
    ensures
        v == len_at(bytes@, offset as int),
{
    let b0: socklen_t = bytes[offset] as socklen_t;
    let b1: socklen_t = bytes[offset + 1] as socklen_t;
    let b2: socklen_t = bytes[offset + 2] as socklen_t;
    let b3: socklen_t = bytes[offset + 3] as socklen_t;
    b0 + 256 * b1 + 65536 * b2 + 16777216 * b3
}

/// Decoding the bytes of an address length gives the length back, wherever
/// in a buffer they were stored.
pub proof fn lemma_len_round_trip(s: ArenaModel, offset: nat, v: socklen_t)
    requires
        s.covers(offset as int, LEN_SLOT_SIZE as int),
    ensures
        len_at(s.write(offset, len_bytes(v)).bytes, offset as int) == v,
{
    let b = len_bytes(v);
    let after = s.write(offset, b).bytes;
    let o = offset as int;
    assert(b.len() == 4);
    assert(after[o] == b[0]);
    assert(after[o + 1] == b[1]);
    assert(after[o + 2] == b[2]);
    assert(after[o + 3] == b[3]);
}

impl<'a> SockaddrOutput<'a> {
    /// Reserves the address range and the length slot, both or neither.
    pub fn reserve(self, arena: &mut Arena) -> (r: Result<StagedSockaddrOutput<'a>, Error>)
        requires
            old(arena).wf(),
        ensures
            final(arena).wf(),
            match r {
                Ok(staged) => {
                    let len = old(self.addr)@.len();
                    &&& old(arena)@.fits_sockaddr(len)
                    &&& final(arena)@ == old(arena)@.reserve_sockaddr(len)
                    &&& staged.addr.offset == old(arena)@.used
                    &&& staged.addr.len == addr_capacity(len)
                    &&& staged.addr.dest@ == old(self.addr)@
                    &&& final(staged.addr.dest)@ == final(self.addr)@
                    &&& staged.addrlen.offset == old(arena)@.sockaddr_slot(len)
                    &&& *staged.addrlen.dest == *old(self.addrlen)
                    &&& *final(staged.addrlen.dest) == *final(self.addrlen)
                    &&& staged.wf()
                    &&& staged.within(final(arena)@)
                },
                Err(e) => {
                    &&& !old(arena)@.fits_sockaddr(old(self.addr)@.len())
                    &&& e == Error::AllocationExhausted
                    &&& final(arena)@ == old(arena)@
                    &&& final(self.addr)@ == old(self.addr)@
                    &&& *final(self.addrlen) == *old(self.addrlen)
                },
            },
    {
        let SockaddrOutput { addr, addrlen } = self;
        let ghost before = arena@;
        proof {
            arena.lemma_wf();
        }
        let mark = arena.checkpoint();
        let addr = match Output::stage_limited(arena, addr, socklen_t::MAX as usize) {
            Ok(out) => out,
            Err(e) => {
                arena.rollback(mark);
                proof {
                    assert(arena@.marks =~= before.marks);
                    assert(arena@.live =~= before.live);
                }
                return Err(e);
            },
        };
        let slot = match arena.allocate(LEN_SLOT_SIZE, LEN_SLOT_SIZE) {
            Ok(p) => p,
            Err(e) => {
                arena.rollback(mark);
                proof {
                    assert(arena@.marks =~= before.marks);
                    assert(arena@.live =~= before.live);
                }
                return Err(e);
            },
        };
        arena.release(mark);
        proof {
            assert(arena@.marks =~= before.marks);
            arena.lemma_wf();
        }
        Ok(StagedSockaddrOutput { addr, addrlen: LenSlot { offset: slot.offset, dest: addrlen } })
    }

    /// Reserves the address range and the length slot and stores the
    /// capacity of the address range in the slot, for the host to overwrite
    /// with the length that it wrote. On failure the arena is as before.
    pub fn stage(self, arena: &mut Arena) -> (r: Result<StagedSockaddrOutput<'a>, Error>)
        requires
            old(arena).wf(),
        ensures
            final(arena).wf(),
            match r {
                Ok(staged) => {
                    let len = old(self.addr)@.len();
                    &&& old(arena)@.fits_sockaddr(len)
                    &&& final(arena)@ == old(arena)@.stage_sockaddr(len)
                    &&& staged.addr.offset == old(arena)@.used
                    &&& staged.addr.len == addr_capacity(len)
                    &&& staged.addr.dest@ == old(self.addr)@
                    &&& final(staged.addr.dest)@ == final(self.addr)@
                    &&& staged.addrlen.offset == old(arena)@.sockaddr_slot(len)
                    &&& *staged.addrlen.dest == *old(self.addrlen)
                    &&& *final(staged.addrlen.dest) == *final(self.addrlen)
                    &&& staged.wf()
                    &&& staged.within(final(arena)@)
                },
                Err(e) => {
                    &&& !old(arena)@.fits_sockaddr(old(self.addr)@.len())
                    &&& e == Error::AllocationExhausted
                    &&& final(arena)@ == old(arena)@
                    &&& final(self.addr)@ == old(self.addr)@
                    &&& *final(self.addrlen) == *old(self.addrlen)
                },
            },
    {
        match self.reserve(arena) {
            Ok(staged) => {
                staged.fill(arena);
                Ok(staged)
            },
            Err(e) => Err(e),
        }
    }
}

impl<'a> StagedSockaddrOutput<'a> {
    /// The address range is valid and no longer than an address length can
    /// say.
    pub open spec fn wf(&self) -> bool {
        &&& self.addr.wf()
        &&& self.addr.len <= socklen_t::MAX
        &&& self.addrlen.offset + LEN_SLOT_SIZE <= usize::MAX
    }

    /// Whether both ranges lie inside the buffer of `arena`.
    pub open spec fn within(&self, arena: ArenaModel) -> bool {
        &&& self.addr.within(arena)
        &&& arena.covers(self.addrlen.offset as int, LEN_SLOT_SIZE as int)
    }

    /// Stores the capacity of the address range in the length slot.
    pub fn fill(&self, arena: &mut Arena)
        requires
            old(arena).wf(),
            self.wf(),
            self.within(old(arena)@),
        ensures
            final(arena).wf(),
            final(arena)@ == old(arena)@.write(
                self.addrlen.offset as nat,
                len_bytes(self.addr.len as socklen_t),
            ),
    {
        let capacity = encode_len(self.addr.len() as socklen_t);
        arena.write(self.addrlen.offset(), capacity.as_slice());
    }

    /// Freezes the offsets: the output is ready to be named in an argument
    /// vector and, once the host has answered, to be collected.
    pub fn commit(self) -> (c: CommittedSockaddrOutput<'a>)
        ensures
            c.addr == self.addr,
            c.addrlen == self.addrlen,
    {
        CommittedSockaddrOutput { addr: self.addr, addrlen: self.addrlen }
    }
}

impl<'a> CommittedSockaddrOutput<'a> {
    /// The address range is valid and no longer than an address length can
    /// say.
    pub open spec fn wf(&self) -> bool {
        &&& self.addr.wf()
        &&& self.addr.len <= socklen_t::MAX
        &&& self.addrlen.offset + LEN_SLOT_SIZE <= usize::MAX
    }

    /// Whether both ranges lie inside the buffer of `arena`.
    pub open spec fn within(&self, arena: ArenaModel) -> bool {
        &&& self.addr.within(arena)
        &&& arena.covers(self.addrlen.offset as int, LEN_SLOT_SIZE as int)
    }

    /// The address length that is handed to the caller for the contents
    /// `bytes` of the shared buffer: what the slot reports, but never more
    /// than the address range holds.
    pub open spec fn collected_len(&self, bytes: Seq<u8>) -> socklen_t {
        clamped_len(len_at(bytes, self.addrlen.offset as int), self.addr.len)
    }

    /// Reads the length that the host reported, cuts it down to the
    /// capacity of the address range, hands it to the caller, and copies
    /// that many bytes of the address. What the host claims beyond the
    /// capacity is dropped.
    pub fn collect(self, col: &Arena)
        requires
            self.wf(),
            self.within(col@),
        ensures
            *final(self.addrlen.dest) == self.collected_len(col@.bytes),
            *final(self.addrlen.dest) <= self.addr.len,
            final(self.addr.dest)@ == copy_range(
                old(self.addr.dest)@,
                col@.bytes,
                self.addr.offset as int,
                0,
                self.collected_len(col@.bytes) as int,
            ),
    {
        let CommittedSockaddrOutput { addr, addrlen } = self;
        let LenSlot { offset, dest } = addrlen;
        let reported: socklen_t = decode_len(col.bytes(), offset);
        let capacity: usize = addr.len();
        let len: socklen_t = if reported as usize <= capacity {
            reported
        } else {
            capacity as socklen_t
        };
        *dest = len;
        addr.collect_range(col, 0..len as usize);
    }
}

/// After staging, the length slot holds the capacity of the address range.
pub proof fn lemma_slot_holds_capacity(s: ArenaModel, len: nat)
    requires
        s.wf(),
        s.fits_sockaddr(len),
    ensures
        len_at(s.stage_sockaddr(len).bytes, s.sockaddr_slot(len) as int) == addr_capacity(len),
{
    lemma_len_round_trip(
        s.reserve_sockaddr(len),
        s.sockaddr_slot(len),
        addr_capacity(len) as socklen_t,
    );
}

/// The address length handed to the caller never exceeds the capacity that
/// was granted, whatever the host stored in the slot; a report within the
/// capacity is handed on as it is.
pub proof fn lemma_clamped_len(reported: socklen_t, capacity: usize)
    ensures
        clamped_len(reported, capacity) <= capacity,
        clamped_len(reported, capacity) <= reported,
        reported <= capacity ==> clamped_len(reported, capacity) == reported,
{
}

} // verus!
