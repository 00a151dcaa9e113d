//! The call that receives a message from a socket and reports where it
//! came from.

use crate::arena::{lemma_align_up, Arena, ArenaModel, Placement};
use crate::argv::{Argv, NULL};
use crate::error::Error;
use crate::output::{copy_range, lemma_copy_after_write, Output};
use crate::sockaddr::{
    addr_capacity, CommittedSockaddrOutput, SockaddrOutput, StagedSockaddrOutput, LEN_SLOT_SIZE,
};
use crate::syscall::Syscall;
use libc::{c_int, c_long, size_t};
use vstd::prelude::*;

verus! {

/// A request to receive a message: the socket, the buffer for the message,
/// the flags of the call and, if the caller wants it, storage for the
/// address of the sender.
pub struct Recvfrom<'a> {
    /// The socket to receive from.
    pub sockfd: c_int,
    /// Where the message goes.
    pub buf: &'a mut [u8],
    /// Flags of the call, handed to the host as they are.
    pub flags: c_int,
    /// Where the address of the sender goes, if the caller asks for it.
    pub src_addr: Option<SockaddrOutput<'a>>,
}

/// `libc::SYS_recvfrom`, the number under which the host knows the call.
/// The value belongs to the target that the crate is built for; on each of
/// them it is a positive number, and no more than that is claimed here.
#[verifier::external_body]
fn sys_recvfrom() -> (n: c_long)
    ensures
        n > 0,
{
    libc::SYS_recvfrom
}

/// Whether the host's answer can be trusted for an output of `len` bytes:
/// it reports success and no more bytes than were reserved.
pub open spec fn plausible(len: usize, ret: Result<size_t, Error>) -> bool {
    ret matches Ok(n) && n <= len
}

/// What the caller is told: nothing where the host claims more bytes than
/// were reserved, else the host's answer as it is.
pub open spec fn collected_result(len: usize, ret: Result<size_t, Error>) -> Option<
    Result<size_t, Error>,
> {
    match ret {
        Ok(n) => if n > len {
            None
        } else {
            Some(ret)
        },
        Err(_) => Some(ret),
    }
}

impl ArenaModel {
    /// The state after a receive call was staged whose address buffer, if
    /// it has one, is `addr_len` bytes long and whose message buffer is
    /// `buf_len` bytes long: the peer-address output first, then the
    /// message.
    pub open spec fn stage_recvfrom(self, addr_len: Option<nat>, buf_len: nat) -> ArenaModel {
        match addr_len {
            Some(n) => self.stage_sockaddr(n).allocate(buf_len, 1),
            None => self.allocate(buf_len, 1),
        }
    }

    /// Whether every range of such a call fits.
    pub open spec fn fits_recvfrom(self, addr_len: Option<nat>, buf_len: nat) -> bool {
        match addr_len {
            Some(n) => self.fits_sockaddr(n) && self.reserve_sockaddr(n).fits(buf_len, 1),
            None => self.fits(buf_len, 1),
        }
    }

    /// Offset of the message range of such a call.
    pub open spec fn recvfrom_buf(self, addr_len: Option<nat>) -> nat {
        match addr_len {
            Some(n) => self.reserve_sockaddr(n).used,
            None => self.used,
        }
    }
}

impl<'a> Recvfrom<'a> {
    /// Length of the caller's address buffer, if there is one.
    pub open spec fn addr_len(&self) -> Option<nat> {
        match self.src_addr {
            Some(s) => Some(s.addr@.len()),
            None => None,
        }
    }
}

impl<'a> Syscall<'a> for Recvfrom<'a> {
    type Argv = Argv<6>;

    type Ret = size_t;

    type Staged = (Output<'a>, Option<StagedSockaddrOutput<'a>>);

    type Committed = (Output<'a>, Option<CommittedSockaddrOutput<'a>>);

    type Collected = Option<Result<size_t, Error>>;

    open spec fn fits(&self, arena: ArenaModel) -> bool {
        arena.fits_recvfrom(self.addr_len(), self.buf@.len())
    }

    open spec fn staged(&self, arena: ArenaModel) -> ArenaModel {
        arena.stage_recvfrom(self.addr_len(), self.buf@.len())
    }

    open spec fn collectable(
        committed: &(Output<'a>, Option<CommittedSockaddrOutput<'a>>),
        arena: ArenaModel,
    ) -> bool {
        &&& committed.0.wf()
        &&& committed.0.within(arena)
        &&& committed.1 matches Some(s) ==> s.wf() && s.within(arena)
    }

    /// The number under which the host knows the call.
    fn num() -> (n: c_long)
        ensures
            n > 0,
    {
        sys_recvfrom()
    }

    /// Reserves the ranges of the call in the shared buffer and builds its
    /// argument vector: socket, offset and length of the message range,
    /// flags, offset of the address range, offset of the length slot. If
    /// any range does not fit the arena is left as it was.
    fn stage(self, arena: &mut Arena) -> (r: Result<
        (Argv<6>, (Output<'a>, Option<StagedSockaddrOutput<'a>>)),
        Error,
    >)
        ensures
            match r {
                Ok((argv, (buf, src_addr))) => {
                    let before = old(arena)@;
                    let len = old(self.buf)@.len();
                    &&& before.fits_recvfrom(self.addr_len(), len)
                    &&& final(arena)@ == before.stage_recvfrom(self.addr_len(), len)
                    &&& buf.offset == before.recvfrom_buf(self.addr_len())
                    &&& buf.len == len
                    &&& buf.dest@ == old(self.buf)@
                    &&& final(buf.dest)@ == final(self.buf)@
                    &&& buf.wf()
                    &&& buf.within(final(arena)@)
                    &&& match (self.src_addr, src_addr) {
                        (Some(s), Some(staged)) => {
                            &&& staged.addr.offset == before.used
                            &&& staged.addr.len == addr_capacity(s.addr@.len())
                            &&& staged.addr.dest@ == s.addr@
                            &&& final(staged.addr.dest)@ == final(s.addr)@
                            &&& staged.addrlen.offset == before.sockaddr_slot(s.addr@.len())
                            &&& *staged.addrlen.dest == *s.addrlen
                            &&& *final(staged.addrlen.dest) == *final(s.addrlen)
                            &&& staged.wf()
                            &&& staged.within(final(arena)@)
                            &&& argv@ == seq![
                                self.sockfd as usize,
                                buf.offset,
                                buf.len,
                                self.flags as usize,
                                staged.addr.offset,
                                staged.addrlen.offset,
                            ]
                        },
                        (None, None) => argv@ == seq![
                            self.sockfd as usize,
                            buf.offset,
                            buf.len,
                            self.flags as usize,
                            NULL,
                            NULL,
                        ],
                        _ => false,
                    }
                },
                Err(e) => {
                    &&& !old(arena)@.fits_recvfrom(self.addr_len(), old(self.buf)@.len())
                    &&& e == Error::AllocationExhausted
                    &&& final(arena)@ == old(arena)@
                    &&& final(self.buf)@ == old(self.buf)@
                    &&& self.src_addr matches Some(s) ==> {
                        &&& final(s.addr)@ == s.addr@
                        &&& *final(s.addrlen) == *s.addrlen
                    }
                },
            },
    {
        let Recvfrom { sockfd, buf, flags, src_addr } = self;
        let ghost before = arena@;
        proof {
            arena.lemma_wf();
        }
        let mark = arena.checkpoint();
        let src_addr = match src_addr {
            Some(s) => match s.reserve(arena) {
                Ok(staged) => Some(staged),
                Err(e) => {
                    arena.rollback(mark);
                    proof {
                        assert(arena@.marks =~= before.marks);
                        assert(arena@.live =~= before.live);
                    }
                    return Err(e);
                },
            },
            None => None,
        };
        let buf = match Output::stage_max(arena, buf) {
            Ok(out) => out,
            Err(e) => {
                arena.rollback(mark);
                proof {
                    assert(arena@.marks =~= before.marks);
                    assert(arena@.live =~= before.live);
                    assert(has_resolved(src_addr));
                    assert(src_addr matches Some(staged) ==> has_resolved(staged.addr.dest)
                        && has_resolved(staged.addrlen.dest));
                }
                return Err(e);
            },
        };
        arena.release(mark);
        let (addr_offset, slot_offset) = match &src_addr {
            Some(staged) => {
                staged.fill(arena);
                (staged.addr.offset(), staged.addrlen.offset())
            },
            None => (NULL, NULL),
        };
        proof {
            assert(arena@.marks =~= before.marks);
            assert(arena@.bytes =~= before.stage_recvfrom(self.addr_len(), buf.len as nat).bytes);
        }
        let argv = Argv(
            [
                #[verifier::truncate]
                (sockfd as usize),
                buf.offset(),
                buf.len(),
                #[verifier::truncate]
                (flags as usize),
                addr_offset,
                slot_offset,
            ],
        );
        Ok((argv, (buf, src_addr)))
    }

    /// Freezes the staged offsets: the outputs are ready to be collected
    /// once the host has answered.
    fn commit(staged: (Output<'a>, Option<StagedSockaddrOutput<'a>>)) -> (c: (
        Output<'a>,
        Option<CommittedSockaddrOutput<'a>>,
    ))
        ensures
            c.0 == staged.0,
            match (staged.1, c.1) {
                (Some(s), Some(t)) => t.addr == s.addr && t.addrlen == s.addrlen,
                (None, None) => true,
                _ => false,
            },
    {
        let (buf, src_addr) = staged;
        let src_addr = match src_addr {
            Some(s) => Some(s.commit()),
            None => None,
        };
        (buf, src_addr)
    }

    /// Validates the host's answer and hands the results to the caller. A
    /// byte count beyond the reserved length is not believed: the answer is
    /// dropped and nothing is copied. An error of the host is passed on as
    /// it is, and nothing is copied. Else the reported bytes of the message
    /// are copied and the peer address is collected.
    fn collect(
        committed: (Output<'a>, Option<CommittedSockaddrOutput<'a>>),
        ret: Result<size_t, Error>,
        col: &Arena,
    ) -> (r: Option<Result<size_t, Error>>)
        ensures
            r == collected_result(committed.0.len, ret),
            final(committed.0.dest)@ == if plausible(committed.0.len, ret) {
                copy_range(
                    old(committed.0.dest)@,
                    col@.bytes,
                    committed.0.offset as int,
                    0,
                    ret->Ok_0 as int,
                )
            } else {
                old(committed.0.dest)@
            },
            committed.1 matches Some(s) ==> if plausible(committed.0.len, ret) {
                &&& *final(s.addrlen.dest) == s.collected_len(col@.bytes)
                &&& final(s.addr.dest)@ == copy_range(
                    s.addr.dest@,
                    col@.bytes,
                    s.addr.offset as int,
                    0,
                    s.collected_len(col@.bytes) as int,
                )
            } else {
                &&& *final(s.addrlen.dest) == *s.addrlen.dest
                &&& final(s.addr.dest)@ == s.addr.dest@
            },
    {
        let (buf, src_addr) = committed;
        match ret {
            Ok(n) => match buf.check_len(n) {
                Err(_) => None,
                Ok(n) => {
                    buf.collect_range(col, 0..n);
                    match src_addr {
                        Some(s) => s.collect(col),
                        None => {},
                    }
                    Some(Ok(n))
                },
            },
            Err(e) => Some(Err(e)),
        }
    }
}

/// Round trip: when a receive call is staged, the host stores no more bytes
/// than the message range holds at the offset named in the argument vector
/// and reports their number, then the caller is told that number, its
/// buffer starts with exactly the bytes the host stored, and the rest of
/// the buffer is as it was.
pub proof fn lemma_round_trip(s: ArenaModel, addr_len: Option<nat>, dest: Seq<u8>, data: Seq<u8>)
    requires
        s.wf(),
        s.fits_recvfrom(addr_len, dest.len()),
        data.len() <= dest.len(),
    ensures
        ({
            let offset = s.recvfrom_buf(addr_len);
            let ret = Ok::<size_t, Error>(data.len() as size_t);
            let answered = s.stage_recvfrom(addr_len, dest.len()).write(offset, data);
            let got = copy_range(dest, answered.bytes, offset as int, 0, data.len() as int);
            &&& plausible(dest.len() as usize, ret)
            &&& collected_result(dest.len() as usize, ret) == Some(ret)
            &&& got.len() == dest.len()
            &&& got.take(data.len() as int) == data
            &&& got.skip(data.len() as int) == dest.skip(data.len() as int)
        }),
{
    let offset = s.recvfrom_buf(addr_len);
    let staged = s.stage_recvfrom(addr_len, dest.len());
    lemma_align_up(offset, 1, 0);
    lemma_copy_after_write(staged, offset, data, dest);
}

/// The offsets in the argument vector of a staged receive call are offsets
/// of placements that the arena granted for it: the address range and the
/// length slot, if the caller asked for the address, and the message range.
pub proof fn lemma_staged_placements(s: ArenaModel, addr_len: Option<nat>, buf_len: nat)
    requires
        s.wf(),
        s.fits_recvfrom(addr_len, buf_len),
    ensures
        ({
            let buf = Placement { offset: s.recvfrom_buf(addr_len) as usize, len: buf_len as usize };
            match addr_len {
                Some(n) => s.stage_recvfrom(addr_len, buf_len).live == s.live.push(
                    Placement { offset: s.used as usize, len: addr_capacity(n) as usize },
                ).push(
                    Placement { offset: s.sockaddr_slot(n) as usize, len: LEN_SLOT_SIZE },
                ).push(buf),
                None => s.stage_recvfrom(addr_len, buf_len).live == s.live.push(buf),
            }
        }),
{
    lemma_align_up(s.used, 1, 0);
    match addr_len {
        Some(n) => {
            lemma_align_up(s.reserve_sockaddr(n).used, 1, 0);
        },
        None => {},
    }
}

} // verus!
