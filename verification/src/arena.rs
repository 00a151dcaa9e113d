//! The bump allocator that owns the shared buffer.

use crate::error::Error;
use vstd::prelude::*;

verus! {

/// A byte range granted inside the shared buffer.
#[derive(Clone, Copy, Debug, PartialEq, Eq, Structural)]
pub struct Placement {
    /// Offset of the first byte, relative to the start of the buffer.
    pub offset: usize,
    /// Number of bytes granted.
    pub len: usize,
}

impl Placement {
    /// One past the last byte of the range.
    pub open spec fn end(self) -> int {
        self.offset + self.len
    }

    /// Whether two ranges have no byte in common.
    pub open spec fn disjoint(self, other: Placement) -> bool {
        self.end() <= other.offset || other.end() <= self.offset
    }
}

/// A saved allocator state that `Arena::rollback` can return to.
#[derive(Clone, Copy, Debug, PartialEq, Eq, Structural)]
pub struct Mark {
    /// Position of the checkpoint in the allocator's stack of checkpoints.
    pub index: usize,
    /// High-water offset at the time of the checkpoint.
    pub offset: usize,
}

/// What the allocator remembers of one checkpoint.
pub struct Checkpoint {
    /// High-water offset when the checkpoint was taken.
    pub used: nat,
    /// Number of live placements when the checkpoint was taken.
    pub live: nat,
}

/// The mathematical state of an arena.
pub struct ArenaModel {
    /// Contents of the whole shared buffer; its length is the capacity.
    pub bytes: Seq<u8>,
    /// High-water offset: every byte below it may belong to a placement.
    pub used: nat,
    /// The live placements, oldest first.
    pub live: Seq<Placement>,
    /// The stack of checkpoints, oldest first.
    pub marks: Seq<Checkpoint>,
}

/// The smallest multiple of `align` that is not below `offset`; an
/// alignment of zero asks for nothing and is read as one.
pub open spec fn align_up(offset: nat, align: nat) -> nat {
    let a = if align == 0 { 1 } else { align };
    let rem = offset % a;
    if rem == 0 {
        offset
    } else {
        (offset + a - rem) as nat
    }
}

/// One request for a range: its size and its alignment.
pub struct Request {
    pub size: nat,
    pub align: nat,
}

/// Total length of the placements `live`.
pub open spec fn total_len(live: Seq<Placement>) -> nat
    decreases live.len(),
{
    if live.len() == 0 {
        0
    } else {
        total_len(live.drop_last()) + live.last().len as nat
    }
}

impl ArenaModel {
    /// The state of a new arena of `capacity` zero bytes.
    pub open spec fn fresh(capacity: nat) -> ArenaModel {
        ArenaModel {
            bytes: Seq::new(capacity, |i: int| 0u8),
            used: 0,
            live: Seq::empty(),
            marks: Seq::empty(),
        }
    }

    /// Size of the shared buffer in bytes.
    pub open spec fn capacity(self) -> nat {
        self.bytes.len()
    }

    /// Bytes between the high-water offset and the end of the buffer.
    pub open spec fn free(self) -> int {
        self.capacity() - self.used
    }

    /// Live placements lie below the high-water offset, in allocation order
    /// and without overlap; every checkpoint splits them into those made
    /// before it and those made after it.
    pub open spec fn wf(self) -> bool {
        &&& self.used <= self.capacity() <= usize::MAX
        &&& self.marks.len() <= usize::MAX
        &&& forall|i: int|
            #![trigger self.live[i]]
            0 <= i < self.live.len() ==> self.live[i].end() <= self.used
        &&& forall|i: int, j: int|
            #![trigger self.live[i], self.live[j]]
            0 <= i < j < self.live.len() ==> self.live[i].end() <= self.live[j].offset
        &&& forall|k: int|
            #![trigger self.marks[k]]
            0 <= k < self.marks.len() ==> self.marks[k].used <= self.used && self.marks[k].live
                <= self.live.len()
        &&& forall|k: int, l: int|
            #![trigger self.marks[k], self.marks[l]]
            0 <= k < l < self.marks.len() ==> self.marks[k].used <= self.marks[l].used
                && self.marks[k].live <= self.marks[l].live
        &&& forall|k: int, i: int|
            #![trigger self.marks[k], self.live[i]]
            0 <= k < self.marks.len() && 0 <= i < self.live.len() ==> if i < self.marks[k].live {
                self.live[i].end() <= self.marks[k].used
            } else {
                self.live[i].offset >= self.marks[k].used
            }
    }

    /// Whether a request of `size` bytes at alignment `align` can be granted.
    pub open spec fn fits(self, size: nat, align: nat) -> bool {
        align_up(self.used, align) + size <= self.capacity()
    }

    /// The range that a request is granted when it fits.
    pub open spec fn placement(self, size: nat, align: nat) -> Placement {
        Placement { offset: align_up(self.used, align) as usize, len: size as usize }
    }

    /// The state after a request that fits has been granted.
    pub open spec fn allocate(self, size: nat, align: nat) -> ArenaModel {
        ArenaModel {
            used: align_up(self.used, align) + size,
            live: self.live.push(self.placement(size, align)),
            ..self
        }
    }

    /// The mark that the next checkpoint hands out.
    pub open spec fn next_mark(self) -> Mark {
        Mark { index: self.marks.len() as usize, offset: self.used as usize }
    }

    /// The state after a checkpoint was taken.
    pub open spec fn checkpoint(self) -> ArenaModel {
        ArenaModel {
            marks: self.marks.push(Checkpoint { used: self.used, live: self.live.len() }),
            ..self
        }
    }

    /// Whether `mark` names a checkpoint that is still on the stack.
    pub open spec fn holds(self, mark: Mark) -> bool {
        mark.index < self.marks.len() && self.marks[mark.index as int].used == mark.offset
    }

    /// The state after a rollback: every placement made since the checkpoint
    /// is gone, and so are the checkpoint and all later ones. A mark that no
    /// longer holds changes nothing.
    pub open spec fn rollback(self, mark: Mark) -> ArenaModel {
        if self.holds(mark) {
            ArenaModel {
                bytes: self.bytes,
                used: mark.offset as nat,
                live: self.live.take(self.marks[mark.index as int].live as int),
                marks: self.marks.take(mark.index as int),
            }
        } else {
            self
        }
    }

    /// The state after a checkpoint was given up: the placements made since
    /// stay, the checkpoint and all later ones are forgotten.
    pub open spec fn release(self, mark: Mark) -> ArenaModel {
        if self.holds(mark) {
            ArenaModel { marks: self.marks.take(mark.index as int), ..self }
        } else {
            self
        }
    }

    /// The state after a request was made: granted if it fits, else
    /// nothing has changed.
    pub open spec fn request(self, size: nat, align: nat) -> ArenaModel {
        if self.fits(size, align) {
            self.allocate(size, align)
        } else {
            self
        }
    }

    /// The state after the requests `reqs` were made in turn.
    pub open spec fn request_all(self, reqs: Seq<Request>) -> ArenaModel
        decreases reqs.len(),
    {
        if reqs.len() == 0 {
            self
        } else {
            self.request_all(reqs.drop_last()).request(reqs.last().size, reqs.last().align)
        }
    }

    /// Total size of those of the requests `reqs`, made in turn, that were
    /// granted.
    pub open spec fn granted(self, reqs: Seq<Request>) -> nat
        decreases reqs.len(),
    {
        if reqs.len() == 0 {
            0
        } else {
            let before = self.request_all(reqs.drop_last());
            let earlier = self.granted(reqs.drop_last());
            if before.fits(reqs.last().size, reqs.last().align) {
                earlier + reqs.last().size
            } else {
                earlier
            }
        }
    }

    /// Whether `len` bytes at `offset` lie inside the buffer.
    pub open spec fn covers(self, offset: int, len: int) -> bool {
        0 <= offset && 0 <= len && offset + len <= self.capacity()
    }

    /// The state after `data` was stored at `offset`; a range that leaves
    /// the buffer changes nothing.
    pub open spec fn write(self, offset: nat, data: Seq<u8>) -> ArenaModel {
        if self.covers(offset as int, data.len() as int) {
            ArenaModel {
                bytes: Seq::new(
                    self.bytes.len(),
                    |i: int|
                        if offset <= i < offset + data.len() {
                            data[i - offset]
                        } else {
                            self.bytes[i]
                        },
                ),
                ..self
            }
        } else {
            self
        }
    }
}

/// The shared buffer together with its bump allocator: one advancing
/// high-water offset and a stack of checkpoints.
pub struct Arena {
    buf: Vec<u8>,
    used: usize,
    marks: Vec<usize>,
    live: Ghost<Seq<Placement>>,
    counts: Ghost<Seq<nat>>,
}

impl View for Arena {
    type V = ArenaModel;

    closed spec fn view(&self) -> ArenaModel {
        ArenaModel {
            bytes: self.buf@,
            used: self.used as nat,
            live: self.live@,
            marks: Seq::new(
                self.marks@.len(),
                |k: int| Checkpoint { used: self.marks@[k] as nat, live: self.counts@[k] },
            ),
        }
    }
}

impl Arena {
    /// The invariant of the allocator.
    pub closed spec fn wf(&self) -> bool {
        &&& self.counts@.len() == self.marks@.len()
        &&& self@.wf()
    }

    /// What `wf` promises of the model.
    pub proof fn lemma_wf(&self)
        requires
            self.wf(),
        ensures
            self@.wf(),
    {
    }

    /// A new arena of `capacity` zero bytes with nothing allocated.
    pub fn new(capacity: usize) -> (arena: Arena)
        ensures
            arena.wf(),
            arena@ == ArenaModel::fresh(capacity as nat),
    {
        let buf = vec![0u8; capacity];
        let arena = Arena {
            buf,
            used: 0,
            marks: Vec::new(),
            live: Ghost(Seq::empty()),
            counts: Ghost(Seq::empty()),
        };
        proof {
            assert(arena@.bytes =~= ArenaModel::fresh(capacity as nat).bytes);
            assert(arena@.marks =~= ArenaModel::fresh(capacity as nat).marks);
        }
        arena
    }

    /// Size of the shared buffer in bytes.
    pub fn capacity(&self) -> (n: usize)
        ensures
            n == self@.capacity(),
    {
        self.buf.len()
    }

    /// The high-water offset.
    pub fn used(&self) -> (n: usize)
        ensures
            n == self@.used,
    {
        self.used
    }

    /// Bytes left above the high-water offset.
    pub fn free(&self) -> (n: usize)
        requires
            self.wf(),
        ensures
            n == self@.free(),
    {
        self.buf.len() - self.used
    }

    /// The contents of the shared buffer.
    pub fn bytes(&self) -> (b: &[u8])
        ensures
            b@ == self@.bytes,
    {
        self.buf.as_slice()
    }

    /// Grants `size` bytes at the next offset that is a multiple of `align`.
    /// A request that does not fit fails and leaves the arena as it was.
    pub fn allocate(&mut self, size: usize, align: usize) -> (r: Result<Placement, Error>)
        requires
            old(self).wf(),
        ensures
            final(self).wf(),
            old(self)@.fits(size as nat, align as nat) ==> r == Ok::<Placement, Error>(
                old(self)@.placement(size as nat, align as nat),
            ) && final(self)@ == old(self)@.allocate(size as nat, align as nat),
            !old(self)@.fits(size as nat, align as nat) ==> r == Err::<Placement, Error>(
                Error::AllocationExhausted,
            ) && final(self)@ == old(self)@,
            size > old(self)@.free() ==> r is Err,
    {
        let a: usize = if align == 0 { 1 } else { align };
        let rem: usize = self.used % a;
        let pad: usize = if rem == 0 { 0 } else { a - rem };
        let start: usize = match self.used.checked_add(pad) {
            Some(s) => s,
            None => { return Err(Error::AllocationExhausted); },
        };
        let end: usize = match start.checked_add(size) {
            Some(e) => e,
            None => { return Err(Error::AllocationExhausted); },
        };
        if end > self.buf.len() {
            return Err(Error::AllocationExhausted);
        }
        let placement = Placement { offset: start, len: size };
        let ghost before = self@;
        self.used = end;
        self.live = Ghost(self.live@.push(placement));
        proof {
            assert(self@.marks =~= before.marks);
            assert(self@ == before.allocate(size as nat, align as nat));
        }
        Ok(placement)
    }

    /// Saves the current allocator state on the stack of checkpoints.
    pub fn checkpoint(&mut self) -> (mark: Mark)
        requires
            old(self).wf(),
        ensures
            final(self).wf(),
            final(self)@ == old(self)@.checkpoint(),
            mark == old(self)@.next_mark(),
            final(self)@.holds(mark),
    {
        let mark = Mark { index: self.marks.len(), offset: self.used };
        let ghost before = self@;
        self.marks.push(self.used);
        self.counts = Ghost(self.counts@.push(self.live@.len()));
        proof {
            assert(self@.marks =~= before.checkpoint().marks);
            assert(self.marks.len() == self.marks@.len());
        }
        mark
    }

    /// Undoes every allocation made since `mark` was taken and drops the
    /// checkpoint. Returns whether the mark still held; if it did not, the
    /// arena is left as it was.
    pub fn rollback(&mut self, mark: Mark) -> (done: bool)
        requires
            old(self).wf(),
        ensures
            final(self).wf(),
            done == old(self)@.holds(mark),
            final(self)@ == old(self)@.rollback(mark),
    {
        if mark.index < self.marks.len() && self.marks[mark.index] == mark.offset {
            let ghost before = self@;
            let ghost keep = self.counts@[mark.index as int];
            self.used = mark.offset;
            self.marks.truncate(mark.index);
            self.live = Ghost(self.live@.take(keep as int));
            self.counts = Ghost(self.counts@.take(mark.index as int));
            proof {
                assert(self@.marks =~= before.rollback(mark).marks);
            }
            true
        } else {
            false
        }
    }

    /// Drops the checkpoint `mark` and keeps what was allocated since.
    /// Returns whether the mark still held; if it did not, the arena is left
    /// as it was.
    pub fn release(&mut self, mark: Mark) -> (done: bool)
        requires
            old(self).wf(),
        ensures
            final(self).wf(),
            done == old(self)@.holds(mark),
            final(self)@ == old(self)@.release(mark),
    {
        if mark.index < self.marks.len() && self.marks[mark.index] == mark.offset {
            let ghost before = self@;
            self.marks.truncate(mark.index);
            self.counts = Ghost(self.counts@.take(mark.index as int));
            proof {
                assert(self@.marks =~= before.release(mark).marks);
            }
            true
        } else {
            false
        }
    }

    /// Stores `data` at `offset`. Returns whether the range lies inside the
    /// buffer; if it does not, nothing is stored.
    pub fn write(&mut self, offset: usize, data: &[u8]) -> (done: bool)
        requires
            old(self).wf(),
        ensures
            final(self).wf(),
            done == old(self)@.covers(offset as int, data@.len() as int),
            final(self)@ == old(self)@.write(offset as nat, data@),
    {
        let n: usize = data.len();
        if offset > self.buf.len() || n > self.buf.len() - offset {
            return false;
        }
        let ghost before = self@;
        let mut i: usize = 0;
        while i < n
            invariant
                i <= n,
                n == data@.len(),
                offset + n <= self.buf@.len() <= usize::MAX,
                self.buf@.len() == before.bytes.len(),
                self.used == before.used,
                self.live@ == before.live,
                self.marks@ == old(self).marks@,
                self.counts@ == old(self).counts@,
                forall|j: int|
                    0 <= j < self.buf@.len() ==> self.buf@[j] == if offset <= j < offset + i {
                        data@[j - offset]
                    } else {
                        before.bytes[j]
                    },
            decreases n - i,
        {
            self.buf[offset + i] = data[i];
            i += 1;
        }
        proof {
            assert(self@.bytes =~= before.write(offset as nat, data@).bytes);
            assert(self@.marks =~= before.marks);
        }
        true
    }
}

/// `align_up` is what its name says: a multiple of the alignment, not below
/// the offset, and the least such number.
pub proof fn lemma_align_up(offset: nat, align: nat, other: nat)
    ensures
        ({
            let a = if align == 0 { 1 } else { align };
            &&& offset <= align_up(offset, align) < offset + a
            &&& align_up(offset, align) % a == 0
            &&& other >= offset && other % a == 0 ==> other >= align_up(offset, align)
        }),
{
    let a: int = if align == 0 { 1 } else { align as int };
    let o: int = offset as int;
    let q: int = o / a;
    let rem: int = o % a;
    vstd::arithmetic::div_mod::lemma_fundamental_div_mod(o, a);
    vstd::arithmetic::div_mod::lemma_mod_bound(o, a);
    let up: int = align_up(offset, align) as int;
    if rem == 0 {
        assert(up == o);
    } else {
        assert(up == o + a - rem);
        assert(up == (q + 1) * a) by (nonlinear_arith)
            requires
                o == a * q + rem,
                up == o + a - rem,
        ;
        vstd::arithmetic::div_mod::lemma_mod_multiples_basic(q + 1, a);
        if other >= offset && (other as int) % a == 0 {
            let m: int = other as int;
            let k: int = m / a;
            vstd::arithmetic::div_mod::lemma_fundamental_div_mod(m, a);
            assert(m == a * k);
            assert(k >= q + 1) by (nonlinear_arith)
                requires
                    a > 0,
                    m == a * k,
                    o == a * q + rem,
                    rem > 0,
                    m >= o,
            ;
            assert(m >= up) by (nonlinear_arith)
                requires
                    a > 0,
                    m == a * k,
                    up == (q + 1) * a,
                    k >= q + 1,
            ;
        }
    }
}

/// A request larger than what is left above the high-water offset is
/// refused, whatever its alignment.
pub proof fn lemma_oversized_request_refused(s: ArenaModel, size: nat, align: nat)
    requires
        s.wf(),
        size > s.free(),
    ensures
        !s.fits(size, align),
        s.request(size, align) == s,
{
    lemma_align_up(s.used, align, 0);
}

/// Requests never move the high-water offset down, never change the
/// capacity, and the granted ones take at least their own size.
pub proof fn lemma_requests_consume(s: ArenaModel, reqs: Seq<Request>)
    requires
        s.wf(),
    ensures
        s.request_all(reqs).wf(),
        s.request_all(reqs).capacity() == s.capacity(),
        s.request_all(reqs).used >= s.used + s.granted(reqs),
        s.request_all(reqs).free() <= s.free() - s.granted(reqs),
    decreases reqs.len(),
{
    if reqs.len() > 0 {
        let head = reqs.drop_last();
        let last = reqs.last();
        lemma_requests_consume(s, head);
        let before = s.request_all(head);
        lemma_align_up(before.used, last.align, 0);
        if before.fits(last.size, last.align) {
            lemma_allocate_wf(before, last.size, last.align);
        }
    }
}

/// Granting a request that fits keeps the state well formed.
pub proof fn lemma_allocate_wf(s: ArenaModel, size: nat, align: nat)
    requires
        s.wf(),
        s.fits(size, align),
    ensures
        s.allocate(size, align).wf(),
        s.allocate(size, align).used >= s.used + size,
{
    lemma_align_up(s.used, align, 0);
    let t = s.allocate(size, align);
    let p = s.placement(size, align);
    assert(p.offset == align_up(s.used, align));
    assert(p.len == size);
    assert forall|i: int| 0 <= i < t.live.len() implies (#[trigger] t.live[i]).end() <= t.used by {
        if i < s.live.len() {
            assert(t.live[i] == s.live[i]);
        }
    }
    assert forall|i: int, j: int| 0 <= i < j < t.live.len() implies (#[trigger] t.live[i]).end()
        <= (#[trigger] t.live[j]).offset by {
        assert(t.live[i] == s.live[i]);
        if j < s.live.len() {
            assert(t.live[j] == s.live[j]);
        }
    }
    assert forall|k: int, i: int|
        0 <= k < t.marks.len() && 0 <= i < t.live.len() implies if i < (#[trigger] t.marks[k]).live {
        (#[trigger] t.live[i]).end() <= t.marks[k].used
    } else {
        t.live[i].offset >= t.marks[k].used
    } by {
        if i < s.live.len() {
            assert(t.live[i] == s.live[i]);
        }
    }
}

/// Once the sizes granted so far and the size of the next request together
/// exceed what was free at the start, the next request is refused and the
/// arena stays as it is: the high-water offset does not move.
pub proof fn lemma_exceeding_request_refused(
    s: ArenaModel,
    reqs: Seq<Request>,
    size: nat,
    align: nat,
)
    requires
        s.wf(),
        s.granted(reqs) + size > s.free(),
    ensures
        !s.request_all(reqs).fits(size, align),
        s.request_all(reqs).request(size, align) == s.request_all(reqs),
        s.request_all(reqs.push(Request { size, align })).used == s.request_all(reqs).used,
{
    lemma_requests_consume(s, reqs);
    lemma_oversized_request_refused(s.request_all(reqs), size, align);
    let more = reqs.push(Request { size, align });
    assert(more.drop_last() =~= reqs);
}

/// A checkpoint that is rolled back at once leaves the arena exactly as it
/// was before the checkpoint.
pub proof fn lemma_checkpoint_rollback(s: ArenaModel)
    requires
        s.wf(),
    ensures
        s.checkpoint().holds(s.next_mark()),
        s.checkpoint().rollback(s.next_mark()) == s,
{
    let t = s.checkpoint().rollback(s.next_mark());
    assert(t.live =~= s.live);
    assert(t.marks =~= s.marks);
}

/// Rolling back to a checkpoint undoes every request made since: the
/// arena is as it was before the checkpoint, whatever was granted between.
pub proof fn lemma_rollback_undoes_requests(s: ArenaModel, reqs: Seq<Request>)
    requires
        s.wf(),
    ensures
        s.checkpoint().request_all(reqs).rollback(s.next_mark()) == s,
{
    lemma_requests_keep(s.checkpoint(), reqs);
    let c = s.checkpoint();
    let t = c.request_all(reqs);
    let r = t.rollback(s.next_mark());
    assert(t.marks[s.marks.len() as int] == c.marks[s.marks.len() as int]);
    assert(r.live =~= s.live);
    assert(r.marks =~= s.marks);
}

/// Requests change neither the bytes nor the checkpoints, and they leave
/// the earlier placements where they are.
pub proof fn lemma_requests_keep(s: ArenaModel, reqs: Seq<Request>)
    ensures
        s.request_all(reqs).bytes == s.bytes,
        s.request_all(reqs).marks == s.marks,
        s.request_all(reqs).live.len() >= s.live.len(),
        s.request_all(reqs).live.take(s.live.len() as int) == s.live,
    decreases reqs.len(),
{
    if reqs.len() > 0 {
        lemma_requests_keep(s, reqs.drop_last());
        let before = s.request_all(reqs.drop_last());
        let after = s.request_all(reqs);
        assert(after.live.take(s.live.len() as int) =~= before.live.take(s.live.len() as int));
    } else {
        assert(s.live.take(s.live.len() as int) =~= s.live);
    }
}

/// Two live placements never overlap.
pub proof fn lemma_live_disjoint(s: ArenaModel, i: int, j: int)
    requires
        s.wf(),
        0 <= i < s.live.len(),
        0 <= j < s.live.len(),
        i != j,
    ensures
        s.live[i].disjoint(s.live[j]),
{
    if i < j {
        assert(s.live[i].end() <= s.live[j].offset);
    } else {
        assert(s.live[j].end() <= s.live[i].offset);
    }
}

/// Placements that follow each other without overlap and end at or below
/// `bound` are no longer than `bound` together.
proof fn lemma_total_bounded(live: Seq<Placement>, bound: int)
    requires
        forall|i: int| #![trigger live[i]] 0 <= i < live.len() ==> live[i].end() <= bound,
        forall|i: int, j: int|
            #![trigger live[i], live[j]]
            0 <= i < j < live.len() ==> live[i].end() <= live[j].offset,
    ensures
        total_len(live) <= bound || live.len() == 0,
    decreases live.len(),
{
    if live.len() > 0 {
        let head = live.drop_last();
        let last = live.last();
        assert(live[live.len() - 1] == last);
        assert forall|i: int| #![trigger head[i]] 0 <= i < head.len() implies head[i].end()
            <= last.offset by {
            assert(head[i] == live[i]);
        }
        assert forall|i: int, j: int|
            #![trigger head[i], head[j]]
            0 <= i < j < head.len() implies head[i].end() <= head[j].offset by {
            assert(head[i] == live[i]);
            assert(head[j] == live[j]);
        }
        lemma_total_bounded(head, last.offset as int);
    }
}

/// The live placements together are no longer than the buffer.
pub proof fn lemma_live_total(s: ArenaModel)
    requires
        s.wf(),
    ensures
        total_len(s.live) <= s.used <= s.capacity(),
{
    lemma_total_bounded(s.live, s.used as int);
}

} // verus!
