//! Queued outbound data: `Chunk`, a contiguous run of bytes offered to the
//! transport in one send attempt, and `ChunkIterator`, the cursor over an
//! append-only backing sequence of pending byte ranges.
//!
//! The cursor is the heart of the write path's correctness: `next` always
//! re-offers the bytes starting exactly where the last acknowledged byte
//! ended, and `commit` advances by exactly the acknowledged count, so no
//! byte is ever skipped, duplicated, or lost across a backpressure pause.

use std::sync::Arc;
use vstd::prelude::*;
use vstd::seq_lib::lemma_flatten_concat;

verus! {

/// Shared per-socket handler state. The write path itself keeps no state
/// here; the handler travels with the channel that owns it.
pub struct SocketChannelHandler {}

impl SocketChannelHandler {
    pub fn new() -> (r: Self) {
        SocketChannelHandler {}
    }
}

/// One contiguous run of outbound bytes, as handed out by
/// [`ChunkIterator::next`]. An empty chunk means the queue is drained.
pub struct Chunk {
    data: Vec<u8>,
}

impl View for Chunk {
    type V = Seq<u8>;

    closed spec fn view(&self) -> Seq<u8> {
        self.data@
    }
}

impl Chunk {
    /// Returns true if there is no data in the chunk.
    pub fn is_empty(&self) -> (r: bool)
        ensures
            r == (self@.len() == 0),
    {
        self.data.len() == 0
    }

    /// The bytes of the chunk.
    pub fn bytes(&self) -> (r: &Vec<u8>)
        ensures
            r@ == self@,
    {
        &self.data
    }

    /// How many bytes the chunk holds.
    pub fn size(&self) -> (r: usize)
        ensures
            r == self@.len(),
    {
        self.data.len()
    }
}

/// Cursor over an append-only backing sequence of pending outbound byte
/// ranges.
///
/// Abstractly the iterator is a total byte sequence split at a cursor:
/// [`Self::committed`] is the prefix already acknowledged to the transport,
/// [`Self::pending`] the suffix still owed. `next` hands out the head of the
/// pending suffix up to the end of the current range; `commit` moves the
/// cursor forward by exactly the acknowledged count.
pub struct ChunkIterator {
    handler: Arc<SocketChannelHandler>,
    ranges: Vec<Vec<u8>>,
    range_idx: usize,
    offset: usize,
    acked: usize,
    queued: usize,
}

impl ChunkIterator {
    /// The backing ranges as a sequence of byte sequences.
    pub closed spec fn ranges_view(self) -> Seq<Seq<u8>> {
        Seq::new(self.ranges@.len(), |i: int| self.ranges@[i]@)
    }

    /// Every byte ever enqueued, in order.
    pub closed spec fn total(self) -> Seq<u8> {
        self.ranges_view().flatten()
    }

    /// How many bytes have been acknowledged via `commit`.
    pub closed spec fn committed_len(self) -> int {
        self.ranges_view().take(self.range_idx as int).flatten().len() + self.offset
    }

    /// The bytes already acknowledged to the transport, in order.
    pub closed spec fn committed(self) -> Seq<u8> {
        self.total().take(self.committed_len())
    }

    /// The bytes still owed to the transport, in order.
    pub closed spec fn pending(self) -> Seq<u8> {
        self.total().skip(self.committed_len())
    }

    /// How many bytes `next` offers right now: the uncommitted remainder of
    /// the current range, or zero when the queue is drained.
    pub closed spec fn head_len(self) -> int {
        if self.range_idx < self.ranges@.len() {
            self.ranges@[self.range_idx as int]@.len() - self.offset
        } else {
            0
        }
    }

    /// The cursor sits inside the backing ranges: no range is empty, and the
    /// offset points strictly inside the current range (or the cursor is at
    /// the very end with offset zero).
    spec fn pos_wf(self) -> bool {
        &&& self.range_idx <= self.ranges@.len()
        &&& (forall|i: int|
            0 <= i < self.ranges@.len() ==> (#[trigger] self.ranges@[i])@.len() > 0)
        &&& (self.range_idx < self.ranges@.len() ==> self.offset
            < self.ranges@[self.range_idx as int]@.len())
        &&& (self.range_idx == self.ranges@.len() ==> self.offset == 0)
    }

    /// Well-formedness: the cursor is in range and the byte counters agree
    /// with the abstract cursor position.
    pub closed spec fn wf(self) -> bool {
        &&& self.pos_wf()
        &&& self.acked == self.committed_len()
        &&& self.queued == self.total().len()
    }

    /// Splitting the flattening of a range sequence at any range boundary
    /// splits the flattened bytes accordingly.
    proof fn lemma_flatten_split(rs: Seq<Seq<u8>>, i: int)
        requires
            0 <= i <= rs.len(),
        ensures
            rs.flatten() == rs.take(i).flatten() + rs.skip(i).flatten(),
    {
        lemma_flatten_concat(rs.take(i), rs.skip(i));
        assert(rs.take(i) + rs.skip(i) =~= rs);
    }

    /// Peeling the first range off a flattened suffix.
    proof fn lemma_flatten_unfold(rs: Seq<Seq<u8>>, i: int)
        requires
            0 <= i < rs.len(),
        ensures
            rs.skip(i).flatten() == rs[i] + rs.skip(i + 1).flatten(),
    {
        let s = rs.skip(i);
        assert(s.flatten() == s.first() + s.drop_first().flatten());
        assert(s.first() == rs[i]);
        assert(s.drop_first() =~= rs.skip(i + 1));
    }

    /// With the cursor strictly inside the ranges, the total splits into the
    /// committed prefix, the current range's remainder, and the untouched
    /// tail.
    proof fn lemma_structure(it: Self)
        requires
            it.pos_wf(),
            it.range_idx < it.ranges@.len(),
        ensures
            it.committed() == it.ranges_view().take(it.range_idx as int).flatten()
                + it.ranges_view()[it.range_idx as int].take(it.offset as int),
            it.pending() == it.ranges_view()[it.range_idx as int].skip(it.offset as int)
                + it.ranges_view().skip(it.range_idx as int + 1).flatten(),
            it.pending().take(it.head_len()) == it.ranges_view()[it.range_idx as int].skip(
                it.offset as int,
            ),
            it.committed_len() + it.head_len() <= it.total().len(),
            it.pending().len() == it.total().len() - it.committed_len(),
            it.head_len() > 0,
            it.pending().len() > 0,
    {
        let rv = it.ranges_view();
        let ri = it.range_idx as int;
        let off = it.offset as int;
        Self::lemma_flatten_split(rv, ri);
        Self::lemma_flatten_unfold(rv, ri);
        let a = rv.take(ri).flatten();
        let h = rv[ri];
        let c = rv.skip(ri + 1).flatten();
        assert(it.total() =~= a + h + c);
        assert(it.committed() =~= a + h.take(off));
        assert(it.pending() =~= h.skip(off) + c);
        assert(it.pending().take(it.head_len()) =~= h.skip(off));
    }

    /// With the cursor at the very end, nothing is pending and everything is
    /// committed.
    proof fn lemma_exhausted(it: Self)
        requires
            it.pos_wf(),
            it.range_idx == it.ranges@.len(),
        ensures
            it.committed_len() == it.total().len(),
            it.pending() == Seq::<u8>::empty(),
            it.committed() == it.total(),
            it.head_len() == 0,
    {
        assert(it.ranges_view().take(it.range_idx as int) =~= it.ranges_view());
        assert(it.pending() =~= Seq::<u8>::empty());
        assert(it.committed() =~= it.total());
    }

    /// The cursor never runs past the end of the enqueued bytes.
    proof fn lemma_bounds(it: Self)
        requires
            it.pos_wf(),
        ensures
            0 <= it.committed_len() <= it.total().len(),
            it.head_len() <= it.pending().len(),
            (it.head_len() == 0 <==> it.pending().len() == 0),
    {
        if it.range_idx < it.ranges@.len() {
            Self::lemma_structure(it);
        } else {
            Self::lemma_exhausted(it);
        }
    }

    /// Conservation of bytes: the acknowledged prefix and the pending suffix
    /// together are exactly the bytes enqueued, in their original order.
    pub proof fn lemma_no_byte_loss(self)
        requires
            self.wf(),
        ensures
            self.committed() + self.pending() == self.total(),
            self.committed().len() + self.pending().len() == self.total().len(),
            self.total().len() <= usize::MAX,
    {
        Self::lemma_bounds(self);
        assert(self.committed() + self.pending() =~= self.total());
    }

    /// A fresh, empty iterator.
    pub fn new(handler: Arc<SocketChannelHandler>) -> (r: Self)
        ensures
            r.wf(),
            r.committed() == Seq::<u8>::empty(),
            r.pending() == Seq::<u8>::empty(),
            r.total() == Seq::<u8>::empty(),
    {
        let r = ChunkIterator {
            handler,
            ranges: Vec::new(),
            range_idx: 0,
            offset: 0,
            acked: 0,
            queued: 0,
        };
        proof {
            assert(r.ranges_view() =~= Seq::<Seq<u8>>::empty());
            assert(r.total() =~= Seq::<u8>::empty());
            assert(r.committed() =~= Seq::<u8>::empty());
            assert(r.pending() =~= Seq::<u8>::empty());
        }
        r
    }

    /// Append a new range of outbound bytes behind everything already
    /// queued. Appending nothing changes nothing.
    pub fn enqueue(&mut self, bytes: Vec<u8>)
        requires
            old(self).wf(),
            old(self).total().len() + bytes@.len() <= usize::MAX,
        ensures
            final(self).wf(),
            final(self).committed() == old(self).committed(),
            final(self).pending() == old(self).pending() + bytes@,
            final(self).total() == old(self).total() + bytes@,
            (old(self).pending().len() == 0 ==> final(self).head_len() == bytes@.len()),
            (old(self).pending().len() > 0 ==> final(self).head_len() == old(self).head_len()),
    {
        let ghost pre = *self;
        let ghost b = bytes@;
        if bytes.len() == 0 {
            proof {
                Self::lemma_bounds(pre);
                assert(pre.pending() + b =~= pre.pending());
                assert(pre.total() + b =~= pre.total());
            }
            return ;
        }
        proof {
            Self::lemma_bounds(pre);
        }
        self.queued = self.queued + bytes.len();
        self.ranges.push(bytes);
        proof {
            let rv = pre.ranges_view();
            let ri = pre.range_idx as int;
            assert(self.ranges_view() =~= rv.push(b));
            rv.lemma_flatten_push(b);
            assert(self.total() == rv.flatten() + b);
            assert(self.ranges_view().take(ri) =~= rv.take(ri));
            assert(self.committed_len() == pre.committed_len());
            assert(self.committed() =~= pre.committed());
            assert(self.pending() =~= pre.pending() + b);
            if pre.pending().len() == 0 {
                assert(pre.range_idx == pre.ranges@.len());
                assert(self.head_len() == b.len());
            } else {
                assert(self.head_len() == pre.head_len());
            }
        }
    }

    /// Hand out the next chunk: the not-yet-acknowledged remainder of the
    /// current range, starting exactly where the last acknowledged byte
    /// ended. An empty chunk means nothing is pending.
    pub fn next(&mut self) -> (r: Chunk)
        requires
            old(self).wf(),
        ensures
            *final(self) == *old(self),
            r@.len() == old(self).head_len(),
            r@.len() <= old(self).pending().len(),
            r@ == old(self).pending().take(old(self).head_len()),
            (r@.len() == 0 <==> old(self).pending().len() == 0),
    {
        proof {
            Self::lemma_bounds(*self);
        }
        if self.range_idx == self.ranges.len() {
            let r = Chunk { data: Vec::new() };
            proof {
                assert(r@ =~= old(self).pending().take(old(self).head_len()));
            }
            return r;
        }
        proof {
            Self::lemma_structure(*self);
        }
        let rlen: usize = self.ranges[self.range_idx].len();
        let mut data: Vec<u8> = Vec::new();
        let mut j: usize = self.offset;
        while j < rlen
            invariant
                self == old(self),
                old(self).wf(),
                self.range_idx < self.ranges@.len(),
                rlen == self.ranges@[self.range_idx as int]@.len(),
                self.offset <= j <= rlen,
                data@ == self.ranges@[self.range_idx as int]@.subrange(
                    self.offset as int,
                    j as int,
                ),
            decreases rlen - j,
        {
            let byte: u8 = self.ranges[self.range_idx][j];
            data.push(byte);
            j = j + 1;
        }
        proof {
            assert(data@ =~= old(self).ranges_view()[old(self).range_idx as int].skip(
                old(self).offset as int,
            ));
        }
        Chunk { data }
    }

    /// Acknowledge that the first `bytes_sent` bytes of the chunk most
    /// recently handed out by `next` reached the transport: the cursor
    /// advances by exactly that count, and the unacknowledged remainder
    /// stays at the head of the pending bytes.
    pub fn commit(&mut self, bytes_sent: usize)
        requires
            old(self).wf(),
            bytes_sent <= old(self).head_len(),
        ensures
            final(self).wf(),
            final(self).committed() == old(self).committed() + old(self).pending().take(
                bytes_sent as int,
            ),
            final(self).pending() == old(self).pending().skip(bytes_sent as int),
            final(self).total() == old(self).total(),
            final(self).committed_len() == old(self).committed_len() + bytes_sent,
            (bytes_sent < old(self).head_len() ==> final(self).head_len() == old(self).head_len()
                - bytes_sent),
    {
        let ghost pre = *self;
        proof {
            Self::lemma_bounds(pre);
            if pre.range_idx < pre.ranges@.len() {
                Self::lemma_structure(pre);
            }
        }
        self.acked = self.acked + bytes_sent;
        self.offset = self.offset + bytes_sent;
        if self.range_idx < self.ranges.len() && self.offset == self.ranges[self.range_idx].len() {
            self.range_idx = self.range_idx + 1;
            self.offset = 0;
            proof {
                let rv = pre.ranges_view();
                let ri = pre.range_idx as int;
                assert(self.ranges_view() =~= rv);
                assert(self.ranges_view().take(ri + 1) =~= rv.take(ri).push(rv[ri]));
                rv.take(ri).lemma_flatten_push(rv[ri]);
                assert(self.committed_len() == pre.committed_len() + bytes_sent);
            }
        } else {
            proof {
                assert(self.ranges_view() =~= pre.ranges_view());
                assert(self.ranges_view().take(self.range_idx as int) =~= pre.ranges_view().take(
                    pre.range_idx as int,
                ));
            }
        }
        proof {
            let n = bytes_sent as int;
            assert(self.total() == pre.total());
            assert(self.committed() =~= pre.committed() + pre.pending().take(n));
            assert(self.pending() =~= pre.pending().skip(n));
        }
    }

    /// Drop every pending byte, keeping the acknowledged prefix intact.
    /// Used when a fatal transport error abandons the channel's queue.
    pub fn discard_pending(&mut self)
        requires
            old(self).wf(),
        ensures
            final(self).wf(),
            final(self).committed() == old(self).committed(),
            final(self).pending() == Seq::<u8>::empty(),
    {
        let ghost pre = *self;
        proof {
            Self::lemma_bounds(pre);
            if pre.range_idx < pre.ranges@.len() {
                Self::lemma_structure(pre);
            } else {
                Self::lemma_exhausted(pre);
            }
        }
        if self.offset > 0 {
            let mut part: Vec<u8> = Vec::new();
            let mut j: usize = 0;
            let rlen: usize = self.ranges[self.range_idx].len();
            while j < self.offset
                invariant
                    self == old(self),
                    old(self).wf(),
                    self.range_idx < self.ranges@.len(),
                    self.offset < rlen,
                    rlen == self.ranges@[self.range_idx as int]@.len(),
                    j <= self.offset,
                    part@ == self.ranges@[self.range_idx as int]@.subrange(0, j as int),
                decreases self.offset - j,
            {
                let byte: u8 = self.ranges[self.range_idx][j];
                part.push(byte);
                j = j + 1;
            }
            let ghost partv = part@;
            self.ranges.truncate(self.range_idx);
            self.ranges.push(part);
            self.range_idx = self.range_idx + 1;
            self.offset = 0;
            self.queued = self.acked;
            proof {
                let rv = pre.ranges_view();
                let ri = pre.range_idx as int;
                let off = pre.offset as int;
                assert(partv =~= rv[ri].take(off));
                assert(self.ranges_view() =~= rv.take(ri).push(rv[ri].take(off)));
                rv.take(ri).lemma_flatten_push(rv[ri].take(off));
                assert(self.total() == rv.take(ri).flatten() + rv[ri].take(off));
                assert(self.ranges_view().take(self.range_idx as int) =~= self.ranges_view());
                assert(self.committed_len() == self.total().len());
                assert(self.committed() =~= self.total());
                assert(self.committed() == pre.committed());
                assert(self.pending() =~= Seq::<u8>::empty());
            }
        } else {
            self.ranges.truncate(self.range_idx);
            self.queued = self.acked;
            proof {
                let rv = pre.ranges_view();
                let ri = pre.range_idx as int;
                assert(self.ranges_view() =~= rv.take(ri));
                assert(self.ranges_view().take(self.range_idx as int) =~= self.ranges_view());
                assert(self.committed_len() == self.total().len());
                assert(self.committed() =~= self.total());
                if ri < rv.len() {
                    assert(self.committed() == pre.committed());
                } else {
                    assert(rv.take(ri) =~= rv);
                    assert(self.committed() == pre.committed());
                }
                assert(self.pending() =~= Seq::<u8>::empty());
            }
        }
    }

    /// How many bytes have been acknowledged so far.
    pub fn committed_count(&self) -> (r: usize)
        requires
            self.wf(),
        ensures
            r == self.committed().len(),
    {
        proof {
            Self::lemma_bounds(*self);
        }
        self.acked
    }

    /// How many bytes are still pending.
    pub fn pending_count(&self) -> (r: usize)
        requires
            self.wf(),
        ensures
            r == self.pending().len(),
    {
        proof {
            Self::lemma_bounds(*self);
        }
        self.queued - self.acked
    }
}

} // verus!
