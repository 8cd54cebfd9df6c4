//! A concrete channel over one connected transport: the chunked,
//! retry-aware, non-blocking write path, and the bounded read drain.
//!
//! The write path is the system's central correctness concern: every byte
//! that is ever reported as sent is committed exactly once and in order, and
//! a backpressure pause never loses or duplicates the remainder of a chunk.

use std::sync::Arc;
use vstd::prelude::*;

use crate::channel::{CloseReason, ReadStatus, RecvOutcome, SendOutcome, Transport, WriteStatus};
use crate::chunk::{ChunkIterator, SocketChannelHandler};

verus! {

/// How many consecutive interrupted sends one write pass retries before it
/// yields back to the reactor with write interest retained.
pub const SEND_RETRY_LIMIT: usize = 64;

/// How many receive attempts one read pass makes before it yields back to
/// the reactor, keeping the pass non-blocking and fair to other channels.
pub const RECV_BATCH_LIMIT: usize = 64;

/// What one classified send outcome asks of the write loop.
#[derive(Clone, Copy, PartialEq, Eq, Structural, Debug)]
pub enum StepDecision {
    /// Keep sending: the chunk finished, or the send should be retried.
    Proceed,
    /// Stop the pass and retain write interest; resume on the next writable
    /// readiness event.
    Suspend,
    /// The connection is gone: close the channel, discard what is pending.
    Close(CloseReason),
}

/// Classify one send outcome and record its commit, exactly as the
/// non-blocking writer requires:
///
/// * a success commits exactly the sent count, and suspends the pass when
///   the send was partial (the socket buffer is full);
/// * would-block and buffer exhaustion change nothing and suspend the pass;
/// * an interruption changes nothing and the same bytes are re-sent;
/// * a reset or broken pipe closes the channel.
pub fn apply_send_outcome(source: &mut ChunkIterator, offered: usize, outcome: SendOutcome) -> (r:
    StepDecision)
    requires
        old(source).wf(),
        offered as int == old(source).head_len(),
        offered > 0,
        (outcome matches SendOutcome::Sent(n) ==> 1 <= n && n <= offered),
    ensures
        final(source).wf(),
        match outcome {
            SendOutcome::Sent(n) => {
                &&& final(source).committed() == old(source).committed() + old(source).pending().take(n as int)
                &&& final(source).pending() == old(source).pending().skip(n as int)
                &&& (n < offered ==> final(source).head_len() == old(source).head_len() - n)
                &&& r == (if n < offered {
                    StepDecision::Suspend
                } else {
                    StepDecision::Proceed
                })
            },
            SendOutcome::WouldBlock => *final(source) == *old(source) && r
                == StepDecision::Suspend,
            SendOutcome::NoBufferSpace => *final(source) == *old(source) && r
                == StepDecision::Suspend,
            SendOutcome::Interrupted => *final(source) == *old(source) && r
                == StepDecision::Proceed,
            SendOutcome::ConnectionReset => *final(source) == *old(source) && r
                == StepDecision::Close(CloseReason::ConnectionReset),
            SendOutcome::BrokenPipe => *final(source) == *old(source) && r == StepDecision::Close(
                CloseReason::BrokenPipe,
            ),
            SendOutcome::Other(code) => *final(source) == *old(source) && r == StepDecision::Close(
                CloseReason::Os(code),
            ),
        },
{
    match outcome {
        SendOutcome::Sent(n) => {
            source.commit(n);
            if n < offered {
                StepDecision::Suspend
            } else {
                StepDecision::Proceed
            }
        },
        SendOutcome::WouldBlock => StepDecision::Suspend,
        SendOutcome::NoBufferSpace => StepDecision::Suspend,
        SendOutcome::Interrupted => StepDecision::Proceed,
        SendOutcome::ConnectionReset => StepDecision::Close(CloseReason::ConnectionReset),
        SendOutcome::BrokenPipe => StepDecision::Close(CloseReason::BrokenPipe),
        SendOutcome::Other(code) => StepDecision::Close(CloseReason::Os(code)),
    }
}

/// One registered connection: a transport, its native descriptor, and the
/// queue of outbound bytes still owed to it.
pub struct TcpChannel<T> {
    transport: T,
    fd: i32,
    source: ChunkIterator,
    open: bool,
}

impl<T: Transport> TcpChannel<T> {
    /// The queue is well-formed, and a closed channel holds no pending
    /// bytes.
    pub closed spec fn wf(self) -> bool {
        &&& self.source.wf()
        &&& (!self.open ==> self.source.pending().len() == 0)
    }

    /// Whether the channel still owns a live transport.
    pub closed spec fn open_spec(self) -> bool {
        self.open
    }

    /// The native descriptor the channel is keyed by.
    pub closed spec fn fd_spec(self) -> i32 {
        self.fd
    }

    /// The bytes already acknowledged to the transport, in order.
    pub closed spec fn committed(self) -> Seq<u8> {
        self.source.committed()
    }

    /// The bytes still owed to the transport, in order.
    pub closed spec fn pending(self) -> Seq<u8> {
        self.source.pending()
    }

    /// A fresh channel over a connected transport, with an empty outbound
    /// queue.
    pub fn new(transport: T, fd: i32, channel_handler: Arc<SocketChannelHandler>) -> (r: Self)
        ensures
            r.wf(),
            r.open_spec(),
            r.fd_spec() == fd,
            r.committed() == Seq::<u8>::empty(),
            r.pending() == Seq::<u8>::empty(),
    {
        let chunk_iterator = ChunkIterator::new(channel_handler);
        TcpChannel { transport, fd, source: chunk_iterator, open: true }
    }

    /// The channel's identity: its native descriptor.
    pub fn as_raw_fd(&self) -> (r: i32)
        ensures
            r == self.fd_spec(),
    {
        self.fd
    }

    /// Queue more outbound bytes behind everything already pending.
    pub fn enqueue(&mut self, bytes: Vec<u8>)
        requires
            old(self).wf(),
            old(self).open_spec(),
            old(self).committed().len() + old(self).pending().len() + bytes@.len() <= usize::MAX,
        ensures
            final(self).wf(),
            final(self).open_spec(),
            final(self).fd_spec() == old(self).fd_spec(),
            final(self).committed() == old(self).committed(),
            final(self).pending() == old(self).pending() + bytes@,
    {
        proof {
            self.source.lemma_no_byte_loss();
        }
        self.source.enqueue(bytes);
    }

    /// How many outbound bytes the transport has acknowledged so far.
    pub fn committed_count(&self) -> (r: usize)
        requires
            self.wf(),
        ensures
            r == self.committed().len(),
    {
        self.source.committed_count()
    }

    /// How many outbound bytes are still owed to the transport.
    pub fn pending_count(&self) -> (r: usize)
        requires
            self.wf(),
        ensures
            r == self.pending().len(),
    {
        self.source.pending_count()
    }

    /// A view of the underlying transport.
    pub fn transport(&self) -> (r: &T) {
        &self.transport
    }

    /// Whether the channel still owns a live transport.
    pub fn is_open(&self) -> (r: bool)
        ensures
            r == self.open_spec(),
    {
        self.open
    }

    /// The channel's byte ledger stays countable: what was acknowledged and
    /// what is pending together fit the machine's size type.
    pub proof fn lemma_queue_bounded(self)
        requires
            self.wf(),
        ensures
            self.committed().len() + self.pending().len() <= usize::MAX,
    {
        self.source.lemma_no_byte_loss();
    }

    /// Whether any outbound bytes are still owed. The reactor keeps write
    /// interest only while this holds.
    pub fn has_pending(&self) -> (r: bool)
        requires
            self.wf(),
        ensures
            r == (self.pending().len() > 0),
    {
        self.source.pending_count() > 0
    }

    /// Drive queued bytes onto the transport until the queue drains, the
    /// transport pushes back, or the connection dies.
    ///
    /// An empty queue is always reported `Drained`; backpressure is only
    /// ever reported with bytes still pending. A run of consecutive
    /// interrupted sends is retried at once, but only [`SEND_RETRY_LIMIT`]
    /// times in one pass — then the pass yields as backpressure with
    /// nothing changed, and the retained write interest re-offers the same
    /// bytes on the next writable event, so the bound loses nothing.
    ///
    /// Whatever the transport answers, the acknowledged bytes only ever grow
    /// by exactly what was reported sent, in order:
    ///
    /// * `Drained`: every previously pending byte is now committed, and the
    ///   reactor should drop write interest;
    /// * `Backpressure`: a prefix was committed, the rest is still pending,
    ///   and write interest must be retained;
    /// * `Closed`: the connection died; what was committed before the error
    ///   stands, everything else was discarded, and the channel must be
    ///   deregistered.
    pub fn write(&mut self) -> (r: WriteStatus)
        requires
            old(self).wf(),
            old(self).open_spec(),
        ensures
            final(self).wf(),
            final(self).fd_spec() == old(self).fd_spec(),
            old(self).committed().is_prefix_of(final(self).committed()),
            (old(self).pending().len() == 0 ==> r == WriteStatus::Drained),
            (r == WriteStatus::Backpressure ==> final(self).pending().len() > 0),
            match r {
                WriteStatus::Drained => {
                    &&& final(self).open_spec()
                    &&& final(self).committed() == old(self).committed() + old(self).pending()
                    &&& final(self).pending().len() == 0
                },
                WriteStatus::Backpressure => {
                    &&& final(self).open_spec()
                    &&& final(self).committed() + final(self).pending() == old(self).committed()
                        + old(self).pending()
                },
                WriteStatus::Closed(_) => {
                    &&& !final(self).open_spec()
                    &&& final(self).pending().len() == 0
                    &&& final(self).committed().is_prefix_of(
                        old(self).committed() + old(self).pending(),
                    )
                },
            },
    {
        let ghost total0 = old(self).committed() + old(self).pending();
        let mut retries: usize = SEND_RETRY_LIMIT;
        loop
            invariant
                self.wf(),
                self.open_spec(),
                self.fd_spec() == old(self).fd_spec(),
                total0 == old(self).committed() + old(self).pending(),
                old(self).committed().is_prefix_of(self.committed()),
                self.committed() + self.pending() == total0,
            decreases self.pending().len(), retries,
        {
            let ghost c_pre = self.committed();
            let ghost p_pre = self.pending();
            let chunk = self.source.next();
            if chunk.is_empty() {
                proof {
                    assert(self.committed() + self.pending() =~= self.committed());
                }
                return WriteStatus::Drained;
            }
            let offered: usize = chunk.size();
            proof {
                assert(p_pre.len() > 0);
                assert(old(self).committed().len() <= c_pre.len());
                assert(old(self).pending().len() > 0);
            }
            let outcome = self.transport.try_send(chunk.bytes());
            let decision = apply_send_outcome(&mut self.source, offered, outcome);
            proof {
                if let SendOutcome::Sent(n) = outcome {
                    assert(self.committed() + self.pending() =~= c_pre + p_pre);
                    assert((c_pre + p_pre.take(n as int)).subrange(0, c_pre.len() as int) =~= c_pre);
                    assert(old(self).committed().is_prefix_of(self.committed())) by {
                        assert(c_pre.subrange(0, old(self).committed().len() as int) == old(self).committed());
                        assert(self.committed().subrange(0, old(self).committed().len() as int)
                            =~= c_pre.subrange(0, old(self).committed().len() as int));
                    }
                }
            }
            match decision {
                StepDecision::Proceed => {
                    if let SendOutcome::Interrupted = outcome {
                        if retries == 0 {
                            return WriteStatus::Backpressure;
                        }
                        retries = retries - 1;
                    } else {
                        retries = SEND_RETRY_LIMIT;
                    }
                },
                StepDecision::Suspend => {
                    proof {
                        if let SendOutcome::Sent(n) = outcome {
                            assert(self.pending().len() == p_pre.len() - n);
                            assert(n < offered && offered <= p_pre.len());
                        }
                        assert(self.pending().len() > 0);
                    }
                    return WriteStatus::Backpressure;
                },
                StepDecision::Close(reason) => {
                    self.transport.close();
                    self.open = false;
                    self.source.discard_pending();
                    proof {
                        assert(total0.subrange(0, self.committed().len() as int) =~= self
                            .committed());
                    }
                    return WriteStatus::Closed(reason);
                },
            }
        }
    }

    /// Consume the inbound data the transport currently offers, in one
    /// bounded, non-blocking pass. Payload interpretation is not this
    /// core's concern; the bytes are drained and dropped here.
    ///
    /// * `Drained`: the pass ended with the channel open (no more data, or
    ///   the per-pass batch limit was reached);
    /// * `Closed`: the stream ended or failed; the channel closed itself and
    ///   must be deregistered.
    pub fn read(&mut self) -> (r: ReadStatus)
        requires
            old(self).wf(),
            old(self).open_spec(),
        ensures
            final(self).wf(),
            final(self).fd_spec() == old(self).fd_spec(),
            final(self).committed() == old(self).committed(),
            match r {
                ReadStatus::Drained => final(self).open_spec() && final(self).pending() == old(self).pending(),
                ReadStatus::Closed(_) => !final(self).open_spec() && final(self).pending().len()
                    == 0,
            },
    {
        let mut budget: usize = RECV_BATCH_LIMIT;
        loop
            invariant
                self.wf(),
                self.open_spec(),
                self.fd_spec() == old(self).fd_spec(),
                self.committed() == old(self).committed(),
                self.pending() == old(self).pending(),
            decreases budget,
        {
            if budget == 0 {
                return ReadStatus::Drained;
            }
            budget = budget - 1;
            let outcome = self.transport.try_recv();
            match outcome {
                RecvOutcome::Data(_) => {},
                RecvOutcome::Interrupted => {},
                RecvOutcome::WouldBlock => {
                    return ReadStatus::Drained;
                },
                RecvOutcome::Disconnected(reason) => {
                    self.transport.close();
                    self.open = false;
                    self.source.discard_pending();
                    return ReadStatus::Closed(reason);
                },
            }
        }
    }

    /// Close the channel: release the transport once and drop whatever is
    /// still pending. Closing an already-closed channel changes nothing.
    pub fn close(&mut self)
        requires
            old(self).wf(),
        ensures
            final(self).wf(),
            !final(self).open_spec(),
            final(self).fd_spec() == old(self).fd_spec(),
            final(self).committed() == old(self).committed(),
            final(self).pending().len() == 0,
            (!old(self).open_spec() ==> *final(self) == *old(self)),
    {
        if self.open {
            self.transport.close();
            self.open = false;
            self.source.discard_pending();
        }
    }
}

} // verus!
