//! The reactor: the registry owning every registered channel, the
//! multiplexer and acceptor boundaries, and the readiness-dispatch loop.
//!
//! The reactor is the only owner of channel state. Each dispatch pass waits
//! for a batch of readiness events and routes every event: acceptor
//! readiness drains the pending connection backlog into new registrations,
//! channel readiness invokes the channel's read or write pass, and error or
//! hangup closes and deregisters the channel unconditionally. A stale event
//! on a descriptor no longer registered changes nothing.

use std::sync::Arc;
use vstd::prelude::*;

use crate::channel::{ReadStatus, Transport, WriteStatus};
use crate::chunk::SocketChannelHandler;
use crate::tcp_channel::TcpChannel;

verus! {

/// How many readiness notifications one wait call may deliver at once.
pub const WAIT_BATCH_CAPACITY: usize = 1024;

/// How many connections one acceptor readiness notification may drain
/// before the pass yields back to the dispatch loop.
pub const ACCEPT_BATCH_LIMIT: usize = 1024;

/// One readiness notification: a descriptor and its event set.
#[derive(Clone, Copy, PartialEq, Eq, Structural, Debug)]
pub struct ReadyEvent {
    pub fd: i32,
    pub readable: bool,
    pub writable: bool,
    pub error: bool,
    pub hangup: bool,
}

/// The interest set kept for a registered descriptor: read-readiness
/// always, write-readiness only while outbound data is pending.
#[derive(Clone, Copy, PartialEq, Eq, Structural, Debug)]
pub enum Interest {
    Read,
    ReadWrite,
}

/// Failure of the wait primitive.
#[derive(Clone, Copy, PartialEq, Eq, Structural, Debug)]
pub enum WaitError {
    /// A signal interrupted the wait; it is retried transparently.
    Interrupted,
    /// Any other failure, fatal to the whole reactor.
    Os(i32),
}

/// The multiplexing facility at its boundary: interest bookkeeping and the
/// blocking wait for a batch of readiness events.
pub trait Multiplexer {
    /// Block until readiness or the timeout, delivering at most `capacity`
    /// events. A negative timeout means no deadline.
    fn wait(&mut self, capacity: usize, timeout_ms: i32) -> (r: Result<Vec<ReadyEvent>, WaitError>);

    /// Start delivering events for a newly registered descriptor.
    fn add(&mut self, fd: i32, interest: Interest);

    /// Change the interest set of a registered descriptor.
    fn set_interest(&mut self, fd: i32, interest: Interest);

    /// Stop delivering events for a descriptor.
    fn remove(&mut self, fd: i32);
}

/// Classified result of one non-blocking accept attempt.
pub enum AcceptOutcome<T> {
    /// A new connection: its transport and its native descriptor.
    Accepted(T, i32),
    /// The pending-connection backlog is drained.
    WouldBlock,
    /// A signal interrupted the call; retry at once.
    Interrupted,
    /// The accept primitive failed, carried as its error code; the drain
    /// pass stops without taking the reactor down.
    Failed(i32),
}

/// The listening socket at its boundary: one non-blocking accept attempt,
/// called in a drain loop until it reports would-block.
pub trait Acceptor<T> {
    fn try_accept(&mut self) -> (r: AcceptOutcome<T>);
}

/// Failure of a registration.
#[derive(Clone, Copy, PartialEq, Eq, Structural, Debug)]
pub enum RegistryError {
    /// The descriptor is already registered.
    DuplicateRegistration,
}

/// What terminates a dispatch loop abnormally.
#[derive(Clone, Copy, PartialEq, Eq, Structural, Debug)]
pub enum ReactorError {
    /// The wait primitive failed other than by interruption.
    WaitFailure(i32),
    /// An accepted connection carried a descriptor already registered.
    DuplicateRegistration(i32),
}

/// Why queueing outbound bytes through the reactor was refused.
#[derive(Clone, Copy, PartialEq, Eq, Structural, Debug)]
pub enum EnqueueError {
    /// No channel is registered under the descriptor.
    UnknownChannel,
    /// The channel's running byte total would exceed what the machine can
    /// count; nothing was queued.
    QueueFull,
}

/// Why `run` returned without an error.
#[derive(Clone, Copy, PartialEq, Eq, Structural, Debug)]
pub enum RunStatus {
    /// `stop` was observed.
    Stopped,
    /// The dispatch-pass budget ran out while still running; the caller may
    /// simply call `run` again.
    PassLimit,
}

/// What one wait outcome asks of the dispatch loop.
#[derive(PartialEq, Eq, Debug)]
pub enum WaitDecision {
    /// Readiness arrived: dispatch this batch, in the order reported.
    Dispatch(Vec<ReadyEvent>),
    /// A signal interrupted the wait: retry it transparently, changing
    /// nothing.
    Retry,
    /// The wait primitive failed: fatal to the whole reactor, carried as
    /// its error code.
    Fail(i32),
}

/// Classify one outcome of the wait primitive, exactly as the dispatch
/// loop requires: a batch is dispatched, an interruption is retried
/// transparently, and any other failure is fatal to the reactor.
pub fn classify_wait(outcome: Result<Vec<ReadyEvent>, WaitError>) -> (r: WaitDecision)
    ensures
        match outcome {
            Ok(events) => r == WaitDecision::Dispatch(events),
            Err(WaitError::Interrupted) => r == WaitDecision::Retry,
            Err(WaitError::Os(code)) => r == WaitDecision::Fail(code),
        },
{
    match outcome {
        Ok(events) => WaitDecision::Dispatch(events),
        Err(WaitError::Interrupted) => WaitDecision::Retry,
        Err(WaitError::Os(code)) => WaitDecision::Fail(code),
    }
}

/// What one accept outcome asks of the drain loop.
pub enum AcceptDecision<T> {
    /// A connection arrived: register it under its descriptor.
    Register(T, i32),
    /// The backlog is drained: the pass is complete.
    Finish,
    /// A signal interrupted the call: retry it, changing nothing.
    Retry,
    /// The accept primitive failed, carried as its error code: stop the
    /// pass without taking the reactor down.
    Halt(i32),
}

/// Classify one outcome of the accept primitive, exactly as the drain loop
/// requires: a connection is registered, would-block completes the pass, an
/// interruption is retried, and an accept failure ends the pass without
/// becoming reactor-fatal.
pub fn classify_accept<T>(outcome: AcceptOutcome<T>) -> (r: AcceptDecision<T>)
    ensures
        match outcome {
            AcceptOutcome::Accepted(transport, fd) => r == AcceptDecision::Register(
                transport,
                fd,
            ),
            AcceptOutcome::WouldBlock => r == AcceptDecision::<T>::Finish,
            AcceptOutcome::Interrupted => r == AcceptDecision::<T>::Retry,
            AcceptOutcome::Failed(code) => r == AcceptDecision::<T>::Halt(code),
        },
{
    match outcome {
        AcceptOutcome::Accepted(transport, fd) => AcceptDecision::Register(transport, fd),
        AcceptOutcome::WouldBlock => AcceptDecision::Finish,
        AcceptOutcome::Interrupted => AcceptDecision::Retry,
        AcceptOutcome::Failed(code) => AcceptDecision::Halt(code),
    }
}

/// What one routed channel event did to the registry.
#[derive(Clone, Copy, PartialEq, Eq, Structural, Debug)]
pub enum EventDisposition {
    /// No channel is registered under the event's descriptor: the event is
    /// stale and nothing changed.
    Stale,
    /// The channel was dispatched and remains registered.
    Retained,
    /// The channel was closed and deregistered.
    Removed,
}

/// Exclusive owner of all registered channels, keyed by native descriptor.
/// A descriptor appears at most once at any time.
pub struct ChannelRegistry<T> {
    fd_keys: Vec<i32>,
    channels: Vec<TcpChannel<T>>,
}

impl<T: Transport> ChannelRegistry<T> {
    /// The registered descriptors, in registration order.
    pub closed spec fn fds(self) -> Seq<i32> {
        self.fd_keys@
    }

    /// Whether a descriptor is currently registered.
    pub open spec fn has_fd(self, fd: i32) -> bool {
        self.fds().contains(fd)
    }

    /// The channel registered under a descriptor (meaningful only while
    /// `has_fd` holds of it).
    pub closed spec fn channel_at(self, fd: i32) -> TcpChannel<T> {
        self.channels@[self.fd_keys@.index_of(fd)]
    }

    /// The registry as a map from descriptor to the channel it owns.
    pub open spec fn channel_map(self) -> Map<i32, TcpChannel<T>> {
        Map::new(|fd: i32| self.has_fd(fd), |fd: i32| self.channel_at(fd))
    }

    /// Keys and channels correspond one to one, every channel is
    /// well-formed, and no descriptor appears twice.
    pub closed spec fn wf(self) -> bool {
        &&& self.fd_keys@.len() == self.channels@.len()
        &&& (forall|i: int|
            0 <= i < self.channels@.len() ==> (#[trigger] self.channels@[i]).wf())
        &&& (forall|i: int|
            0 <= i < self.channels@.len() ==> (#[trigger] self.channels@[i]).open_spec())
        &&& (forall|i: int|
            0 <= i < self.channels@.len() ==> (#[trigger] self.channels@[i].fd_spec())
                == self.fd_keys@[i])
        &&& (forall|i: int, j: int|
            0 <= i < j < self.fd_keys@.len() ==> self.fd_keys@[i] != self.fd_keys@[j])
    }

    /// The channel stored in slot `i` is the one the map view shows under
    /// its key: with descriptors unique, the key's index is that slot.
    proof fn lemma_entry(self, i: int)
        requires
            self.wf(),
            0 <= i < self.fd_keys@.len(),
        ensures
            self.has_fd(self.fd_keys@[i]),
            self.channel_at(self.fd_keys@[i]) == self.channels@[i],
    {
        let fd = self.fd_keys@[i];
        assert(self.fds()[i] == fd);
        assert(self.has_fd(fd));
        let j = self.fd_keys@.index_of(fd);
        assert(0 <= j < self.fd_keys@.len() && self.fd_keys@[j] == fd);
        assert(j == i);
    }

    /// An empty registry.
    pub fn new() -> (r: Self)
        ensures
            r.wf(),
            r.fds().len() == 0,
    {
        ChannelRegistry { fd_keys: Vec::new(), channels: Vec::new() }
    }

    /// How many channels are registered.
    pub fn len(&self) -> (r: usize)
        ensures
            r == self.fds().len(),
    {
        self.fd_keys.len()
    }

    /// Insert a channel keyed by its descriptor. Registering a descriptor
    /// already present fails with a duplicate-registration error and leaves
    /// the registry unchanged.
    pub fn register(&mut self, channel: TcpChannel<T>) -> (r: Result<(), RegistryError>)
        requires
            old(self).wf(),
            channel.wf(),
            channel.open_spec(),
        ensures
            final(self).wf(),
            (old(self).has_fd(channel.fd_spec()) ==> r is Err && *final(self) == *old(self)),
            (!old(self).has_fd(channel.fd_spec()) ==> r is Ok && final(self).fds() == old(self).fds().push(channel.fd_spec())
                && final(self).channel_map() == old(self).channel_map().insert(
                channel.fd_spec(),
                channel,
            )),
            (forall|o: i32|
                o != channel.fd_spec() ==> final(self).has_fd(o) == old(self).has_fd(o)),
    {
        let ghost chan = channel;
        let fd = channel.as_raw_fd();
        let mut i: usize = 0;
        while i < self.fd_keys.len()
            invariant
                old(self).wf(),
                *self == *old(self),
                i <= self.fd_keys@.len(),
                fd == channel.fd_spec(),
                forall|k: int| 0 <= k < i ==> self.fd_keys@[k] != fd,
            decreases self.fd_keys@.len() - i,
        {
            if self.fd_keys[i] == fd {
                proof {
                    assert(old(self).fds()[i as int] == fd);
                }
                return Err(RegistryError::DuplicateRegistration);
            }
            i = i + 1;
        }
        proof {
            assert(!old(self).has_fd(fd));
        }
        self.fd_keys.push(fd);
        self.channels.push(channel);
        proof {
            let pre = old(self).fds();
            let post = self.fds();
            let n = pre.len() as int;
            assert(post == pre.push(fd));
            assert forall|o: i32| o != fd implies self.has_fd(o) == old(self).has_fd(o) by {
                if pre.contains(o) {
                    let k = choose|k: int| 0 <= k < pre.len() && pre[k] == o;
                    assert(post[k] == o);
                }
                if post.contains(o) {
                    let k = choose|k: int| 0 <= k < post.len() && post[k] == o;
                    assert(k < pre.len() && pre[k] == o);
                }
            }
            assert(post[n] == fd);
            assert(self.has_fd(fd));
            assert forall|o: i32| self.channel_map().contains_key(o) implies #[trigger] self
                .channel_map()[o] == old(self).channel_map().insert(fd, chan)[o] by {
                if o == fd {
                    Self::lemma_entry(*self, n);
                } else {
                    let k = choose|k: int| 0 <= k < pre.len() && pre[k] == o;
                    Self::lemma_entry(*old(self), k);
                    Self::lemma_entry(*self, k);
                }
            }
            assert(self.channel_map() =~= old(self).channel_map().insert(fd, chan));
        }
        Ok(())
    }

    /// Remove and hand back the channel registered under a descriptor, if
    /// any. Because a descriptor is registered at most once, afterwards the
    /// descriptor is certainly absent; every other entry is untouched.
    pub fn take_channel(&mut self, fd: i32) -> (r: Option<TcpChannel<T>>)
        requires
            old(self).wf(),
        ensures
            final(self).wf(),
            (!old(self).has_fd(fd) ==> r is None && *final(self) == *old(self)),
            (old(self).has_fd(fd) ==> (r matches Some(ch) && ch.wf() && ch.open_spec()
                && ch.fd_spec() == fd)
                && !final(self).has_fd(fd) && final(self).fds().len() == old(self).fds().len()
                - 1),
            (old(self).has_fd(fd) ==> r == Some(old(self).channel_at(fd)) && final(self).channel_map() == old(self).channel_map().remove(fd)),
            (forall|o: i32| o != fd ==> final(self).has_fd(o) == old(self).has_fd(o)),
    {
        let mut i: usize = 0;
        while i < self.fd_keys.len()
            invariant
                old(self).wf(),
                *self == *old(self),
                i <= self.fd_keys@.len(),
                forall|k: int| 0 <= k < i ==> self.fd_keys@[k] != fd,
            decreases self.fd_keys@.len() - i,
        {
            if self.fd_keys[i] == fd {
                let channel = self.channels.remove(i);
                self.fd_keys.remove(i);
                proof {
                    let pre = old(self).fds();
                    let post = self.fds();
                    let ii = i as int;
                    assert(pre.contains(fd)) by {
                        assert(pre[ii] == fd);
                    }
                    assert forall|k: int| 0 <= k < post.len() implies post[k] != fd by {
                        if k < ii {
                            assert(post[k] == pre[k]);
                        } else {
                            assert(post[k] == pre[k + 1]);
                        }
                    }
                    assert(!post.contains(fd));
                    assert forall|o: i32| o != fd implies self.has_fd(o) == old(self).has_fd(
                        o,
                    ) by {
                        if pre.contains(o) {
                            let k = choose|k: int| 0 <= k < pre.len() && pre[k] == o;
                            if k < ii {
                                assert(post[k] == o);
                            } else {
                                assert(post[k - 1] == o);
                            }
                        }
                        if post.contains(o) {
                            let k = choose|k: int| 0 <= k < post.len() && post[k] == o;
                            if k < ii {
                                assert(pre[k] == o);
                            } else {
                                assert(pre[k + 1] == o);
                            }
                        }
                    }
                    assert forall|a: int, b: int|
                        0 <= a < b < post.len() implies post[a] != post[b] by {
                        let pa = if a < ii {
                            a
                        } else {
                            a + 1
                        };
                        let pb = if b < ii {
                            b
                        } else {
                            b + 1
                        };
                        assert(post[a] == pre[pa] && post[b] == pre[pb]);
                    }
                    Self::lemma_entry(*old(self), ii);
                    assert(channel == old(self).channel_at(fd));
                    assert forall|o: i32| self.channel_map().contains_key(o) implies #[trigger] self
                        .channel_map()[o] == old(self).channel_map().remove(fd)[o] by {
                        let k = choose|k: int| 0 <= k < post.len() && post[k] == o;
                        Self::lemma_entry(*self, k);
                        if k < ii {
                            Self::lemma_entry(*old(self), k);
                        } else {
                            Self::lemma_entry(*old(self), k + 1);
                        }
                    }
                    assert(self.channel_map() =~= old(self).channel_map().remove(fd));
                }
                return Some(channel);
            }
            i = i + 1;
        }
        proof {
            assert(!old(self).has_fd(fd));
        }
        None
    }
}

/// The reactor: the multiplexer, the listening socket's acceptor, the
/// channel registry, and the running flag.
pub struct Reactor<T, M, A> {
    multiplexer: M,
    acceptor: A,
    acceptor_fd: i32,
    channels: ChannelRegistry<T>,
    running: bool,
}

impl<T: Transport, M: Multiplexer, A: Acceptor<T>> Reactor<T, M, A> {
    /// Every registered channel is well-formed and uniquely keyed.
    pub closed spec fn wf(self) -> bool {
        self.channels.wf()
    }

    /// The channel registry.
    pub closed spec fn registry(self) -> ChannelRegistry<T> {
        self.channels
    }

    /// Whether the dispatch loop keeps going.
    pub closed spec fn is_running(self) -> bool {
        self.running
    }

    /// The listening socket's descriptor.
    pub closed spec fn acceptor_fd_spec(self) -> i32 {
        self.acceptor_fd
    }

    /// A reactor around a multiplexer and a listening socket's acceptor,
    /// with an empty registry, ready to run.
    pub fn new(multiplexer: M, acceptor: A, acceptor_fd: i32) -> (r: Self)
        ensures
            r.wf(),
            r.is_running(),
            r.acceptor_fd_spec() == acceptor_fd,
            r.registry().fds().len() == 0,
    {
        Reactor {
            multiplexer,
            acceptor,
            acceptor_fd,
            channels: ChannelRegistry::new(),
            running: true,
        }
    }

    /// How many channels are currently registered.
    pub fn channel_count(&self) -> (r: usize)
        ensures
            r == self.registry().fds().len(),
    {
        self.channels.len()
    }

    /// A view of the underlying multiplexer.
    pub fn multiplexer(&self) -> (r: &M) {
        &self.multiplexer
    }

    /// Register a channel: insert it into the registry keyed by its
    /// descriptor and subscribe the descriptor for read-readiness, plus
    /// write-readiness only when outbound data is pending. A duplicate
    /// descriptor is refused and the registry is left unchanged.
    pub fn register_channel(&mut self, channel: TcpChannel<T>) -> (r: Result<(), RegistryError>)
        requires
            old(self).wf(),
            channel.wf(),
            channel.open_spec(),
        ensures
            final(self).wf(),
            final(self).is_running() == old(self).is_running(),
            final(self).acceptor_fd_spec() == old(self).acceptor_fd_spec(),
            (old(self).registry().has_fd(channel.fd_spec()) ==> r is Err && final(self).registry()
                == old(self).registry()),
            (!old(self).registry().has_fd(channel.fd_spec()) ==> r is Ok && final(self).registry().fds() == old(self).registry().fds().push(channel.fd_spec())
                && final(self).registry().channel_map() == old(self).registry().channel_map().insert(
                channel.fd_spec(),
                channel,
            )),
            (forall|o: i32|
                o != channel.fd_spec() ==> final(self).registry().has_fd(o) == old(self).registry().has_fd(o)),
    {
        let fd = channel.as_raw_fd();
        let wants_write = channel.has_pending();
        match self.channels.register(channel) {
            Ok(()) => {
                let interest = if wants_write {
                    Interest::ReadWrite
                } else {
                    Interest::Read
                };
                self.multiplexer.add(fd, interest);
                Ok(())
            },
            Err(code) => Err(code),
        }
    }

    /// Drain the pending-connection backlog behind one acceptor readiness
    /// notification: accept repeatedly, registering each connection as a new
    /// channel, until the accept primitive reports would-block (or the
    /// bounded batch is used up). Returns how many channels were registered;
    /// a duplicate descriptor is fatal to the reactor.
    pub fn handle_acceptor_event(&mut self) -> (r: Result<usize, ReactorError>)
        requires
            old(self).wf(),
        ensures
            final(self).wf(),
            final(self).is_running() == old(self).is_running(),
            final(self).acceptor_fd_spec() == old(self).acceptor_fd_spec(),
            (r matches Ok(accepted) ==> final(self).registry().fds().len() == old(self).registry().fds().len() + accepted),
    {
        let mut accepted: usize = 0;
        let mut budget: usize = ACCEPT_BATCH_LIMIT;
        loop
            invariant
                self.wf(),
                self.is_running() == old(self).is_running(),
                self.acceptor_fd_spec() == old(self).acceptor_fd_spec(),
                accepted + budget <= ACCEPT_BATCH_LIMIT,
                self.registry().fds().len() == old(self).registry().fds().len() + accepted,
            decreases budget,
        {
            if budget == 0 {
                return Ok(accepted);
            }
            budget = budget - 1;
            match classify_accept(self.acceptor.try_accept()) {
                AcceptDecision::Register(transport, fd) => {
                    let handler = Arc::new(SocketChannelHandler::new());
                    let channel = TcpChannel::new(transport, fd, handler);
                    match self.register_channel(channel) {
                        Ok(()) => {
                            accepted = accepted + 1;
                        },
                        Err(_) => {
                            return Err(ReactorError::DuplicateRegistration(fd));
                        },
                    }
                },
                AcceptDecision::Finish => {
                    return Ok(accepted);
                },
                AcceptDecision::Retry => {},
                AcceptDecision::Halt(_) => {
                    return Ok(accepted);
                },
            }
        }
    }

    /// Queue outbound bytes for the channel registered under a descriptor
    /// and re-arm its write-readiness interest, so that the dispatch loop
    /// starts driving the new data out. Refused for a descriptor that is
    /// not registered, and for bytes that would push the channel's running
    /// byte total past what the machine can count; either way the registry
    /// holds the same channels afterwards.
    pub fn enqueue_bytes(&mut self, fd: i32, bytes: Vec<u8>) -> (r: Result<(), EnqueueError>)
        requires
            old(self).wf(),
        ensures
            final(self).wf(),
            final(self).is_running() == old(self).is_running(),
            final(self).acceptor_fd_spec() == old(self).acceptor_fd_spec(),
            final(self).registry().fds().len() == old(self).registry().fds().len(),
            (forall|o: i32| final(self).registry().has_fd(o) == old(self).registry().has_fd(o)),
            (r == Err::<(), EnqueueError>(EnqueueError::UnknownChannel) <==> !old(self).registry().has_fd(fd)),
            (old(self).registry().has_fd(fd) ==> final(self).registry().channel_map().remove(fd)
                == old(self).registry().channel_map().remove(fd)),
            (old(self).registry().has_fd(fd) && old(self).registry().channel_at(
                fd,
            ).committed().len() + old(self).registry().channel_at(fd).pending().len()
                + bytes@.len() <= usize::MAX ==> {
                &&& r == Ok::<(), EnqueueError>(())
                &&& final(self).registry().channel_at(fd).pending() == old(self).registry().channel_at(fd).pending() + bytes@
                &&& final(self).registry().channel_at(fd).committed() == old(self).registry().channel_at(fd).committed()
            }),
            (old(self).registry().has_fd(fd) && old(self).registry().channel_at(
                fd,
            ).committed().len() + old(self).registry().channel_at(fd).pending().len()
                + bytes@.len() > usize::MAX ==> r == Err::<(), EnqueueError>(
                EnqueueError::QueueFull,
            ) && final(self).registry().channel_map() == old(self).registry().channel_map()),
    {
        match self.channels.take_channel(fd) {
            None => Err(EnqueueError::UnknownChannel),
            Some(mut channel) => {
                let ghost ch0 = channel;
                proof {
                    channel.lemma_queue_bounded();
                }
                let acked = channel.committed_count();
                let owed = channel.pending_count();
                let room = usize::MAX - acked - owed;
                let status = if bytes.len() <= room {
                    channel.enqueue(bytes);
                    Ok(())
                } else {
                    Err(EnqueueError::QueueFull)
                };
                let ghost ch1 = channel;
                let interest = if channel.has_pending() {
                    Interest::ReadWrite
                } else {
                    Interest::Read
                };
                self.multiplexer.set_interest(fd, interest);
                match self.channels.register(channel) {
                    Ok(()) => {},
                    Err(_) => {
                        proof {
                            assert(false);
                        }
                    },
                }
                proof {
                    let s = self.channels.fds();
                    assert(s[s.len() - 1] == fd);
                    assert(self.channels.has_fd(fd));
                    let pre_m = old(self).registry().channel_map();
                    let post_m = self.registry().channel_map();
                    assert(post_m == pre_m.remove(fd).insert(fd, ch1));
                    assert(post_m.remove(fd) =~= pre_m.remove(fd));
                    assert(post_m[fd] == ch1);
                    assert(self.registry().channel_at(fd) == ch1);
                    assert(old(self).registry().channel_at(fd) == ch0);
                    if ch0.committed().len() + ch0.pending().len() + bytes@.len() > usize::MAX {
                        assert(ch1 == ch0);
                        assert(post_m =~= pre_m);
                    }
                }
                status
            },
        }
    }

    /// Route one readiness event for a (possibly formerly) registered
    /// channel, and report what became of that channel. An event for a
    /// descriptor that is not registered is stale and changes nothing;
    /// error or hangup closes and deregisters the channel unconditionally,
    /// skipping read and write dispatch; otherwise the channel's read and
    /// write passes run, and a channel whose connection died is closed and
    /// deregistered exactly once. Every other channel is untouched, and a
    /// retained channel keeps its acknowledged bytes, only ever extended.
    pub fn handle_channel_event(&mut self, event: ReadyEvent) -> (r: EventDisposition)
        requires
            old(self).wf(),
        ensures
            final(self).wf(),
            final(self).is_running() == old(self).is_running(),
            final(self).acceptor_fd_spec() == old(self).acceptor_fd_spec(),
            ((r == EventDisposition::Stale) <==> !old(self).registry().has_fd(event.fd)),
            (r == EventDisposition::Stale ==> final(self).registry() == old(self).registry()),
            (r == EventDisposition::Removed ==> !final(self).registry().has_fd(event.fd)
                && final(self).registry().channel_map() == old(self).registry().channel_map().remove(event.fd)),
            (r == EventDisposition::Retained ==> final(self).registry().has_fd(event.fd)
                && final(self).registry().channel_map().remove(event.fd) == old(self).registry().channel_map().remove(event.fd) && final(self).registry().channel_at(
                event.fd,
            ).open_spec() && old(self).registry().channel_at(event.fd).committed().is_prefix_of(
                final(self).registry().channel_at(event.fd).committed(),
            )),
            ((event.error || event.hangup) && old(self).registry().has_fd(event.fd) ==> r
                == EventDisposition::Removed),
            ((event.error || event.hangup) ==> !final(self).registry().has_fd(event.fd)),
            (forall|o: i32|
                o != event.fd ==> final(self).registry().has_fd(o) == old(self).registry().has_fd(
                    o,
                )),
    {
        let fd = event.fd;
        match self.channels.take_channel(fd) {
            None => EventDisposition::Stale,
            Some(mut channel) => {
                let ghost ch0 = channel;
                if event.error || event.hangup {
                    channel.close();
                    self.multiplexer.remove(fd);
                    EventDisposition::Removed
                } else {
                    let mut alive = true;
                    if event.readable {
                        match channel.read() {
                            ReadStatus::Drained => {},
                            ReadStatus::Closed(_) => {
                                alive = false;
                            },
                        }
                    }
                    proof {
                        if alive {
                            assert(channel.committed() == ch0.committed());
                        }
                    }
                    let ghost cw = channel.committed();
                    if alive && event.writable {
                        match channel.write() {
                            WriteStatus::Drained => {
                                self.multiplexer.set_interest(fd, Interest::Read);
                            },
                            WriteStatus::Backpressure => {},
                            WriteStatus::Closed(_) => {
                                alive = false;
                            },
                        }
                    }
                    if alive {
                        proof {
                            assert(cw.is_prefix_of(channel.committed()) || cw == channel
                                .committed());
                            assert(ch0.committed().is_prefix_of(channel.committed())) by {
                                if cw == channel.committed() {
                                    assert(channel.committed().subrange(
                                        0,
                                        channel.committed().len() as int,
                                    ) =~= channel.committed());
                                }
                            }
                        }
                        let ghost ch1 = channel;
                        match self.channels.register(channel) {
                            Ok(()) => {},
                            Err(_) => {
                                proof {
                                    assert(false);
                                }
                            },
                        }
                        proof {
                            let s = self.channels.fds();
                            assert(s[s.len() - 1] == fd);
                            assert(self.channels.has_fd(fd));
                            let pre_m = old(self).registry().channel_map();
                            let post_m = self.registry().channel_map();
                            assert(post_m == pre_m.remove(fd).insert(fd, ch1));
                            assert(post_m.remove(fd) =~= pre_m.remove(fd));
                            assert(post_m[fd] == ch1);
                            assert(self.registry().channel_at(fd) == ch1);
                            assert(old(self).registry().channel_at(fd) == ch0);
                        }
                        EventDisposition::Retained
                    } else {
                        self.multiplexer.remove(fd);
                        EventDisposition::Removed
                    }
                }
            },
        }
    }

    /// The dispatch loop: wait for a batch of readiness events and route
    /// each one in the order reported. An interrupted wait is retried
    /// transparently and changes nothing; any other wait failure terminates
    /// the loop with an error ([`classify_wait`] pins that routing). The
    /// loop observes `stop` at the start of every pass — a reactor that was
    /// stopped returns `Stopped` before waiting — and yields after
    /// `max_passes` passes so that every caller-visible pass count is
    /// finite. Nothing inside the loop changes the running flag.
    pub fn run(&mut self, max_passes: usize) -> (r: Result<RunStatus, ReactorError>)
        requires
            old(self).wf(),
        ensures
            final(self).wf(),
            final(self).acceptor_fd_spec() == old(self).acceptor_fd_spec(),
            final(self).is_running() == old(self).is_running(),
            ((r == Ok::<RunStatus, ReactorError>(RunStatus::Stopped)) <==> !old(self).is_running()),
            (old(self).is_running() && max_passes == 0 ==> r == Ok::<RunStatus, ReactorError>(
                RunStatus::PassLimit,
            )),
            (r == Ok::<RunStatus, ReactorError>(RunStatus::PassLimit) ==> final(self).is_running()),
    {
        let mut passes: usize = max_passes;
        loop
            invariant
                self.wf(),
                self.acceptor_fd_spec() == old(self).acceptor_fd_spec(),
                self.is_running() == old(self).is_running(),
                passes <= max_passes,
            decreases passes,
        {
            if !self.running {
                return Ok(RunStatus::Stopped);
            }
            if passes == 0 {
                return Ok(RunStatus::PassLimit);
            }
            passes = passes - 1;
            match classify_wait(self.multiplexer.wait(WAIT_BATCH_CAPACITY, -1)) {
                WaitDecision::Retry => {},
                WaitDecision::Fail(code) => {
                    return Err(ReactorError::WaitFailure(code));
                },
                WaitDecision::Dispatch(events) => {
                    let mut i: usize = 0;
                    while i < events.len()
                        invariant
                            self.wf(),
                            self.acceptor_fd_spec() == old(self).acceptor_fd_spec(),
                            self.is_running() == old(self).is_running(),
                            self.is_running(),
                            0 < max_passes,
                            i <= events@.len(),
                        decreases events@.len() - i,
                    {
                        let event = events[i];
                        if event.fd == self.acceptor_fd {
                            match self.handle_acceptor_event() {
                                Ok(_) => {},
                                Err(fatal) => {
                                    return Err(fatal);
                                },
                            }
                        } else {
                            self.handle_channel_event(event);
                        }
                        i = i + 1;
                    }
                },
            }
        }
    }

    /// Ask the dispatch loop to stop; it is observed at the start of the
    /// next pass.
    pub fn stop(&mut self)
        requires
            old(self).wf(),
        ensures
            final(self).wf(),
            !final(self).is_running(),
            final(self).acceptor_fd_spec() == old(self).acceptor_fd_spec(),
            final(self).registry() == old(self).registry(),
    {
        self.running = false;
    }
}

} // verus!
