use std::sync::Arc;

use reactor_core::channel::{ScriptedTransport, SendOutcome, Transport};
use reactor_core::chunk::SocketChannelHandler;
use reactor_core::event_loop::{
    classify_wait, AcceptOutcome, Acceptor, ChannelRegistry, EnqueueError, EventDisposition,
    Interest, Multiplexer, ReactorError, Reactor, ReadyEvent, RegistryError, RunStatus,
    WaitDecision, WaitError,
};
use reactor_core::tcp_channel::TcpChannel;

/// A multiplexer answering its wait calls from a script; an exhausted
/// script reports an operating-system failure so that `run` terminates.
struct ScriptedMultiplexer {
    waits: Vec<Result<Vec<ReadyEvent>, WaitError>>,
}

impl Multiplexer for ScriptedMultiplexer {
    fn wait(&mut self, _capacity: usize, _timeout_ms: i32) -> Result<Vec<ReadyEvent>, WaitError> {
        if self.waits.is_empty() {
            Err(WaitError::Os(999))
        } else {
            self.waits.remove(0)
        }
    }

    fn add(&mut self, _fd: i32, _interest: Interest) {}

    fn set_interest(&mut self, _fd: i32, _interest: Interest) {}

    fn remove(&mut self, _fd: i32) {}
}

/// An acceptor answering from a scripted backlog; an exhausted backlog
/// reports would-block.
struct ScriptedAcceptor {
    backlog: Vec<AcceptOutcome<ScriptedTransport>>,
}

impl Acceptor<ScriptedTransport> for ScriptedAcceptor {
    fn try_accept(&mut self) -> AcceptOutcome<ScriptedTransport> {
        if self.backlog.is_empty() {
            AcceptOutcome::WouldBlock
        } else {
            self.backlog.remove(0)
        }
    }
}

const LISTENER_FD: i32 = 3;

fn reactor_with(
    waits: Vec<Result<Vec<ReadyEvent>, WaitError>>,
    backlog: Vec<AcceptOutcome<ScriptedTransport>>,
) -> Reactor<ScriptedTransport, ScriptedMultiplexer, ScriptedAcceptor> {
    Reactor::new(
        ScriptedMultiplexer { waits },
        ScriptedAcceptor { backlog },
        LISTENER_FD,
    )
}

fn scripted_channel(fd: i32, send_script: Vec<SendOutcome>) -> TcpChannel<ScriptedTransport> {
    TcpChannel::new(
        ScriptedTransport::new(send_script, vec![]),
        fd,
        Arc::new(SocketChannelHandler::new()),
    )
}

fn accepted(fd: i32) -> AcceptOutcome<ScriptedTransport> {
    AcceptOutcome::Accepted(ScriptedTransport::new(vec![], vec![]), fd)
}

fn writable_event(fd: i32) -> ReadyEvent {
    ReadyEvent { fd, readable: false, writable: true, error: false, hangup: false }
}

#[test]
fn registering_a_duplicate_descriptor_fails() {
    let mut reactor = reactor_with(vec![], vec![]);
    assert_eq!(reactor.register_channel(scripted_channel(7, vec![])), Ok(()));
    assert_eq!(reactor.channel_count(), 1);
    assert_eq!(
        reactor.register_channel(scripted_channel(7, vec![])),
        Err(RegistryError::DuplicateRegistration)
    );
    assert_eq!(reactor.channel_count(), 1);
}

#[test]
fn registry_rejects_duplicate_and_stays_unchanged() {
    let mut registry: ChannelRegistry<ScriptedTransport> = ChannelRegistry::new();
    assert_eq!(registry.register(scripted_channel(4, vec![])), Ok(()));
    assert_eq!(registry.register(scripted_channel(5, vec![])), Ok(()));
    assert_eq!(
        registry.register(scripted_channel(4, vec![])),
        Err(RegistryError::DuplicateRegistration)
    );
    assert_eq!(registry.len(), 2);
    assert!(registry.take_channel(4).is_some());
    assert!(registry.take_channel(4).is_none());
    assert_eq!(registry.len(), 1);
}

#[test]
fn one_notification_drains_the_whole_backlog() {
    // A single readiness notification on the listening socket, three
    // connections pending behind it: all three are registered before the
    // pass returns.
    let mut reactor = reactor_with(
        vec![],
        vec![accepted(10), accepted(11), accepted(12), AcceptOutcome::WouldBlock],
    );
    assert_eq!(reactor.handle_acceptor_event(), Ok(3));
    assert_eq!(reactor.channel_count(), 3);
}

#[test]
fn accept_drain_retries_interruptions() {
    let mut reactor = reactor_with(
        vec![],
        vec![accepted(10), AcceptOutcome::Interrupted, accepted(11)],
    );
    assert_eq!(reactor.handle_acceptor_event(), Ok(2));
    assert_eq!(reactor.channel_count(), 2);
}

#[test]
fn accepting_a_duplicate_descriptor_is_fatal() {
    let mut reactor = reactor_with(vec![], vec![accepted(10), accepted(10)]);
    assert_eq!(
        reactor.handle_acceptor_event(),
        Err(ReactorError::DuplicateRegistration(10))
    );
}

#[test]
fn fatal_write_closes_and_deregisters_exactly_once() {
    // Two queued events reference the same channel; the connection resets
    // during the first write, so the channel is closed and deregistered
    // then, and the second event is stale and changes nothing.
    let mut reactor = reactor_with(vec![], vec![]);
    let mut channel = scripted_channel(9, vec![SendOutcome::ConnectionReset]);
    channel.enqueue(vec![1, 2, 3]);
    assert_eq!(reactor.register_channel(channel), Ok(()));
    assert_eq!(reactor.channel_count(), 1);

    assert_eq!(reactor.handle_channel_event(writable_event(9)), EventDisposition::Removed);
    assert_eq!(reactor.channel_count(), 0);

    assert_eq!(reactor.handle_channel_event(writable_event(9)), EventDisposition::Stale);
    assert_eq!(reactor.channel_count(), 0);
}

#[test]
fn error_event_closes_unconditionally() {
    let mut reactor = reactor_with(vec![], vec![]);
    assert_eq!(reactor.register_channel(scripted_channel(8, vec![])), Ok(()));
    let event = ReadyEvent { fd: 8, readable: true, writable: true, error: true, hangup: false };
    assert_eq!(reactor.handle_channel_event(event), EventDisposition::Removed);
    assert_eq!(reactor.channel_count(), 0);
}

#[test]
fn hangup_event_closes_unconditionally() {
    let mut reactor = reactor_with(vec![], vec![]);
    assert_eq!(reactor.register_channel(scripted_channel(8, vec![])), Ok(()));
    let event = ReadyEvent { fd: 8, readable: false, writable: false, error: false, hangup: true };
    assert_eq!(reactor.handle_channel_event(event), EventDisposition::Removed);
    assert_eq!(reactor.channel_count(), 0);
}

#[test]
fn stale_event_is_ignored() {
    let mut reactor = reactor_with(vec![], vec![]);
    assert_eq!(reactor.register_channel(scripted_channel(8, vec![])), Ok(()));
    assert_eq!(reactor.handle_channel_event(writable_event(42)), EventDisposition::Stale);
    assert_eq!(reactor.channel_count(), 1);
}

#[test]
fn successful_write_keeps_the_channel_registered() {
    let mut reactor = reactor_with(vec![], vec![]);
    let mut channel = scripted_channel(9, vec![SendOutcome::Sent(3)]);
    channel.enqueue(vec![1, 2, 3]);
    assert_eq!(reactor.register_channel(channel), Ok(()));
    assert_eq!(reactor.handle_channel_event(writable_event(9)), EventDisposition::Retained);
    assert_eq!(reactor.channel_count(), 1);
}

#[test]
fn run_observes_stop_before_waiting() {
    let mut reactor = reactor_with(vec![], vec![]);
    reactor.stop();
    assert_eq!(reactor.run(10), Ok(RunStatus::Stopped));
}

#[test]
fn run_yields_after_its_pass_budget() {
    let mut reactor = reactor_with(
        vec![Ok(vec![]), Ok(vec![])],
        vec![],
    );
    assert_eq!(reactor.run(2), Ok(RunStatus::PassLimit));
}

#[test]
fn wait_failure_terminates_run_with_an_error() {
    let mut reactor = reactor_with(vec![Err(WaitError::Os(5))], vec![]);
    assert_eq!(reactor.run(10), Err(ReactorError::WaitFailure(5)));
}

#[test]
fn interrupted_wait_is_retried_transparently() {
    let mut reactor = reactor_with(
        vec![Err(WaitError::Interrupted), Err(WaitError::Os(5))],
        vec![],
    );
    assert_eq!(reactor.run(10), Err(ReactorError::WaitFailure(5)));
}

#[test]
fn run_dispatches_acceptor_readiness() {
    let listener_ready = ReadyEvent {
        fd: LISTENER_FD,
        readable: true,
        writable: false,
        error: false,
        hangup: false,
    };
    let mut reactor = reactor_with(
        vec![Ok(vec![listener_ready])],
        vec![accepted(10), accepted(11)],
    );
    assert_eq!(reactor.run(1), Ok(RunStatus::PassLimit));
    assert_eq!(reactor.channel_count(), 2);
}

#[test]
fn enqueue_through_the_reactor_feeds_the_write_pass() {
    let mut reactor = reactor_with(vec![], vec![]);
    assert_eq!(
        reactor.register_channel(scripted_channel(9, vec![SendOutcome::Sent(3)])),
        Ok(())
    );
    assert_eq!(reactor.enqueue_bytes(9, vec![1, 2, 3]), Ok(()));
    assert_eq!(reactor.handle_channel_event(writable_event(9)), EventDisposition::Retained);
    assert_eq!(reactor.channel_count(), 1);
}

#[test]
fn enqueue_for_an_unknown_descriptor_is_refused() {
    let mut reactor = reactor_with(vec![], vec![]);
    assert_eq!(
        reactor.enqueue_bytes(42, vec![1]),
        Err(EnqueueError::UnknownChannel)
    );
    assert_eq!(reactor.channel_count(), 0);
}

#[test]
fn wait_outcomes_route_exactly() {
    let batch = vec![writable_event(4)];
    assert_eq!(
        classify_wait(Ok(batch.clone())),
        WaitDecision::Dispatch(batch)
    );
    assert_eq!(classify_wait(Err(WaitError::Interrupted)), WaitDecision::Retry);
    assert_eq!(classify_wait(Err(WaitError::Os(5))), WaitDecision::Fail(5));
}

/// A multiplexer that records every interest-management call, so the
/// reactor's subscription discipline is observable.
struct RecordingMultiplexer {
    log: Vec<(&'static str, i32, Option<Interest>)>,
}

impl Multiplexer for RecordingMultiplexer {
    fn wait(&mut self, _capacity: usize, _timeout_ms: i32) -> Result<Vec<ReadyEvent>, WaitError> {
        Err(WaitError::Os(999))
    }

    fn add(&mut self, fd: i32, interest: Interest) {
        self.log.push(("add", fd, Some(interest)));
    }

    fn set_interest(&mut self, fd: i32, interest: Interest) {
        self.log.push(("set", fd, Some(interest)));
    }

    fn remove(&mut self, fd: i32) {
        self.log.push(("remove", fd, None));
    }
}

#[test]
fn interest_follows_pending_data() {
    let mut reactor = Reactor::new(
        RecordingMultiplexer { log: Vec::new() },
        ScriptedAcceptor { backlog: vec![] },
        LISTENER_FD,
    );

    // An idle channel subscribes read-only; one with queued bytes
    // subscribes read-plus-write.
    assert_eq!(reactor.register_channel(scripted_channel(7, vec![])), Ok(()));
    let mut busy = scripted_channel(8, vec![SendOutcome::WouldBlock, SendOutcome::Sent(3)]);
    busy.enqueue(vec![1, 2, 3]);
    assert_eq!(reactor.register_channel(busy), Ok(()));

    // Enqueueing through the reactor re-arms write interest.
    assert_eq!(reactor.enqueue_bytes(7, vec![9]), Ok(()));

    // A backpressured write pass leaves write interest registered: no
    // interest call is recorded for it.
    assert_eq!(reactor.handle_channel_event(writable_event(8)), EventDisposition::Retained);

    // A write pass that drains the queue drops back to read-only interest.
    assert_eq!(reactor.handle_channel_event(writable_event(8)), EventDisposition::Retained);

    // An error event deregisters the descriptor from the multiplexer.
    let event = ReadyEvent { fd: 7, readable: false, writable: false, error: true, hangup: false };
    assert_eq!(reactor.handle_channel_event(event), EventDisposition::Removed);

    assert_eq!(
        reactor.multiplexer().log,
        vec![
            ("add", 7, Some(Interest::Read)),
            ("add", 8, Some(Interest::ReadWrite)),
            ("set", 7, Some(Interest::ReadWrite)),
            ("set", 8, Some(Interest::Read)),
            ("remove", 7, None),
        ]
    );
}

#[test]
fn scripted_transport_clamps_grants_and_logs() {
    let mut transport = ScriptedTransport::new(vec![SendOutcome::Sent(100)], vec![]);
    let offered = vec![1, 2, 3];
    assert_eq!(transport.try_send(&offered), SendOutcome::Sent(3));
    assert_eq!(transport.sent_log().as_slice(), &[1, 2, 3]);
}
