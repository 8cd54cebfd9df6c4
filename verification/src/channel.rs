//! The transport boundary: the classified results of the non-blocking send
//! and receive primitives, and the `Transport` capability a channel drives.
//!
//! A `Transport` stands for one connected, non-blocking duplex byte stream.
//! The reactor core never performs a syscall itself: a concrete transport
//! (a real socket, or the scripted transport below) supplies the outcomes,
//! and every decision taken on an outcome is verified.

use vstd::prelude::*;

verus! {

/// Classified result of one non-blocking send attempt.
#[derive(Clone, Copy, PartialEq, Eq, Structural, Debug)]
pub enum SendOutcome {
    /// The transport accepted this many bytes (at least one, at most the
    /// number offered).
    Sent(usize),
    /// The send buffer is momentarily full; try again on the next writable
    /// readiness event.
    WouldBlock,
    /// A signal interrupted the call before any byte moved; retry at once.
    Interrupted,
    /// The peer reset the connection; the stream is unusable.
    ConnectionReset,
    /// The stream's write side is gone (broken pipe); the stream is unusable.
    BrokenPipe,
    /// The operating system is out of buffer space; treated as backpressure.
    NoBufferSpace,
    /// Any other send failure, carried as its error code; fatal to the
    /// channel, never to the reactor.
    Other(i32),
}

/// Why a channel was closed.
#[derive(Clone, Copy, PartialEq, Eq, Structural, Debug)]
pub enum CloseReason {
    /// The peer shut the connection down in an orderly way.
    PeerClosed,
    /// The peer reset the connection.
    ConnectionReset,
    /// The write side broke (broken pipe).
    BrokenPipe,
    /// Another operating-system error, carried as its error code.
    Os(i32),
}

/// Classified result of one non-blocking receive attempt.
#[derive(PartialEq, Eq, Debug)]
pub enum RecvOutcome {
    /// Some inbound bytes were available.
    Data(Vec<u8>),
    /// No inbound data right now; stop draining until the next readable
    /// readiness event.
    WouldBlock,
    /// A signal interrupted the call; retry at once.
    Interrupted,
    /// The stream ended or failed; the channel must close.
    Disconnected(CloseReason),
}

/// What a channel's write pass reports back to the reactor.
#[derive(Clone, Copy, PartialEq, Eq, Structural, Debug)]
pub enum WriteStatus {
    /// Every pending byte was handed to the transport; write interest can be
    /// dropped until new data is enqueued.
    Drained,
    /// The transport signalled backpressure; keep write interest and resume
    /// on the next writable readiness event.
    Backpressure,
    /// A fatal send error: the channel closed itself and must be
    /// deregistered.
    Closed(CloseReason),
}

/// What a channel's read pass reports back to the reactor.
#[derive(Clone, Copy, PartialEq, Eq, Structural, Debug)]
pub enum ReadStatus {
    /// All currently-available inbound data was consumed.
    Drained,
    /// The stream ended or failed: the channel closed itself and must be
    /// deregistered.
    Closed(CloseReason),
}

/// One connected, non-blocking duplex byte stream.
///
/// `try_send` promises only what the send primitive itself promises: a
/// success reports between one byte and the number of bytes offered.
/// Nothing else is assumed of any outcome, so the callers are verified
/// against every outcome a real socket can produce.
pub trait Transport {
    /// Offer `bytes` to the stream in a single non-blocking send attempt.
    fn try_send(&mut self, bytes: &Vec<u8>) -> (r: SendOutcome)
        requires
            bytes@.len() > 0,
        ensures
            (r matches SendOutcome::Sent(n) ==> 1 <= n && n <= bytes@.len()),
    ;

    /// One non-blocking receive attempt.
    fn try_recv(&mut self) -> (r: RecvOutcome);

    /// Release the underlying stream. Called at most once per channel.
    fn close(&mut self);
}

/// A transport that answers from prewritten scripts instead of a socket.
///
/// It lets the write and read paths be driven deterministically through any
/// interleaving of partial sends, backpressure, interruptions, and failures,
/// and it records what it acknowledged: every byte counted by a `Sent`
/// answer is appended to a log, and every `close` call is counted.
///
/// A scripted `Sent(n)` answer is clamped into the range the `Transport`
/// contract allows (at least one byte, at most the number offered); an
/// exhausted script answers `WouldBlock`.
pub struct ScriptedTransport {
    send_script: Vec<SendOutcome>,
    recv_script: Vec<RecvOutcome>,
    sent_log: Vec<u8>,
    close_count: usize,
}

impl ScriptedTransport {
    pub fn new(send_script: Vec<SendOutcome>, recv_script: Vec<RecvOutcome>) -> (r: Self) {
        ScriptedTransport { send_script, recv_script, sent_log: Vec::new(), close_count: 0 }
    }

    /// Every byte acknowledged by a `Sent` answer so far, in order.
    pub fn sent_log(&self) -> (r: &Vec<u8>) {
        &self.sent_log
    }

    /// How often `close` was called.
    pub fn close_count(&self) -> (r: usize) {
        self.close_count
    }
}

impl Transport for ScriptedTransport {
    fn try_send(&mut self, bytes: &Vec<u8>) -> (r: SendOutcome) {
        if self.send_script.len() == 0 {
            return SendOutcome::WouldBlock;
        }
        let outcome = self.send_script.remove(0);
        match outcome {
            SendOutcome::Sent(n) => {
                let granted: usize = if n == 0 {
                    1
                } else if n > bytes.len() {
                    bytes.len()
                } else {
                    n
                };
                let mut j: usize = 0;
                while j < granted
                    invariant
                        granted <= bytes@.len(),
                        j <= granted,
                    decreases granted - j,
                {
                    let byte: u8 = bytes[j];
                    self.sent_log.push(byte);
                    j = j + 1;
                }
                SendOutcome::Sent(granted)
            },
            other => other,
        }
    }

    fn try_recv(&mut self) -> (r: RecvOutcome) {
        if self.recv_script.len() == 0 {
            return RecvOutcome::WouldBlock;
        }
        self.recv_script.remove(0)
    }

    fn close(&mut self) {
        if self.close_count < usize::MAX {
            self.close_count = self.close_count + 1;
        }
    }
}

} // verus!
