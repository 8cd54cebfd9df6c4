//! A single-threaded, readiness-driven I/O core: an event loop (reactor)
//! dispatching readiness events to registered channels, each channel driving
//! a chunked, retry-aware, non-blocking outbound write path.
//!
//! All socket and multiplexer syscalls sit behind the boundary traits in
//! [`channel`] and [`event_loop`]; everything that decides or computes is
//! verified here.

pub mod channel;
pub mod chunk;
pub mod event_loop;
pub mod tcp_channel;
