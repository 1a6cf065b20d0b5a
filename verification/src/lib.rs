//! A sans-I/O implementation of a small file-transfer wire protocol: a
//! version handshake followed by a stream of length-prefixed files.
//!
//! The protocol logic is written as state machines that never touch a socket
//! or a file themselves. A driver performs each [`exchange::Request`] and
//! hands back the [`exchange::Reply`]:
//!
//! - [`handshake`] negotiates the protocol version, as the client sees it;
//! - [`receiver`] receives one framed file;
//! - [`directory`] receives files for as long as a continuation marker
//!   announces one.
//!
//! [`loopback::Loopback`] is a driver over bytes held in memory. Each module
//! states what a run of its machine over such a link comes to, read off the
//! bytes of the stream, and proves the laws of the wire format from that:
//! what is framed by [`wire`] is received as it was sent.

pub mod directory;
pub mod exchange;
pub mod handshake;
pub mod loopback;
pub mod outcome;
pub mod receiver;
pub mod wire;
