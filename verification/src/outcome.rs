//! The outcomes that the handshake and the receipt of a file can have.

use vstd::prelude::*;

verus! {

/// How a handshake ended.
#[derive(Debug, Clone, PartialEq, Eq)]
pub enum HandshakeResult {
    /// Both ends speak the version given, which is the server's.
    Accepted(u32),
    /// The server announced a version this implementation does not know.
    UnknownProtocolVersion(u32),
    /// The server announced a version that is no longer supported.
    ObsoleteProtocolVersion(u32),
    AlreadyConnected,
    TooManyClients,
    /// The server refused, for the reason given.
    Rejected(String),
    /// The server reported a fault of its own.
    UnknownServerError(String),
    /// The connection failed, as described.
    UnknownConnectionError(String),
}

/// The mathematical value of a [`HandshakeResult`].
pub enum HandshakeOutcome {
    Accepted(u32),
    UnknownProtocolVersion(u32),
    ObsoleteProtocolVersion(u32),
    AlreadyConnected,
    TooManyClients,
    Rejected(Seq<char>),
    UnknownServerError(Seq<char>),
    UnknownConnectionError(Seq<char>),
}

impl View for HandshakeResult {
    type V = HandshakeOutcome;

    open spec fn view(&self) -> HandshakeOutcome {
        match self {
            HandshakeResult::Accepted(v) => HandshakeOutcome::Accepted(*v),
            HandshakeResult::UnknownProtocolVersion(v) => HandshakeOutcome::UnknownProtocolVersion(
                *v,
            ),
            HandshakeResult::ObsoleteProtocolVersion(v) => HandshakeOutcome::ObsoleteProtocolVersion(
                *v,
            ),
            HandshakeResult::AlreadyConnected => HandshakeOutcome::AlreadyConnected,
            HandshakeResult::TooManyClients => HandshakeOutcome::TooManyClients,
            HandshakeResult::Rejected(r) => HandshakeOutcome::Rejected(r@),
            HandshakeResult::UnknownServerError(r) => HandshakeOutcome::UnknownServerError(r@),
            HandshakeResult::UnknownConnectionError(r) => HandshakeOutcome::UnknownConnectionError(
                r@,
            ),
        }
    }
}

/// How the receipt of one file ended.
#[derive(Debug, Clone, PartialEq, Eq)]
pub enum ReceiveFileResult {
    /// The frame was read and what arrived of the payload was stored.
    Received,
    /// The file could not be created under the destination root.
    CanNotCreateFile,
    FileAlreadyExists,
    /// The frame could not be read, or the payload could not be stored.
    UnknownNetworkError(String),
}

/// The mathematical value of a [`ReceiveFileResult`].
pub enum FileOutcome {
    Received,
    CanNotCreateFile,
    FileAlreadyExists,
    UnknownNetworkError(Seq<char>),
}

impl View for ReceiveFileResult {
    type V = FileOutcome;

    open spec fn view(&self) -> FileOutcome {
        match self {
            ReceiveFileResult::Received => FileOutcome::Received,
            ReceiveFileResult::CanNotCreateFile => FileOutcome::CanNotCreateFile,
            ReceiveFileResult::FileAlreadyExists => FileOutcome::FileAlreadyExists,
            ReceiveFileResult::UnknownNetworkError(r) => FileOutcome::UnknownNetworkError(r@),
        }
    }
}

} // verus!
