//! What a protocol state machine asks of its driver, and what the driver
//! answers.

use vstd::prelude::*;
use vstd::string::StringExecFns;

verus! {

/// One operation that a state machine asks its driver to perform.
#[derive(Debug, Clone, PartialEq, Eq)]
pub enum Request {
    /// Read exactly this many bytes from the connection. The driver answers
    /// with the bytes, or with a failure if the connection ends or breaks
    /// before all of them have arrived.
    ReadExact(usize),
    /// Read this many bytes from the connection, fewer only if the
    /// connection ends first. The driver answers with what arrived.
    ReadUpTo(usize),
    /// Write these bytes to the connection.
    Send(Vec<u8>),
    /// Create the file of this name under the destination root and make it
    /// the file that `Write` appends to.
    Create(String),
    /// Append these bytes to the file created last.
    Write(Vec<u8>),
}

/// The mathematical value of a [`Request`].
pub enum RequestView {
    ReadExact(usize),
    ReadUpTo(usize),
    Send(Seq<u8>),
    Create(Seq<char>),
    Write(Seq<u8>),
}

impl View for Request {
    type V = RequestView;

    open spec fn view(&self) -> RequestView {
        match self {
            Request::ReadExact(n) => RequestView::ReadExact(*n),
            Request::ReadUpTo(n) => RequestView::ReadUpTo(*n),
            Request::Send(b) => RequestView::Send(b@),
            Request::Create(n) => RequestView::Create(n@),
            Request::Write(b) => RequestView::Write(b@),
        }
    }
}

/// The driver's answer to a [`Request`].
#[derive(Debug, Clone, PartialEq, Eq)]
pub enum Reply {
    /// The operation was carried out. For a read, the bytes that arrived;
    /// for the other operations the bytes carry no meaning.
    Completed(Vec<u8>),
    /// The operation failed; the text describes the fault.
    Failed(String),
}

/// The mathematical value of a [`Reply`].
pub enum ReplyView {
    Completed(Seq<u8>),
    Failed(Seq<char>),
}

impl View for Reply {
    type V = ReplyView;

    open spec fn view(&self) -> ReplyView {
        match self {
            Reply::Completed(b) => ReplyView::Completed(b@),
            Reply::Failed(r) => ReplyView::Failed(r@),
        }
    }
}

/// The reason reported when a read from the connection fails.
pub open spec fn read_failure(detail: Seq<char>) -> Seq<char> {
    "Failed to read from socket: "@ + detail
}

/// The reason reported when a write to the connection fails.
pub open spec fn send_failure(detail: Seq<char>) -> Seq<char> {
    "Failed to write to socket: "@ + detail
}

/// The reason reported when a write to the file fails.
pub open spec fn store_failure(detail: Seq<char>) -> Seq<char> {
    "Failed to write to file: "@ + detail
}

/// The reason reported when the bytes of a name are not UTF-8.
pub open spec fn name_failure(detail: Seq<char>) -> Seq<char> {
    "Failed to convert file name bytes to string: "@ + detail
}

/// The reason reported when the continuation marker cannot be read.
pub open spec fn marker_failure(detail: Seq<char>) -> Seq<char> {
    "Failed to read continuation marker: "@ + detail
}

/// The reason reported when the version field does not have four bytes.
pub open spec fn version_width_failure() -> Seq<char> {
    "Failed to convert bytes to slice"@
}

/// The reason reported when the name-length field does not have four bytes.
pub open spec fn name_length_width_failure() -> Seq<char> {
    "Failed to convert file name length bytes to slice"@
}

/// The reason reported when the size field does not have eight bytes.
pub open spec fn size_width_failure() -> Seq<char> {
    "Failed to convert file size bytes to slice"@
}

/// The reason reported when the marker field does not have one byte.
pub open spec fn marker_width_failure() -> Seq<char> {
    "Failed to convert continuation marker bytes to slice"@
}

/// Joins a fixed introduction and the detail of a fault into one reason.
pub fn explain(introduction: &str, detail: &str) -> (reason: String)
    ensures
        reason@ == introduction@ + detail@,
{
    String::from_str(introduction).concat(detail)
}

} // verus!
