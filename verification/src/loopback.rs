//! A driver held in memory: the bytes that the peer sends are given up
//! front, and what the protocol sends and stores is recorded. It answers
//! every request as a connection would that closes after its last byte. By
//! default every write succeeds and every file can be created; a link can
//! also be given faults, so that the failures of a real connection and a
//! real destination can be played through.

use crate::exchange::{Reply, ReplyView, Request, RequestView};
use crate::wire::extend;
use vstd::math::min;
use vstd::prelude::*;
use vstd::slice::{slice_subrange, slice_to_vec};
use vstd::string::StringExecFns;

verus! {

/// A file as the destination holds it.
#[derive(Debug, Clone, PartialEq, Eq)]
pub struct StoredFile {
    pub name: String,
    pub contents: Vec<u8>,
}

/// The mathematical value of a [`StoredFile`].
pub struct StoredFileView {
    pub name: Seq<char>,
    pub contents: Seq<u8>,
}

impl View for StoredFile {
    type V = StoredFileView;

    open spec fn view(&self) -> StoredFileView {
        StoredFileView { name: self.name@, contents: self.contents@ }
    }
}

/// The kinds of operation that fail on a link.
#[derive(Debug, Clone, Copy, PartialEq, Eq)]
pub struct Faults {
    /// The peer has stopped reading: every write to it fails.
    pub send: bool,
    /// The destination admits no new file: every creation fails.
    pub create: bool,
    /// The destination is full: every write to a file fails.
    pub write: bool,
}

/// The mathematical value of a [`Loopback`].
pub struct LoopbackView {
    /// The bytes from the peer that have not been read yet.
    pub unread: Seq<u8>,
    /// The bytes written to the peer, oldest first.
    pub sent: Seq<u8>,
    /// The files created, oldest first.
    pub files: Seq<StoredFileView>,
    /// What fails on this link.
    pub faults: Faults,
}

/// The fault with which a read fails when the stream ends too early.
pub open spec fn end_of_stream() -> Seq<char> {
    "failed to fill whole buffer"@
}

/// The fault with which a write fails when no file has been created.
pub open spec fn no_file() -> Seq<char> {
    "no file has been created"@
}

/// The fault with which a write to a peer fails that has stopped reading.
pub open spec fn peer_gone() -> Seq<char> {
    "broken pipe"@
}

/// The fault with which a creation fails where none is admitted.
pub open spec fn creation_denied() -> Seq<char> {
    "permission denied"@
}

/// The fault with which a write to a file fails where the destination is
/// full.
pub open spec fn destination_full() -> Seq<char> {
    "no space left on device"@
}

/// A link on which nothing fails but a read past the end of the stream.
pub open spec fn sound() -> Faults {
    Faults { send: false, create: false, write: false }
}

impl LoopbackView {
    /// This value after `count` bytes have been read.
    pub open spec fn advance(self, count: int) -> LoopbackView {
        LoopbackView { unread: self.unread.skip(count), ..self }
    }

    /// This value after the stream has been read to its end.
    pub open spec fn drained(self) -> LoopbackView {
        LoopbackView { unread: Seq::empty(), ..self }
    }

    /// This value after `bytes` have been appended to the file created last.
    pub open spec fn stored(self, bytes: Seq<u8>) -> LoopbackView
        recommends
            self.files.len() > 0,
    {
        let file = self.files.last();
        LoopbackView {
            files: self.files.drop_last().push(
                StoredFileView { name: file.name, contents: file.contents + bytes },
            ),
            ..self
        }
    }

    /// This value after an empty file of the given name has been created.
    pub open spec fn created(self, name: Seq<char>) -> LoopbackView {
        LoopbackView {
            files: self.files.push(StoredFileView { name, contents: Seq::empty() }),
            ..self
        }
    }

    /// What performing `request` leaves behind, and the answer to it.
    pub open spec fn respond(self, request: RequestView) -> (LoopbackView, ReplyView) {
        match request {
            RequestView::ReadExact(count) => if count <= self.unread.len() {
                (self.advance(count as int), ReplyView::Completed(self.unread.take(count as int)))
            } else {
                (self.drained(), ReplyView::Failed(end_of_stream()))
            },
            RequestView::ReadUpTo(count) => {
                let taken = min(count as int, self.unread.len() as int);
                (self.advance(taken), ReplyView::Completed(self.unread.take(taken)))
            },
            RequestView::Send(bytes) => if self.faults.send {
                (self, ReplyView::Failed(peer_gone()))
            } else {
                (
                    LoopbackView { sent: self.sent + bytes, ..self },
                    ReplyView::Completed(Seq::empty()),
                )
            },
            RequestView::Create(name) => if self.faults.create {
                (self, ReplyView::Failed(creation_denied()))
            } else {
                (self.created(name), ReplyView::Completed(Seq::empty()))
            },
            RequestView::Write(bytes) => if self.files.len() == 0 {
                (self, ReplyView::Failed(no_file()))
            } else if self.faults.write {
                (self, ReplyView::Failed(destination_full()))
            } else {
                (self.stored(bytes), ReplyView::Completed(Seq::empty()))
            },
        }
    }
}

/// The bytes that the peer sends, with the place up to which they have been
/// read.
struct Inbound {
    bytes: Vec<u8>,
    cursor: usize,
}

impl Inbound {
    #[verifier::type_invariant]
    spec fn cursor_in_range(&self) -> bool {
        self.cursor <= self.bytes@.len()
    }

    spec fn unread(&self) -> Seq<u8> {
        self.bytes@.skip(self.cursor as int)
    }

    fn new(bytes: Vec<u8>) -> (inbound: Inbound)
        ensures
            inbound.unread() == bytes@,
    {
        let inbound = Inbound { bytes, cursor: 0 };
        assert(inbound.unread() =~= bytes@);
        inbound
    }

    fn unread_len(&self) -> (count: usize)
        ensures
            count == self.unread().len(),
    {
        proof {
            use_type_invariant(self);
        }
        self.bytes.len() - self.cursor
    }

    fn take(&mut self, count: usize) -> (bytes: Vec<u8>)
        requires
            count <= old(self).unread().len(),
        ensures
            bytes@ == old(self).unread().take(count as int),
            final(self).unread() == old(self).unread().skip(count as int),
    {
        proof {
            use_type_invariant(&*self);
            assert(self.cursor + count <= self.bytes@.len() == self.bytes.len());
        }
        let end = self.cursor + count;
        let bytes = slice_to_vec(slice_subrange(self.bytes.as_slice(), self.cursor, end));
        assert(bytes@ =~= self.unread().take(count as int));
        self.cursor = end;
        assert(self.unread() =~= old(self).unread().skip(count as int));
        bytes
    }

    fn drain(&mut self)
        ensures
            final(self).unread() == Seq::<u8>::empty(),
    {
        self.cursor = self.bytes.len();
        assert(self.unread() =~= Seq::<u8>::empty());
    }
}

/// A connection and a destination held in memory.
pub struct Loopback {
    inbound: Inbound,
    sent: Vec<u8>,
    files: Vec<StoredFile>,
    faults: Faults,
}

impl View for Loopback {
    type V = LoopbackView;

    closed spec fn view(&self) -> LoopbackView {
        LoopbackView {
            unread: self.inbound.unread(),
            sent: self.sent@,
            files: self.files@.map_values(|file: StoredFile| file@),
            faults: self.faults,
        }
    }
}

impl Loopback {
    /// A connection on which the peer sends `incoming` and then closes, and
    /// a destination without files.
    pub fn new(incoming: Vec<u8>) -> (link: Loopback)
        ensures
            link@ == (LoopbackView {
                unread: incoming@,
                sent: Seq::empty(),
                files: Seq::empty(),
                faults: sound(),
            }),
    {
        Loopback::with_faults(incoming, Faults { send: false, create: false, write: false })
    }

    /// A connection on which the peer sends `incoming` and then closes, and
    /// a destination without files, with the given faults.
    pub fn with_faults(incoming: Vec<u8>, faults: Faults) -> (link: Loopback)
        ensures
            link@ == (LoopbackView {
                unread: incoming@,
                sent: Seq::empty(),
                files: Seq::empty(),
                faults,
            }),
    {
        let link = Loopback {
            inbound: Inbound::new(incoming),
            sent: Vec::new(),
            files: Vec::new(),
            faults,
        };
        assert(link@.files =~= Seq::empty());
        link
    }

    /// The number of bytes from the peer that have not been read yet.
    pub fn unread_len(&self) -> (count: usize)
        ensures
            count == self@.unread.len(),
    {
        self.inbound.unread_len()
    }

    /// The bytes written to the peer so far.
    pub fn sent(&self) -> (bytes: &Vec<u8>)
        ensures
            bytes@ == self@.sent,
    {
        &self.sent
    }

    /// The number of files created so far.
    pub fn file_count(&self) -> (count: usize)
        ensures
            count == self@.files.len(),
    {
        self.files.len()
    }

    /// The file created as the `index`-th, counted from zero; `None` past
    /// the last.
    pub fn file(&self, index: usize) -> (file: Option<&StoredFile>)
        ensures
            file is Some <==> index < self@.files.len(),
            file matches Some(f) ==> f@ == self@.files[index as int],
    {
        if index < self.files.len() {
            Some(&self.files[index])
        } else {
            None
        }
    }

    /// Reads exactly `size` bytes from the peer. Where the stream ends
    /// before that, the read fails and the stream is left read to its end.
    pub fn read_bytes(&mut self, size: usize) -> (reply: Reply)
        ensures
            (final(self)@, reply@) == old(self)@.respond(RequestView::ReadExact(size)),
    {
        if size <= self.inbound.unread_len() {
            Reply::Completed(self.inbound.take(size))
        } else {
            self.inbound.drain();
            Reply::Failed(String::from_str("failed to fill whole buffer"))
        }
    }

    /// Performs `request` and answers it.
    pub fn perform(&mut self, request: Request) -> (reply: Reply)
        ensures
            (final(self)@, reply@) == old(self)@.respond(request@),
    {
        match request {
            Request::ReadExact(count) => self.read_bytes(count),
            Request::ReadUpTo(count) => {
                let available = self.inbound.unread_len();
                let taken = if count <= available {
                    count
                } else {
                    available
                };
                Reply::Completed(self.inbound.take(taken))
            },
            Request::Send(bytes) => {
                if self.faults.send {
                    Reply::Failed(String::from_str("broken pipe"))
                } else {
                    extend(&mut self.sent, bytes.as_slice());
                    Reply::Completed(Vec::new())
                }
            },
            Request::Create(name) => {
                if self.faults.create {
                    Reply::Failed(String::from_str("permission denied"))
                } else {
                    self.files.push(StoredFile { name, contents: Vec::new() });
                    assert(self@.files =~= old(self)@.created(name@).files);
                    Reply::Completed(Vec::new())
                }
            },
            Request::Write(bytes) => {
                if self.faults.write && self.files.len() > 0 {
                    return Reply::Failed(String::from_str("no space left on device"));
                }
                match self.files.pop() {
                    None => Reply::Failed(String::from_str("no file has been created")),
                    Some(file) => {
                        let mut file = file;
                        extend(&mut file.contents, bytes.as_slice());
                        self.files.push(file);
                        assert(self@.files =~= old(self)@.stored(bytes@).files);
                        Reply::Completed(Vec::new())
                    },
                }
            },
        }
    }
}

} // verus!
