//! The receipt of one file: a state machine that reads the frame field by
//! field, has the file created, and copies the payload to it in chunks.

use crate::exchange::{
    explain, name_failure, name_length_width_failure, read_failure, size_width_failure,
    store_failure, Reply, ReplyView, Request, RequestView,
};
use crate::loopback::{destination_full, end_of_stream, Loopback, LoopbackView, StoredFileView};
use crate::outcome::{FileOutcome, ReceiveFileResult};
use crate::wire::{
    be_bytes, be_value, decode_u32, decode_u64, file_frame, frame_header, frameable,
    lemma_be_bytes_len, lemma_be_limits, lemma_be_round_trip, lemma_be_value_bound, CHUNK_BYTES,
    SIZE_BYTES, WORD_BYTES,
};
use vstd::math::min;
use vstd::prelude::*;
use vstd::string::StringExecFns;
use vstd::utf8::{
    decode_utf8, encode_utf8, encode_utf8_decode_utf8, encode_utf8_valid_utf8, valid_utf8,
};

verus! {

/// Where the receipt of a file stands: which answer the machine waits for.
#[derive(Debug, Clone, PartialEq, Eq)]
pub enum FileState {
    /// The four bytes of the name's length were asked for.
    NameLength,
    /// The bytes of the name were asked for.
    Name,
    /// The eight bytes of the size were asked for; the name is known.
    Size { name: String },
    /// The creation of the file was asked for; the payload has `size` bytes.
    Creation { size: u64 },
    /// A chunk of payload was asked for; `remaining` bytes are still to come.
    Payload { remaining: u64 },
    /// A chunk was handed on to be written; `remaining` bytes are to be asked
    /// for after it.
    Storing { remaining: u64 },
}

/// The mathematical value of a [`FileState`].
pub enum FileStateView {
    NameLength,
    Name,
    Size { name: Seq<char> },
    Creation { size: u64 },
    Payload { remaining: u64 },
    Storing { remaining: u64 },
}

impl View for FileState {
    type V = FileStateView;

    open spec fn view(&self) -> FileStateView {
        match self {
            FileState::NameLength => FileStateView::NameLength,
            FileState::Name => FileStateView::Name,
            FileState::Size { name } => FileStateView::Size { name: name@ },
            FileState::Creation { size } => FileStateView::Creation { size: *size },
            FileState::Payload { remaining } => FileStateView::Payload { remaining: *remaining },
            FileState::Storing { remaining } => FileStateView::Storing { remaining: *remaining },
        }
    }
}

/// What the machine does after an answer: it asks for the next operation
/// from a new state, or it is done with the file.
#[derive(Debug, Clone, PartialEq, Eq)]
pub enum FileStep {
    Ask(FileState, Request),
    Done(ReceiveFileResult),
}

/// The mathematical value of a [`FileStep`].
pub enum FileStepView {
    Ask(FileStateView, RequestView),
    Done(FileOutcome),
}

impl View for FileStep {
    type V = FileStepView;

    open spec fn view(&self) -> FileStepView {
        match self {
            FileStep::Ask(state, request) => FileStepView::Ask(state@, request@),
            FileStep::Done(result) => FileStepView::Done(result@),
        }
    }
}

/// The number of payload bytes asked for at once when `remaining` are still
/// to come.
pub open spec fn chunk_length(remaining: u64) -> usize {
    if remaining >= CHUNK_BYTES as u64 {
        CHUNK_BYTES
    } else {
        remaining as usize
    }
}

/// The part of an answer to a request for `wanted` bytes that is kept:
/// never more than was asked for.
pub open spec fn kept(bytes: Seq<u8>, wanted: usize) -> Seq<u8> {
    if bytes.len() > wanted {
        bytes.take(wanted as int)
    } else {
        bytes
    }
}

/// The step after the bytes of a name have been decoded: with the name, the
/// size is asked for; with the text of a rejection, the file fails.
pub open spec fn name_next(decoded: Result<Seq<char>, Seq<char>>) -> FileStepView {
    match decoded {
        Ok(name) => FileStepView::Ask(
            FileStateView::Size { name },
            RequestView::ReadExact(SIZE_BYTES),
        ),
        Err(detail) => FileStepView::Done(FileOutcome::UnknownNetworkError(name_failure(detail))),
    }
}

/// The outcome of decoding `bytes` as UTF-8: the text, or the words with
/// which the decoder rejects them.
pub open spec fn decoded_name(bytes: Seq<u8>) -> Result<Seq<char>, Seq<char>> {
    if valid_utf8(bytes) {
        Ok(decode_utf8(bytes))
    } else {
        Err(utf8_rejection(bytes))
    }
}

/// The transition function of the machine. The fields of the header are
/// read in order, and the first that cannot be read fails the file. The
/// name is decoded strictly. A file that cannot be created ends the receipt
/// with its payload still on the stream. The payload is copied chunk by
/// chunk: a chunk that comes short is stored and ends the copy, a failed
/// read ends it at once, and either way the file counts as received; a
/// failed write fails the file.
pub open spec fn file_next(state: FileStateView, reply: ReplyView) -> FileStepView {
    match state {
        FileStateView::NameLength => match reply {
            ReplyView::Failed(detail) => FileStepView::Done(
                FileOutcome::UnknownNetworkError(read_failure(detail)),
            ),
            ReplyView::Completed(bytes) => if bytes.len() == WORD_BYTES {
                FileStepView::Ask(
                    FileStateView::Name,
                    RequestView::ReadExact(be_value(bytes) as usize),
                )
            } else {
                FileStepView::Done(FileOutcome::UnknownNetworkError(name_length_width_failure()))
            },
        },
        FileStateView::Name => match reply {
            ReplyView::Failed(detail) => FileStepView::Done(
                FileOutcome::UnknownNetworkError(read_failure(detail)),
            ),
            ReplyView::Completed(bytes) => name_next(decoded_name(bytes)),
        },
        FileStateView::Size { name } => match reply {
            ReplyView::Failed(detail) => FileStepView::Done(
                FileOutcome::UnknownNetworkError(read_failure(detail)),
            ),
            ReplyView::Completed(bytes) => if bytes.len() == SIZE_BYTES {
                FileStepView::Ask(
                    FileStateView::Creation { size: be_value(bytes) as u64 },
                    RequestView::Create(name),
                )
            } else {
                FileStepView::Done(FileOutcome::UnknownNetworkError(size_width_failure()))
            },
        },
        FileStateView::Creation { size } => match reply {
            ReplyView::Failed(_) => FileStepView::Done(FileOutcome::CanNotCreateFile),
            ReplyView::Completed(_) => if size == 0 {
                FileStepView::Done(FileOutcome::Received)
            } else {
                FileStepView::Ask(
                    FileStateView::Payload { remaining: size },
                    RequestView::ReadUpTo(chunk_length(size)),
                )
            },
        },
        FileStateView::Payload { remaining } => match reply {
            ReplyView::Failed(_) => FileStepView::Done(FileOutcome::Received),
            ReplyView::Completed(bytes) => {
                let wanted = chunk_length(remaining);
                let chunk = kept(bytes, wanted);
                if chunk.len() == 0 {
                    FileStepView::Done(FileOutcome::Received)
                } else if chunk.len() < wanted {
                    FileStepView::Ask(
                        FileStateView::Storing { remaining: 0 },
                        RequestView::Write(chunk),
                    )
                } else {
                    FileStepView::Ask(
                        FileStateView::Storing { remaining: (remaining - wanted) as u64 },
                        RequestView::Write(chunk),
                    )
                }
            },
        },
        FileStateView::Storing { remaining } => match reply {
            ReplyView::Failed(detail) => FileStepView::Done(
                FileOutcome::UnknownNetworkError(store_failure(detail)),
            ),
            ReplyView::Completed(_) => if remaining == 0 {
                FileStepView::Done(FileOutcome::Received)
            } else {
                FileStepView::Ask(
                    FileStateView::Payload { remaining },
                    RequestView::ReadUpTo(chunk_length(remaining)),
                )
            },
        },
    }
}

impl FileStateView {
    /// A bound on the number of answers the machine can still take before it
    /// is done.
    pub open spec fn steps_left(self) -> nat {
        match self {
            FileStateView::NameLength => 0x2_0000_0000_0000_0006,
            FileStateView::Name => 0x2_0000_0000_0000_0005,
            FileStateView::Size { .. } => 0x2_0000_0000_0000_0004,
            FileStateView::Creation { size } => 2 * size as nat + 3,
            FileStateView::Payload { remaining } => 2 * remaining as nat + 1,
            FileStateView::Storing { remaining } => 2 * remaining as nat + 2,
        }
    }
}

/// Every step brings the machine closer to its end: no sequence of answers
/// keeps it running forever.
pub proof fn lemma_file_progress(state: FileStateView, reply: ReplyView)
    ensures
        file_next(state, reply) matches FileStepView::Ask(next, _) ==> next.steps_left()
            < state.steps_left(),
{
}

/// The words with which `String::from_utf8` rejects bytes that are not
/// UTF-8.
pub uninterp spec fn utf8_rejection(bytes: Seq<u8>) -> Seq<char>;

/// Decodes bytes as UTF-8 with `String::from_utf8` of the standard library.
/// Believed of it: it accepts exactly the well-formed byte sequences and
/// returns the text they encode; where it rejects, the error's display text
/// depends on the bytes alone.
#[verifier::external_body]
fn text_from_utf8(bytes: Vec<u8>) -> (text: Result<String, String>)
    ensures
        text is Ok <==> valid_utf8(bytes@),
        text matches Ok(s) ==> s@ == decode_utf8(bytes@),
        text matches Err(e) ==> e@ == utf8_rejection(bytes@),
{
    match String::from_utf8(bytes) {
        Ok(text) => Ok(text),
        Err(error) => Err(error.to_string()),
    }
}

/// The state and the request with which the receipt of a file begins.
pub fn begin_file() -> (start: (FileState, Request))
    ensures
        start.0@ == FileStateView::NameLength,
        start.1@ == RequestView::ReadExact(WORD_BYTES),
{
    (FileState::NameLength, Request::ReadExact(WORD_BYTES))
}

/// The number of payload bytes to ask for when `remaining` are still to come.
pub fn chunk_len(remaining: u64) -> (wanted: usize)
    ensures
        wanted == chunk_length(remaining),
{
    if remaining >= CHUNK_BYTES as u64 {
        CHUNK_BYTES
    } else {
        remaining as usize
    }
}

/// The step that follows the decoding of a name.
pub fn name_step(decoded: Result<String, String>) -> (step: FileStep)
    ensures
        step@ == name_next(
            match decoded {
                Ok(name) => Ok(name@),
                Err(detail) => Err(detail@),
            },
        ),
{
    match decoded {
        Ok(name) => FileStep::Ask(FileState::Size { name }, Request::ReadExact(SIZE_BYTES)),
        Err(detail) => FileStep::Done(
            ReceiveFileResult::UnknownNetworkError(
                explain("Failed to convert file name bytes to string: ", detail.as_str()),
            ),
        ),
    }
}

/// Takes the driver's answer to the last request and decides what happens
/// next.
pub fn file_step(state: FileState, reply: Reply) -> (step: FileStep)
    ensures
        step@ == file_next(state@, reply@),
{
    match state {
        FileState::NameLength => match reply {
            Reply::Failed(detail) => FileStep::Done(
                ReceiveFileResult::UnknownNetworkError(
                    explain("Failed to read from socket: ", detail.as_str()),
                ),
            ),
            Reply::Completed(bytes) => match decode_u32(bytes.as_slice()) {
                Some(length) => FileStep::Ask(FileState::Name, Request::ReadExact(length as usize)),
                None => FileStep::Done(
                    ReceiveFileResult::UnknownNetworkError(
                        String::from_str("Failed to convert file name length bytes to slice"),
                    ),
                ),
            },
        },
        FileState::Name => match reply {
            Reply::Failed(detail) => FileStep::Done(
                ReceiveFileResult::UnknownNetworkError(
                    explain("Failed to read from socket: ", detail.as_str()),
                ),
            ),
            Reply::Completed(bytes) => name_step(text_from_utf8(bytes)),
        },
        FileState::Size { name } => match reply {
            Reply::Failed(detail) => FileStep::Done(
                ReceiveFileResult::UnknownNetworkError(
                    explain("Failed to read from socket: ", detail.as_str()),
                ),
            ),
            Reply::Completed(bytes) => match decode_u64(bytes.as_slice()) {
                Some(size) => FileStep::Ask(FileState::Creation { size }, Request::Create(name)),
                None => FileStep::Done(
                    ReceiveFileResult::UnknownNetworkError(
                        String::from_str("Failed to convert file size bytes to slice"),
                    ),
                ),
            },
        },
        FileState::Creation { size } => match reply {
            Reply::Failed(_) => FileStep::Done(ReceiveFileResult::CanNotCreateFile),
            Reply::Completed(_) => if size == 0 {
                FileStep::Done(ReceiveFileResult::Received)
            } else {
                FileStep::Ask(
                    FileState::Payload { remaining: size },
                    Request::ReadUpTo(chunk_len(size)),
                )
            },
        },
        FileState::Payload { remaining } => match reply {
            Reply::Failed(_) => FileStep::Done(ReceiveFileResult::Received),
            Reply::Completed(bytes) => {
                let wanted = chunk_len(remaining);
                let mut chunk = bytes;
                if chunk.len() > wanted {
                    chunk.truncate(wanted);
                }
                assert(chunk@ =~= kept(bytes@, wanted));
                if chunk.len() == 0 {
                    FileStep::Done(ReceiveFileResult::Received)
                } else if chunk.len() < wanted {
                    FileStep::Ask(FileState::Storing { remaining: 0 }, Request::Write(chunk))
                } else {
                    FileStep::Ask(
                        FileState::Storing { remaining: remaining - wanted as u64 },
                        Request::Write(chunk),
                    )
                }
            },
        },
        FileState::Storing { remaining } => match reply {
            Reply::Failed(detail) => FileStep::Done(
                ReceiveFileResult::UnknownNetworkError(
                    explain("Failed to write to file: ", detail.as_str()),
                ),
            ),
            Reply::Completed(_) => if remaining == 0 {
                FileStep::Done(ReceiveFileResult::Received)
            } else {
                FileStep::Ask(
                    FileState::Payload { remaining },
                    Request::ReadUpTo(chunk_len(remaining)),
                )
            },
        },
    }
}

/// What a run of the machine makes of `link`, from `state` with `request`
/// still to be performed: the outcome, and the link as the run leaves it.
pub open spec fn file_run(state: FileStateView, request: RequestView, link: LoopbackView) -> (
    FileOutcome,
    LoopbackView,
)
    decreases state.steps_left(),
{
    let (after, reply) = link.respond(request);
    match file_next(state, reply) {
        FileStepView::Done(outcome) => (outcome, after),
        FileStepView::Ask(next, following) => file_run(next, following, after),
    }
}

/// The outcome of a file whose frame ends before a field is complete.
pub open spec fn cut_short() -> FileOutcome {
    FileOutcome::UnknownNetworkError(read_failure(end_of_stream()))
}

/// What becomes of a file once its header has been read, with the payload
/// next on the stream: the file is created and receives the payload, as far
/// as it arrived. Where the file cannot be created, the payload is left on
/// the stream; where it cannot be written to, the first chunk of the
/// payload is read and lost.
pub open spec fn payload_reception(link: LoopbackView, name: Seq<char>, size: int) -> (
    FileOutcome,
    LoopbackView,
) {
    let arrived = min(size, link.unread.len() as int);
    if link.faults.create {
        (FileOutcome::CanNotCreateFile, link)
    } else if link.faults.write && arrived > 0 {
        (
            FileOutcome::UnknownNetworkError(store_failure(destination_full())),
            link.created(name).advance(min(arrived, CHUNK_BYTES as int)),
        )
    } else {
        (
            FileOutcome::Received,
            link.created(name).stored(link.unread.take(arrived)).advance(arrived),
        )
    }
}

/// What the receipt of one file makes of `link`, read off the bytes on it: a
/// frame that ends inside its header fails and leaves the stream read to
/// its end; a name that is not UTF-8 fails after the name; a complete
/// header is followed by the payload, see [`payload_reception`].
pub open spec fn file_reception(link: LoopbackView) -> (FileOutcome, LoopbackView) {
    let stream = link.unread;
    if stream.len() < 4 {
        (cut_short(), link.drained())
    } else {
        let name_length = be_value(stream.take(4)) as int;
        let named = stream.skip(4);
        if named.len() < name_length {
            (cut_short(), link.drained())
        } else {
            let name = named.take(name_length);
            let sized = named.skip(name_length);
            if !valid_utf8(name) {
                (
                    FileOutcome::UnknownNetworkError(name_failure(utf8_rejection(name))),
                    link.advance(4 + name_length),
                )
            } else if sized.len() < 8 {
                (cut_short(), link.drained())
            } else {
                payload_reception(
                    link.advance(12 + name_length),
                    decode_utf8(name),
                    be_value(sized.take(8)) as int,
                )
            }
        }
    }
}

proof fn lemma_nothing_stored(link: LoopbackView)
    requires
        link.files.len() > 0,
    ensures
        link.stored(link.unread.take(0)).advance(0) == link,
{
    let file = link.files.last();
    assert(file.contents + link.unread.take(0) =~= file.contents);
    assert(link.stored(link.unread.take(0)).files =~= link.files);
    assert(link.unread.skip(0) =~= link.unread);
}

proof fn lemma_payload_run(remaining: u64, link: LoopbackView)
    requires
        link.files.len() > 0,
        !link.faults.write,
    ensures
        file_run(
            FileStateView::Payload { remaining },
            RequestView::ReadUpTo(chunk_length(remaining)),
            link,
        ) == {
            let arrived = min(remaining as int, link.unread.len() as int);
            (FileOutcome::Received, link.stored(link.unread.take(arrived)).advance(arrived))
        },
    decreases remaining,
{
    let wanted = chunk_length(remaining);
    let arrived = min(remaining as int, link.unread.len() as int);
    let expected = link.stored(link.unread.take(arrived)).advance(arrived);
    let taken = min(wanted as int, link.unread.len() as int);
    let chunk = link.unread.take(taken);
    let after = link.advance(taken);
    let start = FileStateView::Payload { remaining };
    let run = file_run(start, RequestView::ReadUpTo(wanted), link);
    assert(link.respond(RequestView::ReadUpTo(wanted)) == (after, ReplyView::Completed(chunk)));
    assert(kept(chunk, wanted) == chunk);
    if chunk.len() == 0 {
        assert(run == (FileOutcome::Received, after));
        lemma_nothing_stored(link);
    } else {
        let stored = after.stored(chunk);
        let left: u64 = if chunk.len() < wanted {
            0
        } else {
            (remaining - wanted) as u64
        };
        let storing = FileStateView::Storing { remaining: left };
        assert(file_next(start, ReplyView::Completed(chunk)) == FileStepView::Ask(
            storing,
            RequestView::Write(chunk),
        ));
        assert(run == file_run(storing, RequestView::Write(chunk), after));
        assert(after.respond(RequestView::Write(chunk)) == (
            stored,
            ReplyView::Completed(Seq::<u8>::empty()),
        ));
        if left == 0 {
            assert(run == (FileOutcome::Received, stored));
            assert(arrived == taken);
            assert(stored == expected);
        } else {
            let resumed = FileStateView::Payload { remaining: left };
            assert(run == file_run(resumed, RequestView::ReadUpTo(chunk_length(left)), stored));
            lemma_payload_run(left, stored);
            let further = min(left as int, stored.unread.len() as int);
            assert(arrived == wanted + further);
            assert(stored.unread.skip(further) =~= link.unread.skip(arrived));
            assert(link.files.last().contents + chunk + stored.unread.take(further)
                =~= link.files.last().contents + link.unread.take(arrived));
            assert(stored.stored(stored.unread.take(further)).files =~= expected.files);
            assert(stored.stored(stored.unread.take(further)).advance(further) == expected);
        }
    }
}

proof fn lemma_creation_run(size: u64, name: Seq<char>, link: LoopbackView)
    ensures
        file_run(FileStateView::Creation { size }, RequestView::Create(name), link)
            == payload_reception(link, name, size as int),
{
    let run = file_run(FileStateView::Creation { size }, RequestView::Create(name), link);
    if !link.faults.create {
        let ready = link.created(name);
        let wanted = chunk_length(size);
        let start = FileStateView::Payload { remaining: size };
        let taken = min(wanted as int, ready.unread.len() as int);
        let chunk = ready.unread.take(taken);
        if size == 0 {
            lemma_nothing_stored(ready);
        } else if !link.faults.write {
            assert(run == file_run(start, RequestView::ReadUpTo(wanted), ready));
            lemma_payload_run(size, ready);
        } else {
            assert(run == file_run(start, RequestView::ReadUpTo(wanted), ready));
            assert(ready.respond(RequestView::ReadUpTo(wanted)) == (
                ready.advance(taken),
                ReplyView::Completed(chunk),
            ));
            assert(kept(chunk, wanted) == chunk);
            if taken == 0 {
                lemma_nothing_stored(ready);
            } else {
                assert(file_next(start, ReplyView::Completed(chunk)) matches FileStepView::Ask(
                    storing,
                    request,
                ) && request == RequestView::Write(chunk) && run == file_run(
                    storing,
                    request,
                    ready.advance(taken),
                ));
            }
        }
    }
}

/// A run of the machine over a link held in memory does to it what
/// [`file_reception`] reads off the bytes.
pub proof fn lemma_file_run(link: LoopbackView)
    ensures
        file_run(FileStateView::NameLength, RequestView::ReadExact(WORD_BYTES), link)
            == file_reception(link),
{
    let stream = link.unread;
    let run = file_run(FileStateView::NameLength, RequestView::ReadExact(WORD_BYTES), link);
    if stream.len() >= 4 {
        let word = stream.take(4);
        lemma_be_value_bound(word);
        lemma_be_limits();
        let name_length = be_value(word) as usize;
        let named = link.advance(4);
        assert(run == file_run(FileStateView::Name, RequestView::ReadExact(name_length), named));
        if named.unread.len() >= name_length {
            let name = named.unread.take(name_length as int);
            let sized = named.advance(name_length as int);
            assert(sized.unread =~= stream.skip(4 + name_length));
            if valid_utf8(name) {
                let text = decode_utf8(name);
                let naming = FileStateView::Size { name: text };
                assert(run == file_run(naming, RequestView::ReadExact(SIZE_BYTES), sized));
                if sized.unread.len() >= 8 {
                    let field = sized.unread.take(8);
                    lemma_be_value_bound(field);
                    let size = be_value(field) as u64;
                    let creating = FileStateView::Creation { size };
                    assert(run == file_run(creating, RequestView::Create(text), sized.advance(8)));
                    assert(sized.advance(8).unread =~= stream.skip(12 + name_length));
                    lemma_creation_run(size, text, sized.advance(8));
                }
            }
        }
    }
}

/// Receives one file over a link held in memory, by running the machine
/// against it until the machine is done.
pub fn receive_file(link: &mut Loopback) -> (result: ReceiveFileResult)
    ensures
        (result@, final(link)@) == file_reception(old(link)@),
{
    let (start, first) = begin_file();
    let mut state = start;
    let mut request = first;
    proof {
        lemma_file_run(link@);
    }
    loop
        invariant
            file_run(state@, request@, link@) == file_reception(old(link)@),
        decreases state@.steps_left(),
    {
        let reply = link.perform(request);
        match file_step(state, reply) {
            FileStep::Done(result) => {
                return result;
            },
            FileStep::Ask(next, following) => {
                state = next;
                request = following;
            },
        }
    }
}

/// The receipt of a file whose header is complete, by the header's parts,
/// where the destination takes every file: a name that is UTF-8 has the
/// file created and filled with as much of the announced payload as the
/// stream still holds; any other name fails the file once it has been read,
/// and nothing is created.
pub proof fn lemma_framed_reception(name: Seq<u8>, size: nat, body: Seq<u8>, link: LoopbackView)
    requires
        name.len() <= u32::MAX,
        size <= u64::MAX,
        link.unread == frame_header(name, size) + body,
        !link.faults.create,
        !link.faults.write,
    ensures
        valid_utf8(name) ==> file_reception(link) == {
            let arrived = min(size as int, body.len() as int);
            (
                FileOutcome::Received,
                LoopbackView {
                    unread: body.skip(arrived),
                    files: link.files.push(
                        StoredFileView { name: decode_utf8(name), contents: body.take(arrived) },
                    ),
                    ..link
                },
            )
        },
        !valid_utf8(name) ==> file_reception(link) == (
            FileOutcome::UnknownNetworkError(name_failure(utf8_rejection(name))),
            LoopbackView { unread: be_bytes(size, 8) + body, ..link },
        ),
{
    let stream = link.unread;
    let length = name.len() as int;
    lemma_be_limits();
    lemma_be_bytes_len(name.len(), 4);
    lemma_be_bytes_len(size, 8);
    lemma_be_round_trip(name.len(), 4);
    lemma_be_round_trip(size, 8);
    assert(stream.take(4) =~= be_bytes(name.len(), 4));
    let named = stream.skip(4);
    assert(named.take(length) =~= name);
    let sized = named.skip(length);
    assert(sized =~= be_bytes(size, 8) + body);
    assert(stream.skip(4 + length) =~= sized);
    if valid_utf8(name) {
        assert(sized.take(8) =~= be_bytes(size, 8));
        let positioned = link.advance(12 + length);
        assert(positioned.unread =~= body);
        let arrived = min(size as int, body.len() as int);
        let text = decode_utf8(name);
        let received = positioned.created(text).stored(body.take(arrived)).advance(arrived);
        assert(Seq::<u8>::empty() + body.take(arrived) =~= body.take(arrived));
        assert(received.files =~= link.files.push(
            StoredFileView { name: text, contents: body.take(arrived) },
        ));
    }
}

/// Round trip: the frame of a file, fed to the receiver, yields that file,
/// under its name and with its payload byte for byte, and leaves on the
/// stream exactly what followed the frame.
pub proof fn lemma_round_trip(
    name: Seq<char>,
    payload: Seq<u8>,
    rest: Seq<u8>,
    link: LoopbackView,
)
    requires
        frameable(name, payload),
        link.unread == file_frame(name, payload) + rest,
        !link.faults.create,
        !link.faults.write,
    ensures
        file_reception(link) == (
            FileOutcome::Received,
            LoopbackView {
                unread: rest,
                files: link.files.push(StoredFileView { name, contents: payload }),
                ..link
            },
        ),
{
    let body = payload + rest;
    encode_utf8_valid_utf8(name);
    encode_utf8_decode_utf8(name);
    assert(link.unread =~= frame_header(encode_utf8(name), payload.len()) + body);
    lemma_framed_reception(encode_utf8(name), payload.len(), body, link);
    assert(body.take(payload.len() as int) =~= payload);
    assert(body.skip(payload.len() as int) =~= rest);
}

/// A payload cut off by the end of the stream leaves a file that holds the
/// bytes that arrived, and the receipt of the file still succeeds.
pub proof fn lemma_truncated_payload(
    name: Seq<char>,
    payload: Seq<u8>,
    arrived: int,
    link: LoopbackView,
)
    requires
        frameable(name, payload),
        0 <= arrived < payload.len(),
        link.unread == frame_header(encode_utf8(name), payload.len()) + payload.take(arrived),
        !link.faults.create,
        !link.faults.write,
    ensures
        file_reception(link) == (
            FileOutcome::Received,
            LoopbackView {
                unread: Seq::empty(),
                files: link.files.push(
                    StoredFileView { name, contents: payload.take(arrived) },
                ),
                ..link
            },
        ),
{
    let body = payload.take(arrived);
    encode_utf8_valid_utf8(name);
    encode_utf8_decode_utf8(name);
    lemma_framed_reception(encode_utf8(name), payload.len(), body, link);
    assert(body.take(arrived) =~= body);
    assert(body.skip(arrived) =~= Seq::<u8>::empty());
}

/// A name that is not UTF-8 fails the file with a network error, and no
/// file is created.
pub proof fn lemma_name_not_utf8(name: Seq<u8>, size: nat, body: Seq<u8>, link: LoopbackView)
    requires
        !valid_utf8(name),
        name.len() <= u32::MAX,
        size <= u64::MAX,
        link.unread == frame_header(name, size) + body,
    ensures
        file_reception(link).0 == FileOutcome::UnknownNetworkError(
            name_failure(utf8_rejection(name)),
        ),
        file_reception(link).1.files == link.files,
{
    lemma_be_limits();
    lemma_be_bytes_len(name.len(), 4);
    lemma_be_round_trip(name.len(), 4);
    assert(link.unread.take(4) =~= be_bytes(name.len(), 4));
    assert(link.unread.skip(4).take(name.len() as int) =~= name);
}

} // verus!
