//! The receipt of a directory: a continuation marker before each file, and
//! files for as long as the marker says that one follows.

use crate::exchange::{
    explain, marker_failure, marker_width_failure, Reply, ReplyView, Request, RequestView,
};
use crate::loopback::{end_of_stream, Loopback, LoopbackView, StoredFileView};
use crate::outcome::{FileOutcome, ReceiveFileResult};
use crate::receiver::{
    begin_file, file_next, file_reception, file_run, file_step, lemma_file_progress,
    lemma_file_run, lemma_round_trip, lemma_truncated_payload, FileState, FileStateView,
    FileStep, FileStepView,
};
use crate::wire::{
    file_frame, frame_header, frameable, MARKER_END_OF_STREAM, MARKER_FILE_FOLLOWS, WORD_BYTES,
};
use vstd::prelude::*;
use vstd::string::StringExecFns;
use vstd::utf8::encode_utf8;

verus! {

/// What was found where a continuation marker was expected.
#[derive(Debug, Clone, PartialEq, Eq)]
pub enum Marker {
    /// The byte that announces another file.
    Continue,
    /// The byte that ends the stream.
    Stop,
    /// A byte that is neither; the stream ends as after `Stop`.
    Malformed(u8),
    /// No byte could be read, for the reason given; the stream has ended.
    Unreadable(String),
}

/// The mathematical value of a [`Marker`].
pub enum MarkerView {
    Continue,
    Stop,
    Malformed(u8),
    Unreadable(Seq<char>),
}

impl View for Marker {
    type V = MarkerView;

    open spec fn view(&self) -> MarkerView {
        match self {
            Marker::Continue => MarkerView::Continue,
            Marker::Stop => MarkerView::Stop,
            Marker::Malformed(byte) => MarkerView::Malformed(*byte),
            Marker::Unreadable(reason) => MarkerView::Unreadable(reason@),
        }
    }
}

impl Marker {
    /// Whether a file follows. Only `Continue` says so.
    pub fn continues(&self) -> (follows: bool)
        ensures
            follows <==> self@ == MarkerView::Continue,
    {
        match self {
            Marker::Continue => true,
            _ => false,
        }
    }
}

/// The marker that a byte stands for.
pub open spec fn byte_marker(byte: u8) -> MarkerView {
    if byte == MARKER_FILE_FOLLOWS {
        MarkerView::Continue
    } else if byte == MARKER_END_OF_STREAM {
        MarkerView::Stop
    } else {
        MarkerView::Malformed(byte)
    }
}

/// The marker that the answer to a read of one byte stands for.
pub open spec fn marker_of(reply: ReplyView) -> MarkerView {
    match reply {
        ReplyView::Failed(detail) => MarkerView::Unreadable(marker_failure(detail)),
        ReplyView::Completed(bytes) => if bytes.len() == 1 {
            byte_marker(bytes[0])
        } else {
            MarkerView::Unreadable(marker_width_failure())
        },
    }
}

/// Reads the continuation marker off the answer to a read of one byte.
pub fn receive_continuation_marker(reply: Reply) -> (marker: Marker)
    ensures
        marker@ == marker_of(reply@),
{
    match reply {
        Reply::Failed(detail) => Marker::Unreadable(
            explain("Failed to read continuation marker: ", detail.as_str()),
        ),
        Reply::Completed(bytes) => {
            if bytes.len() != 1 {
                Marker::Unreadable(
                    String::from_str("Failed to convert continuation marker bytes to slice"),
                )
            } else if bytes[0] == MARKER_FILE_FOLLOWS {
                Marker::Continue
            } else if bytes[0] == MARKER_END_OF_STREAM {
                Marker::Stop
            } else {
                Marker::Malformed(bytes[0])
            }
        },
    }
}

/// What the receipt of a directory waits for: a marker, or an answer that
/// belongs to the file being received.
#[derive(Debug, Clone, PartialEq, Eq)]
pub enum DirectoryPhase {
    Marker,
    File(FileState),
}

/// The mathematical value of a [`DirectoryPhase`].
pub enum DirectoryPhaseView {
    Marker,
    File(FileStateView),
}

impl View for DirectoryPhase {
    type V = DirectoryPhaseView;

    open spec fn view(&self) -> DirectoryPhaseView {
        match self {
            DirectoryPhase::Marker => DirectoryPhaseView::Marker,
            DirectoryPhase::File(file) => DirectoryPhaseView::File(file@),
        }
    }
}

/// The outcomes of a sequence of files, as mathematical values.
pub open spec fn outcomes_view(outcomes: Seq<ReceiveFileResult>) -> Seq<FileOutcome> {
    outcomes.map_values(|result: ReceiveFileResult| result@)
}

/// Where the receipt of a directory stands.
#[derive(Debug, Clone, PartialEq, Eq)]
pub struct DirectoryState {
    pub phase: DirectoryPhase,
    /// The outcomes of the files received so far, oldest first.
    pub outcomes: Vec<ReceiveFileResult>,
}

/// The mathematical value of a [`DirectoryState`].
pub struct DirectoryStateView {
    pub phase: DirectoryPhaseView,
    pub outcomes: Seq<FileOutcome>,
}

impl View for DirectoryState {
    type V = DirectoryStateView;

    open spec fn view(&self) -> DirectoryStateView {
        DirectoryStateView { phase: self.phase@, outcomes: outcomes_view(self.outcomes@) }
    }
}

/// What the receipt of a directory came to.
#[derive(Debug, Clone, PartialEq, Eq)]
pub struct DirectoryReport {
    /// The outcome of each file, oldest first.
    pub outcomes: Vec<ReceiveFileResult>,
    /// What ended the stream; never `Continue`.
    pub end: Marker,
}

/// The mathematical value of a [`DirectoryReport`].
pub struct DirectoryReportView {
    pub outcomes: Seq<FileOutcome>,
    pub end: MarkerView,
}

impl View for DirectoryReport {
    type V = DirectoryReportView;

    open spec fn view(&self) -> DirectoryReportView {
        DirectoryReportView { outcomes: outcomes_view(self.outcomes@), end: self.end@ }
    }
}

/// What the machine does after an answer.
#[derive(Debug, Clone, PartialEq, Eq)]
pub enum DirectoryStep {
    Ask(DirectoryState, Request),
    Done(DirectoryReport),
}

/// The mathematical value of a [`DirectoryStep`].
pub enum DirectoryStepView {
    Ask(DirectoryStateView, RequestView),
    Done(DirectoryReportView),
}

impl View for DirectoryStep {
    type V = DirectoryStepView;

    open spec fn view(&self) -> DirectoryStepView {
        match self {
            DirectoryStep::Ask(state, request) => DirectoryStepView::Ask(state@, request@),
            DirectoryStep::Done(report) => DirectoryStepView::Done(report@),
        }
    }
}

/// The transition function of the machine. After a marker it begins a file
/// or ends; inside a file it follows the file's machine, and when that is
/// done, whatever the outcome, it asks for the next marker.
pub open spec fn directory_next(state: DirectoryStateView, reply: ReplyView) -> DirectoryStepView {
    match state.phase {
        DirectoryPhaseView::Marker => {
            let marker = marker_of(reply);
            if marker == MarkerView::Continue {
                DirectoryStepView::Ask(
                    DirectoryStateView {
                        phase: DirectoryPhaseView::File(FileStateView::NameLength),
                        outcomes: state.outcomes,
                    },
                    RequestView::ReadExact(WORD_BYTES),
                )
            } else {
                DirectoryStepView::Done(
                    DirectoryReportView { outcomes: state.outcomes, end: marker },
                )
            }
        },
        DirectoryPhaseView::File(file) => match file_next(file, reply) {
            FileStepView::Ask(next, request) => DirectoryStepView::Ask(
                DirectoryStateView {
                    phase: DirectoryPhaseView::File(next),
                    outcomes: state.outcomes,
                },
                request,
            ),
            FileStepView::Done(outcome) => DirectoryStepView::Ask(
                DirectoryStateView {
                    phase: DirectoryPhaseView::Marker,
                    outcomes: state.outcomes.push(outcome),
                },
                RequestView::ReadExact(1),
            ),
        },
    }
}

/// The state and the request with which the receipt of a directory begins.
pub fn begin_directory() -> (start: (DirectoryState, Request))
    ensures
        start.0@ == (DirectoryStateView {
            phase: DirectoryPhaseView::Marker,
            outcomes: Seq::empty(),
        }),
        start.1@ == RequestView::ReadExact(1),
{
    let state = DirectoryState { phase: DirectoryPhase::Marker, outcomes: Vec::new() };
    assert(state@.outcomes =~= Seq::empty());
    (state, Request::ReadExact(1))
}

/// Takes the driver's answer to the last request and decides what happens
/// next.
pub fn directory_step(state: DirectoryState, reply: Reply) -> (step: DirectoryStep)
    ensures
        step@ == directory_next(state@, reply@),
{
    let DirectoryState { phase, outcomes } = state;
    match phase {
        DirectoryPhase::Marker => {
            let marker = receive_continuation_marker(reply);
            if marker.continues() {
                let (file, request) = begin_file();
                DirectoryStep::Ask(
                    DirectoryState { phase: DirectoryPhase::File(file), outcomes },
                    request,
                )
            } else {
                DirectoryStep::Done(DirectoryReport { outcomes, end: marker })
            }
        },
        DirectoryPhase::File(file) => match file_step(file, reply) {
            FileStep::Ask(next, request) => DirectoryStep::Ask(
                DirectoryState { phase: DirectoryPhase::File(next), outcomes },
                request,
            ),
            FileStep::Done(result) => {
                let mut outcomes = outcomes;
                outcomes.push(result);
                assert(outcomes_view(outcomes@) =~= state@.outcomes.push(result@));
                DirectoryStep::Ask(
                    DirectoryState { phase: DirectoryPhase::Marker, outcomes },
                    Request::ReadExact(1),
                )
            },
        },
    }
}

impl DirectoryPhaseView {
    /// A bound on the number of answers that the machine can take before it
    /// asks for the next marker.
    pub open spec fn steps_left(self) -> nat {
        match self {
            DirectoryPhaseView::Marker => 0,
            DirectoryPhaseView::File(file) => file.steps_left() + 1,
        }
    }
}

/// No request makes the unread part of a stream longer, and a read that is
/// answered with bytes shortens it by as many.
pub proof fn lemma_respond_consumes(link: LoopbackView, request: RequestView)
    ensures
        link.respond(request).0.unread.len() <= link.unread.len(),
        link.respond(request).1 matches ReplyView::Completed(bytes) ==> link.respond(
            request,
        ).0.unread.len() + bytes.len() == link.unread.len(),
{
}

/// Over a link held in memory the machine comes to an end: every step
/// shortens the unread stream or, within a file, brings the file closer to
/// its end.
pub proof fn lemma_directory_progress(
    state: DirectoryStateView,
    request: RequestView,
    link: LoopbackView,
)
    ensures
        ({
            let (after, reply) = link.respond(request);
            directory_next(state, reply) matches DirectoryStepView::Ask(next, _) ==> {
                ||| after.unread.len() < link.unread.len()
                ||| after.unread.len() == link.unread.len() && next.phase.steps_left()
                    < state.phase.steps_left()
            }
        }),
{
    let (after, reply) = link.respond(request);
    lemma_respond_consumes(link, request);
    match state.phase {
        DirectoryPhaseView::Marker => {},
        DirectoryPhaseView::File(file) => {
            lemma_file_progress(file, reply);
        },
    }
}

/// What a run of the machine makes of `link`, from `state` with `request`
/// still to be performed: the report, and the link as the run leaves it.
pub open spec fn directory_run(
    state: DirectoryStateView,
    request: RequestView,
    link: LoopbackView,
) -> (DirectoryReportView, LoopbackView)
    decreases link.unread.len(), state.phase.steps_left(),
{
    let (after, reply) = link.respond(request);
    match directory_next(state, reply) {
        DirectoryStepView::Done(report) => (report, after),
        DirectoryStepView::Ask(next, following) => {
            proof {
                lemma_directory_progress(state, request, link);
            }
            directory_run(next, following, after)
        },
    }
}

/// The receipt of a file never makes the unread part of a stream longer.
pub proof fn lemma_reception_consumes(link: LoopbackView)
    ensures
        file_reception(link).1.unread.len() <= link.unread.len(),
{
}

/// What the receipt of a directory makes of `link`, read off the bytes on
/// it: for as long as the next byte is the marker that announces a file, a
/// file is received; the first byte that is not, or the end of the stream,
/// ends the receipt.
pub open spec fn directory_reception(link: LoopbackView) -> (DirectoryReportView, LoopbackView)
    decreases link.unread.len(),
{
    if link.unread.len() == 0 {
        (
            DirectoryReportView {
                outcomes: Seq::empty(),
                end: MarkerView::Unreadable(marker_failure(end_of_stream())),
            },
            link.drained(),
        )
    } else {
        let marker = byte_marker(link.unread[0]);
        let after = link.advance(1);
        if marker != MarkerView::Continue {
            (DirectoryReportView { outcomes: Seq::empty(), end: marker }, after)
        } else {
            proof {
                lemma_reception_consumes(after);
            }
            let (outcome, next) = file_reception(after);
            let (report, last) = directory_reception(next);
            (
                DirectoryReportView { outcomes: seq![outcome] + report.outcomes, end: report.end },
                last,
            )
        }
    }
}

/// A report with the outcomes of earlier files put before its own.
pub open spec fn preceded(earlier: Seq<FileOutcome>, report: DirectoryReportView)
    -> DirectoryReportView {
    DirectoryReportView { outcomes: earlier + report.outcomes, end: report.end }
}

proof fn lemma_file_phase(
    file: FileStateView,
    earlier: Seq<FileOutcome>,
    request: RequestView,
    link: LoopbackView,
)
    ensures
        directory_run(
            DirectoryStateView { phase: DirectoryPhaseView::File(file), outcomes: earlier },
            request,
            link,
        ) == {
            let (outcome, after) = file_run(file, request, link);
            directory_run(
                DirectoryStateView {
                    phase: DirectoryPhaseView::Marker,
                    outcomes: earlier.push(outcome),
                },
                RequestView::ReadExact(1),
                after,
            )
        },
    decreases file.steps_left(),
{
    let (after, reply) = link.respond(request);
    match file_next(file, reply) {
        FileStepView::Done(_) => {},
        FileStepView::Ask(next, following) => {
            lemma_file_progress(file, reply);
            lemma_file_phase(next, earlier, following, after);
        },
    }
}

/// A run of the machine over a link held in memory does to it what
/// [`directory_reception`] reads off the bytes.
pub proof fn lemma_directory_run(earlier: Seq<FileOutcome>, link: LoopbackView)
    ensures
        directory_run(
            DirectoryStateView { phase: DirectoryPhaseView::Marker, outcomes: earlier },
            RequestView::ReadExact(1),
            link,
        ) == (
            preceded(earlier, directory_reception(link).0),
            directory_reception(link).1,
        ),
    decreases link.unread.len(),
{
    let start = DirectoryStateView { phase: DirectoryPhaseView::Marker, outcomes: earlier };
    let run = directory_run(start, RequestView::ReadExact(1), link);
    if link.unread.len() == 0 {
        assert(earlier + Seq::<FileOutcome>::empty() =~= earlier);
    } else {
        let marker = byte_marker(link.unread[0]);
        let after = link.advance(1);
        assert(link.respond(RequestView::ReadExact(1)) == (
            after,
            ReplyView::Completed(link.unread.take(1)),
        ));
        assert(marker_of(ReplyView::Completed(link.unread.take(1))) == marker);
        if marker != MarkerView::Continue {
            assert(earlier + Seq::<FileOutcome>::empty() =~= earlier);
        } else {
            let begun = DirectoryStateView {
                phase: DirectoryPhaseView::File(FileStateView::NameLength),
                outcomes: earlier,
            };
            assert(run == directory_run(begun, RequestView::ReadExact(WORD_BYTES), after));
            lemma_file_phase(
                FileStateView::NameLength,
                earlier,
                RequestView::ReadExact(WORD_BYTES),
                after,
            );
            lemma_file_run(after);
            let (outcome, next) = file_reception(after);
            lemma_reception_consumes(after);
            lemma_directory_run(earlier.push(outcome), next);
            let rest = directory_reception(next).0;
            assert(earlier.push(outcome) + rest.outcomes =~= earlier + (seq![outcome]
                + rest.outcomes));
        }
    }
}

/// Receives a directory over a link held in memory, by running the machine
/// against it until the machine is done.
pub fn receive_directory(link: &mut Loopback) -> (report: DirectoryReport)
    ensures
        (report@, final(link)@) == directory_reception(old(link)@),
{
    let (start, first) = begin_directory();
    let mut state = start;
    let mut request = first;
    proof {
        lemma_directory_run(Seq::empty(), link@);
        assert(Seq::<FileOutcome>::empty() + directory_reception(link@).0.outcomes
            =~= directory_reception(link@).0.outcomes);
    }
    loop
        invariant
            directory_run(state@, request@, link@) == directory_reception(old(link)@),
        decreases link@.unread.len(), state@.phase.steps_left(),
    {
        proof {
            lemma_directory_progress(state@, request@, link@);
        }
        let reply = link.perform(request);
        match directory_step(state, reply) {
            DirectoryStep::Done(report) => {
                return report;
            },
            DirectoryStep::Ask(next, following) => {
                state = next;
                request = following;
            },
        }
    }
}

/// Any byte but the one that announces a file ends the stream where a
/// marker is expected: no file is attempted, and only that byte is read.
pub proof fn lemma_other_marker_ends_stream(link: LoopbackView)
    requires
        link.unread.len() > 0,
        link.unread[0] != MARKER_FILE_FOLLOWS,
    ensures
        directory_reception(link) == (
            DirectoryReportView { outcomes: Seq::empty(), end: byte_marker(link.unread[0]) },
            link.advance(1),
        ),
        byte_marker(link.unread[0]) != MarkerView::Continue,
        link.unread[0] == MARKER_END_OF_STREAM ==> byte_marker(link.unread[0]) == MarkerView::Stop,
{
}

/// A stream that ends inside the payload of a file ends the directory
/// after that file: the file holds what arrived, its receipt counts as a
/// success, and the read of the next marker fails and stops the loop.
pub proof fn lemma_truncated_stream(
    name: Seq<char>,
    payload: Seq<u8>,
    arrived: int,
    link: LoopbackView,
)
    requires
        frameable(name, payload),
        0 <= arrived < payload.len(),
        link.unread == seq![MARKER_FILE_FOLLOWS] + frame_header(
            encode_utf8(name),
            payload.len(),
        ) + payload.take(arrived),
        !link.faults.create,
        !link.faults.write,
    ensures
        directory_reception(link) == (
            DirectoryReportView {
                outcomes: seq![FileOutcome::Received],
                end: MarkerView::Unreadable(marker_failure(end_of_stream())),
            },
            LoopbackView {
                unread: Seq::empty(),
                files: link.files.push(
                    StoredFileView { name, contents: payload.take(arrived) },
                ),
                ..link
            },
        ),
{
    let after = link.advance(1);
    assert(after.unread =~= frame_header(encode_utf8(name), payload.len()) + payload.take(
        arrived,
    ));
    lemma_truncated_payload(name, payload, arrived, after);
    let (outcome, next) = file_reception(after);
    assert(directory_reception(next).0.outcomes =~= Seq::<FileOutcome>::empty());
    assert(seq![outcome] + Seq::<FileOutcome>::empty() =~= seq![FileOutcome::Received]);
}

/// The stream that transfers `files` in order: before each file the marker
/// that announces it, after the last the marker that ends the stream.
pub open spec fn directory_stream(files: Seq<StoredFileView>) -> Seq<u8>
    decreases files.len(),
{
    if files.len() == 0 {
        seq![MARKER_END_OF_STREAM]
    } else {
        seq![MARKER_FILE_FOLLOWS] + file_frame(files[0].name, files[0].contents)
            + directory_stream(files.skip(1))
    }
}

/// Round trip of a directory: the stream that transfers a sequence of
/// files, fed to the receiver, yields those files in that order, each
/// received with success, then a clean stop; what follows the stream is
/// left unread.
pub proof fn lemma_directory_round_trip(
    files: Seq<StoredFileView>,
    rest: Seq<u8>,
    link: LoopbackView,
)
    requires
        forall|i: int| 0 <= i < files.len() ==> frameable(#[trigger] files[i].name, files[i].contents),
        link.unread == directory_stream(files) + rest,
        !link.faults.create,
        !link.faults.write,
    ensures
        directory_reception(link) == (
            DirectoryReportView {
                outcomes: Seq::new(files.len(), |i: int| FileOutcome::Received),
                end: MarkerView::Stop,
            },
            LoopbackView { unread: rest, files: link.files + files, ..link },
        ),
    decreases files.len(),
{
    let after = link.advance(1);
    let all_received = Seq::new(files.len(), |i: int| FileOutcome::Received);
    if files.len() == 0 {
        assert(after.unread =~= rest);
        assert(link.files + files =~= link.files);
        assert(all_received =~= Seq::<FileOutcome>::empty());
    } else {
        let first = files[0];
        let others = files.skip(1);
        let tail = directory_stream(others) + rest;
        assert(link.unread[0] == MARKER_FILE_FOLLOWS);
        assert(after.unread =~= file_frame(first.name, first.contents) + tail);
        lemma_round_trip(first.name, first.contents, tail, after);
        let (outcome, next) = file_reception(after);
        assert forall|i: int| 0 <= i < others.len() implies frameable(
            #[trigger] others[i].name,
            others[i].contents,
        ) by {
            assert(others[i] == files[i + 1]);
        }
        lemma_directory_round_trip(others, rest, next);
        let later = Seq::new(others.len(), |i: int| FileOutcome::Received);
        assert(seq![outcome] + later =~= all_received);
        assert(link.files.push(first) + others =~= link.files + files);
    }
}

} // verus!
