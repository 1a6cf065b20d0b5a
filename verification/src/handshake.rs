//! The handshake as the client sees it: the server announces its protocol
//! version in four bytes, and the client accepts it with one byte or leaves
//! without answering.

use crate::exchange::{
    explain, read_failure, send_failure, version_width_failure, Reply, ReplyView, Request,
    RequestView,
};
use crate::loopback::{end_of_stream, peer_gone, Loopback, LoopbackView};
use crate::outcome::{HandshakeOutcome, HandshakeResult};
use crate::wire::{
    be_bytes, be_value, decode_u32, lemma_be_bytes_len, lemma_be_limits, lemma_be_round_trip,
    lemma_be_value_bound, ACKNOWLEDGEMENT, PROTOCOL_VERSION, WORD_BYTES,
};
use vstd::prelude::*;
use vstd::string::StringExecFns;

verus! {

/// Where the handshake stands: which answer the machine waits for.
#[derive(Debug, Clone, Copy, PartialEq, Eq)]
pub enum HandshakeState {
    /// The four bytes of the server's version were asked for.
    Version,
    /// The acknowledgement was handed on to be sent.
    Acknowledgement,
}

/// What the machine does after an answer.
#[derive(Debug, Clone, PartialEq, Eq)]
pub enum HandshakeStep {
    Ask(HandshakeState, Request),
    Done(HandshakeResult),
}

/// The mathematical value of a [`HandshakeStep`].
pub enum HandshakeStepView {
    Ask(HandshakeState, RequestView),
    Done(HandshakeOutcome),
}

impl View for HandshakeStep {
    type V = HandshakeStepView;

    open spec fn view(&self) -> HandshakeStepView {
        match self {
            HandshakeStep::Ask(state, request) => HandshakeStepView::Ask(*state, request@),
            HandshakeStep::Done(result) => HandshakeStepView::Done(result@),
        }
    }
}

/// The outcome for a server that announces `version`: the one known version
/// is accepted, every other is reported as unknown.
pub open spec fn verdict(version: u32) -> HandshakeOutcome {
    if version == PROTOCOL_VERSION {
        HandshakeOutcome::Accepted(version)
    } else {
        HandshakeOutcome::UnknownProtocolVersion(version)
    }
}

/// The transition function of the machine. Only a known version is
/// acknowledged; an unknown one ends the handshake with nothing sent.
pub open spec fn handshake_next(state: HandshakeState, reply: ReplyView) -> HandshakeStepView {
    match state {
        HandshakeState::Version => match reply {
            ReplyView::Failed(detail) => HandshakeStepView::Done(
                HandshakeOutcome::UnknownConnectionError(read_failure(detail)),
            ),
            ReplyView::Completed(bytes) => if bytes.len() != WORD_BYTES {
                HandshakeStepView::Done(
                    HandshakeOutcome::UnknownConnectionError(version_width_failure()),
                )
            } else if be_value(bytes) == PROTOCOL_VERSION {
                HandshakeStepView::Ask(
                    HandshakeState::Acknowledgement,
                    RequestView::Send(seq![ACKNOWLEDGEMENT]),
                )
            } else {
                HandshakeStepView::Done(verdict(be_value(bytes) as u32))
            },
        },
        HandshakeState::Acknowledgement => match reply {
            ReplyView::Failed(detail) => HandshakeStepView::Done(
                HandshakeOutcome::UnknownConnectionError(send_failure(detail)),
            ),
            ReplyView::Completed(_) => HandshakeStepView::Done(verdict(PROTOCOL_VERSION)),
        },
    }
}

/// The state and the request with which the handshake begins.
pub fn begin_handshake() -> (start: (HandshakeState, Request))
    ensures
        start.0 == HandshakeState::Version,
        start.1@ == RequestView::ReadExact(WORD_BYTES),
{
    (HandshakeState::Version, Request::ReadExact(WORD_BYTES))
}

/// Takes the driver's answer to the last request and decides what happens
/// next.
pub fn handshake_step(state: HandshakeState, reply: Reply) -> (step: HandshakeStep)
    ensures
        step@ == handshake_next(state, reply@),
{
    match state {
        HandshakeState::Version => match reply {
            Reply::Failed(detail) => HandshakeStep::Done(
                HandshakeResult::UnknownConnectionError(
                    explain("Failed to read from socket: ", detail.as_str()),
                ),
            ),
            Reply::Completed(bytes) => match decode_u32(bytes.as_slice()) {
                None => HandshakeStep::Done(
                    HandshakeResult::UnknownConnectionError(
                        String::from_str("Failed to convert bytes to slice"),
                    ),
                ),
                Some(version) => if version == PROTOCOL_VERSION {
                    let mut acknowledgement = Vec::new();
                    acknowledgement.push(ACKNOWLEDGEMENT);
                    assert(acknowledgement@ =~= seq![ACKNOWLEDGEMENT]);
                    HandshakeStep::Ask(
                        HandshakeState::Acknowledgement,
                        Request::Send(acknowledgement),
                    )
                } else {
                    HandshakeStep::Done(HandshakeResult::UnknownProtocolVersion(version))
                },
            },
        },
        HandshakeState::Acknowledgement => match reply {
            Reply::Failed(detail) => HandshakeStep::Done(
                HandshakeResult::UnknownConnectionError(
                    explain("Failed to write to socket: ", detail.as_str()),
                ),
            ),
            Reply::Completed(_) => HandshakeStep::Done(HandshakeResult::Accepted(PROTOCOL_VERSION)),
        },
    }
}

/// The number of answers the machine can still take in `state`.
pub open spec fn handshake_steps_left(state: HandshakeState) -> nat {
    match state {
        HandshakeState::Version => 2,
        HandshakeState::Acknowledgement => 1,
    }
}

/// What a run of the machine makes of `link`, from `state` with `request`
/// still to be performed.
pub open spec fn handshake_run(state: HandshakeState, request: RequestView, link: LoopbackView)
    -> (HandshakeOutcome, LoopbackView)
    decreases handshake_steps_left(state),
{
    let (after, reply) = link.respond(request);
    match handshake_next(state, reply) {
        HandshakeStepView::Done(outcome) => (outcome, after),
        HandshakeStepView::Ask(next, following) => handshake_run(next, following, after),
    }
}

/// What the handshake makes of `link`, read off the bytes on it: a stream
/// that ends inside the version fails; an unknown version is reported and
/// nothing is sent; the known version is acknowledged with one byte, and
/// accepted if that byte could be sent.
pub open spec fn handshake_exchange(link: LoopbackView) -> (HandshakeOutcome, LoopbackView) {
    if link.unread.len() < 4 {
        (HandshakeOutcome::UnknownConnectionError(read_failure(end_of_stream())), link.drained())
    } else {
        let version = be_value(link.unread.take(4)) as u32;
        let after = link.advance(4);
        if version != PROTOCOL_VERSION {
            (verdict(version), after)
        } else if link.faults.send {
            (HandshakeOutcome::UnknownConnectionError(send_failure(peer_gone())), after)
        } else {
            (verdict(version), LoopbackView { sent: after.sent.push(ACKNOWLEDGEMENT), ..after })
        }
    }
}

/// A run of the machine over a link held in memory does to it what
/// [`handshake_exchange`] reads off the bytes.
pub proof fn lemma_handshake_run(link: LoopbackView)
    ensures
        handshake_run(HandshakeState::Version, RequestView::ReadExact(WORD_BYTES), link)
            == handshake_exchange(link),
{
    if link.unread.len() >= 4 {
        let word = link.unread.take(4);
        lemma_be_value_bound(word);
        lemma_be_limits();
        let after = link.advance(4);
        if be_value(word) == PROTOCOL_VERSION {
            let sent = seq![ACKNOWLEDGEMENT];
            assert(handshake_run(
                HandshakeState::Version,
                RequestView::ReadExact(WORD_BYTES),
                link,
            ) == handshake_run(HandshakeState::Acknowledgement, RequestView::Send(sent), after));
            assert(after.sent + sent =~= after.sent.push(ACKNOWLEDGEMENT));
        }
    }
}

/// Runs the handshake over a link held in memory.
pub fn process_handshake(link: &mut Loopback) -> (result: HandshakeResult)
    ensures
        (result@, final(link)@) == handshake_exchange(old(link)@),
{
    let (start, first) = begin_handshake();
    let mut state = start;
    let mut request = first;
    proof {
        lemma_handshake_run(link@);
    }
    loop
        invariant
            handshake_run(state, request@, link@) == handshake_exchange(old(link)@),
        decreases handshake_steps_left(state),
    {
        let reply = link.perform(request);
        match handshake_step(state, reply) {
            HandshakeStep::Done(result) => {
                return result;
            },
            HandshakeStep::Ask(next, following) => {
                state = next;
                request = following;
            },
        }
    }
}

/// A server that announces any version but the known one is told nothing:
/// the handshake reports the version as unknown, and not a byte is sent.
pub proof fn lemma_unknown_version_is_not_acknowledged(
    version: u32,
    rest: Seq<u8>,
    link: LoopbackView,
)
    requires
        version != PROTOCOL_VERSION,
        link.unread == be_bytes(version as nat, 4) + rest,
    ensures
        handshake_exchange(link) == (
            HandshakeOutcome::UnknownProtocolVersion(version),
            LoopbackView { unread: rest, ..link },
        ),
        handshake_next(HandshakeState::Version, ReplyView::Completed(be_bytes(version as nat, 4)))
            == HandshakeStepView::Done(HandshakeOutcome::UnknownProtocolVersion(version)),
{
    let word = be_bytes(version as nat, 4);
    lemma_be_bytes_len(version as nat, 4);
    lemma_be_limits();
    lemma_be_round_trip(version as nat, 4);
    assert(link.unread.take(4) =~= word);
    assert(link.unread.skip(4) =~= rest);
}

/// A server that announces the known version is accepted, and exactly one
/// byte, the acknowledgement, is sent to it.
pub proof fn lemma_known_version_is_acknowledged(rest: Seq<u8>, link: LoopbackView)
    requires
        link.unread == be_bytes(PROTOCOL_VERSION as nat, 4) + rest,
        !link.faults.send,
    ensures
        handshake_exchange(link) == (
            HandshakeOutcome::Accepted(PROTOCOL_VERSION),
            LoopbackView { unread: rest, sent: link.sent.push(ACKNOWLEDGEMENT), ..link },
        ),
{
    let word = be_bytes(PROTOCOL_VERSION as nat, 4);
    lemma_be_bytes_len(PROTOCOL_VERSION as nat, 4);
    lemma_be_limits();
    lemma_be_round_trip(PROTOCOL_VERSION as nat, 4);
    assert(link.unread.take(4) =~= word);
    assert(link.unread.skip(4) =~= rest);
}

} // verus!
