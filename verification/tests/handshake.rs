use file_transfer::exchange::{Reply, Request};
use file_transfer::handshake::{
    begin_handshake, handshake_step, process_handshake, HandshakeState, HandshakeStep,
};
use file_transfer::loopback::{Faults, Loopback};
use file_transfer::outcome::HandshakeResult;

#[test]
fn handshake_accepts_version_zero_and_sends_one_byte() {
    let mut link = Loopback::new(vec![0, 0, 0, 0]);
    assert_eq!(process_handshake(&mut link), HandshakeResult::Accepted(0));
    assert_eq!(link.sent(), &vec![0u8]);
    assert_eq!(link.unread_len(), 0);
}

#[test]
fn handshake_leaves_what_follows_the_version_unread() {
    let mut link = Loopback::new(vec![0, 0, 0, 0, 1, 2, 3]);
    assert_eq!(process_handshake(&mut link), HandshakeResult::Accepted(0));
    assert_eq!(link.sent(), &vec![0u8]);
    assert_eq!(link.unread_len(), 3);
}

#[test]
fn handshake_reports_unknown_version_without_acknowledging() {
    let mut link = Loopback::new(vec![0, 0, 0, 5]);
    assert_eq!(process_handshake(&mut link), HandshakeResult::UnknownProtocolVersion(5));
    assert!(link.sent().is_empty());
    assert_eq!(link.unread_len(), 0);
}

#[test]
fn handshake_reads_the_version_big_endian() {
    let mut link = Loopback::new(vec![1, 2, 3, 4]);
    assert_eq!(
        process_handshake(&mut link),
        HandshakeResult::UnknownProtocolVersion(16_909_060)
    );
    assert!(link.sent().is_empty());
}

#[test]
fn handshake_never_acknowledges_a_version_other_than_zero() {
    let versions: [u32; 6] = [1, 2, 255, 256, 0x0100_0000, u32::MAX];
    for version in versions {
        let mut link = Loopback::new(version.to_be_bytes().to_vec());
        assert_eq!(
            process_handshake(&mut link),
            HandshakeResult::UnknownProtocolVersion(version)
        );
        assert!(link.sent().is_empty());
    }
}

#[test]
fn handshake_fails_on_a_short_version() {
    let mut link = Loopback::new(vec![0, 0]);
    assert_eq!(
        process_handshake(&mut link),
        HandshakeResult::UnknownConnectionError(
            "Failed to read from socket: failed to fill whole buffer".to_string()
        )
    );
    assert!(link.sent().is_empty());
    assert_eq!(link.unread_len(), 0);
}

#[test]
fn handshake_fails_on_an_empty_stream() {
    let mut link = Loopback::new(Vec::new());
    assert_eq!(
        process_handshake(&mut link),
        HandshakeResult::UnknownConnectionError(
            "Failed to read from socket: failed to fill whole buffer".to_string()
        )
    );
    assert!(link.sent().is_empty());
}

#[test]
fn handshake_begins_by_asking_for_four_bytes() {
    assert_eq!(begin_handshake(), (HandshakeState::Version, Request::ReadExact(4)));
}

#[test]
fn handshake_step_acknowledges_the_known_version() {
    let step = handshake_step(HandshakeState::Version, Reply::Completed(vec![0, 0, 0, 0]));
    assert_eq!(
        step,
        HandshakeStep::Ask(HandshakeState::Acknowledgement, Request::Send(vec![0]))
    );
    let step = handshake_step(HandshakeState::Acknowledgement, Reply::Completed(Vec::new()));
    assert_eq!(step, HandshakeStep::Done(HandshakeResult::Accepted(0)));
}

#[test]
fn handshake_step_ends_at_once_on_an_unknown_version() {
    let step = handshake_step(HandshakeState::Version, Reply::Completed(vec![0, 0, 0, 9]));
    assert_eq!(step, HandshakeStep::Done(HandshakeResult::UnknownProtocolVersion(9)));
}

#[test]
fn handshake_step_reports_a_failed_read() {
    let step = handshake_step(
        HandshakeState::Version,
        Reply::Failed("connection reset".to_string()),
    );
    assert_eq!(
        step,
        HandshakeStep::Done(HandshakeResult::UnknownConnectionError(
            "Failed to read from socket: connection reset".to_string()
        ))
    );
}

#[test]
fn handshake_step_reports_a_version_of_the_wrong_width() {
    let step = handshake_step(HandshakeState::Version, Reply::Completed(vec![0, 0, 0]));
    assert_eq!(
        step,
        HandshakeStep::Done(HandshakeResult::UnknownConnectionError(
            "Failed to convert bytes to slice".to_string()
        ))
    );
    let step = handshake_step(HandshakeState::Version, Reply::Completed(vec![0; 5]));
    assert_eq!(
        step,
        HandshakeStep::Done(HandshakeResult::UnknownConnectionError(
            "Failed to convert bytes to slice".to_string()
        ))
    );
}

#[test]
fn handshake_step_reports_a_failed_write() {
    let step = handshake_step(
        HandshakeState::Acknowledgement,
        Reply::Failed("broken pipe".to_string()),
    );
    assert_eq!(
        step,
        HandshakeStep::Done(HandshakeResult::UnknownConnectionError(
            "Failed to write to socket: broken pipe".to_string()
        ))
    );
}

#[test]
fn handshake_outcomes_reserved_for_later_versions_exist() {
    let reserved = vec![
        HandshakeResult::ObsoleteProtocolVersion(1),
        HandshakeResult::AlreadyConnected,
        HandshakeResult::TooManyClients,
        HandshakeResult::Rejected("full".to_string()),
        HandshakeResult::UnknownServerError("fault".to_string()),
    ];
    for (index, outcome) in reserved.iter().enumerate() {
        for (other, different) in reserved.iter().enumerate() {
            assert_eq!(outcome == different, index == other);
        }
        assert_ne!(outcome, &HandshakeResult::Accepted(0));
    }
}

#[test]
fn handshake_fails_when_the_acknowledgement_cannot_be_sent() {
    let faults = Faults { send: true, create: false, write: false };
    let mut link = Loopback::with_faults(vec![0, 0, 0, 0], faults);
    assert_eq!(
        process_handshake(&mut link),
        HandshakeResult::UnknownConnectionError(
            "Failed to write to socket: broken pipe".to_string()
        )
    );
    assert!(link.sent().is_empty());
    assert_eq!(link.unread_len(), 0);
}

#[test]
fn handshake_with_an_unknown_version_does_not_try_to_send() {
    let faults = Faults { send: true, create: false, write: false };
    let mut link = Loopback::with_faults(vec![0, 0, 0, 3], faults);
    assert_eq!(process_handshake(&mut link), HandshakeResult::UnknownProtocolVersion(3));
}
