use file_transfer::directory::{
    begin_directory, directory_step, receive_continuation_marker, receive_directory,
    DirectoryPhase, DirectoryReport, DirectoryState, DirectoryStep, Marker,
};
use file_transfer::exchange::{Reply, Request};
use file_transfer::handshake::process_handshake;
use file_transfer::loopback::{Faults, Loopback, StoredFile};
use file_transfer::outcome::{HandshakeResult, ReceiveFileResult};
use file_transfer::receiver::FileState;
use file_transfer::wire::encode_file;

fn end_of_stream_marker() -> Marker {
    Marker::Unreadable(
        "Failed to read continuation marker: failed to fill whole buffer".to_string(),
    )
}

fn directory_of(files: &[(&str, &[u8])]) -> Vec<u8> {
    let mut stream = Vec::new();
    for (name, payload) in files {
        stream.push(1);
        stream.extend_from_slice(&encode_file(name, payload).unwrap());
    }
    stream.push(0);
    stream
}

#[test]
fn marker_one_continues() {
    let marker = receive_continuation_marker(Reply::Completed(vec![1]));
    assert_eq!(marker, Marker::Continue);
    assert!(marker.continues());
}

#[test]
fn marker_zero_stops() {
    let marker = receive_continuation_marker(Reply::Completed(vec![0]));
    assert_eq!(marker, Marker::Stop);
    assert!(!marker.continues());
}

#[test]
fn marker_of_any_other_byte_stops_and_keeps_the_byte() {
    for byte in [2u8, 7, 128, 255] {
        let marker = receive_continuation_marker(Reply::Completed(vec![byte]));
        assert_eq!(marker, Marker::Malformed(byte));
        assert!(!marker.continues());
    }
}

#[test]
fn marker_read_failure_stops() {
    let marker = receive_continuation_marker(Reply::Failed("connection reset".to_string()));
    assert_eq!(
        marker,
        Marker::Unreadable("Failed to read continuation marker: connection reset".to_string())
    );
    assert!(!marker.continues());
}

#[test]
fn marker_of_the_wrong_width_stops() {
    for bytes in [Vec::new(), vec![1, 1]] {
        let marker = receive_continuation_marker(Reply::Completed(bytes));
        assert_eq!(
            marker,
            Marker::Unreadable("Failed to convert continuation marker bytes to slice".to_string())
        );
        assert!(!marker.continues());
    }
}

#[test]
fn directory_with_marker_zero_first_receives_nothing() {
    let mut link = Loopback::new(vec![0]);
    let report = receive_directory(&mut link);
    assert_eq!(report, DirectoryReport { outcomes: Vec::new(), end: Marker::Stop });
    assert_eq!(link.file_count(), 0);
    assert_eq!(link.unread_len(), 0);
}

#[test]
fn directory_with_marker_seven_first_receives_nothing() {
    let mut stream = vec![7];
    stream.extend_from_slice(&encode_file("never", b"read").unwrap());
    let rest = stream.len() - 1;
    let mut link = Loopback::new(stream);
    let report = receive_directory(&mut link);
    assert_eq!(report, DirectoryReport { outcomes: Vec::new(), end: Marker::Malformed(7) });
    assert_eq!(link.file_count(), 0);
    assert_eq!(link.unread_len(), rest);
}

#[test]
fn directory_on_an_empty_stream_stops() {
    let mut link = Loopback::new(Vec::new());
    let report = receive_directory(&mut link);
    assert_eq!(report, DirectoryReport { outcomes: Vec::new(), end: end_of_stream_marker() });
    assert_eq!(link.file_count(), 0);
}

#[test]
fn directory_receives_two_files_in_order_and_stops() {
    let stream = directory_of(&[("a.txt", b"first"), ("b.txt", b"second file")]);
    let mut link = Loopback::new(stream);
    let report = receive_directory(&mut link);
    assert_eq!(
        report,
        DirectoryReport {
            outcomes: vec![ReceiveFileResult::Received, ReceiveFileResult::Received],
            end: Marker::Stop,
        }
    );
    assert_eq!(link.file_count(), 2);
    assert_eq!(
        link.file(0),
        Some(&StoredFile { name: "a.txt".to_string(), contents: b"first".to_vec() })
    );
    assert_eq!(
        link.file(1),
        Some(&StoredFile { name: "b.txt".to_string(), contents: b"second file".to_vec() })
    );
    assert_eq!(link.unread_len(), 0);
    assert!(link.sent().is_empty());
}

#[test]
fn directory_round_trips_many_files() {
    let payloads: Vec<Vec<u8>> =
        (0..6usize).map(|n| (0..n * 700).map(|i| (i % 256) as u8).collect()).collect();
    let names: Vec<String> = (0..6).map(|n| format!("file-{}", n)).collect();
    let files: Vec<(&str, &[u8])> =
        names.iter().zip(payloads.iter()).map(|(n, p)| (n.as_str(), p.as_slice())).collect();
    let mut link = Loopback::new(directory_of(&files));
    let report = receive_directory(&mut link);
    assert_eq!(report.end, Marker::Stop);
    assert_eq!(report.outcomes, vec![ReceiveFileResult::Received; 6]);
    assert_eq!(link.file_count(), 6);
    for index in 0..6 {
        let file = link.file(index).unwrap();
        assert_eq!(file.name, names[index]);
        assert_eq!(file.contents, payloads[index]);
    }
    assert_eq!(link.unread_len(), 0);
}

#[test]
fn directory_leaves_what_follows_the_end_marker_unread() {
    let mut stream = directory_of(&[("a", b"x")]);
    stream.extend_from_slice(&[1, 2, 3]);
    let mut link = Loopback::new(stream);
    let report = receive_directory(&mut link);
    assert_eq!(report.end, Marker::Stop);
    assert_eq!(link.file_count(), 1);
    assert_eq!(link.unread_len(), 3);
}

#[test]
fn directory_stops_after_a_truncated_payload() {
    let payload: Vec<u8> = (0..2000usize).map(|i| (i % 256) as u8).collect();
    let mut stream = vec![1];
    stream.extend_from_slice(&encode_file("cut", &payload).unwrap());
    stream.truncate(stream.len() - 800);
    let mut link = Loopback::new(stream);
    let report = receive_directory(&mut link);
    assert_eq!(
        report,
        DirectoryReport {
            outcomes: vec![ReceiveFileResult::Received],
            end: end_of_stream_marker(),
        }
    );
    assert_eq!(
        link.file(0),
        Some(&StoredFile { name: "cut".to_string(), contents: payload[..1200].to_vec() })
    );
    assert_eq!(link.file_count(), 1);
}

#[test]
fn directory_goes_on_to_the_next_marker_after_a_bad_name() {
    let mut stream = vec![1, 0, 0, 0, 1, 0xff];
    stream.extend_from_slice(&[0]);
    let mut link = Loopback::new(stream);
    let report = receive_directory(&mut link);
    assert_eq!(report.end, Marker::Stop);
    assert_eq!(
        report.outcomes,
        vec![ReceiveFileResult::UnknownNetworkError(
            "Failed to convert file name bytes to string: invalid utf-8 sequence of 1 bytes from index 0"
                .to_string()
        )]
    );
    assert_eq!(link.file_count(), 0);
}

#[test]
fn directory_after_a_handshake_on_one_stream() {
    let mut stream = vec![0, 0, 0, 0];
    stream.extend_from_slice(&directory_of(&[("only", b"one")]));
    let mut link = Loopback::new(stream);
    assert_eq!(process_handshake(&mut link), HandshakeResult::Accepted(0));
    let report = receive_directory(&mut link);
    assert_eq!(report.end, Marker::Stop);
    assert_eq!(link.sent(), &vec![0u8]);
    assert_eq!(
        link.file(0),
        Some(&StoredFile { name: "only".to_string(), contents: b"one".to_vec() })
    );
}

#[test]
fn directory_machine_begins_with_a_marker() {
    assert_eq!(
        begin_directory(),
        (
            DirectoryState { phase: DirectoryPhase::Marker, outcomes: Vec::new() },
            Request::ReadExact(1)
        )
    );
}

#[test]
fn directory_machine_begins_a_file_after_marker_one() {
    let (state, _) = begin_directory();
    assert_eq!(
        directory_step(state, Reply::Completed(vec![1])),
        DirectoryStep::Ask(
            DirectoryState {
                phase: DirectoryPhase::File(FileState::NameLength),
                outcomes: Vec::new()
            },
            Request::ReadExact(4)
        )
    );
}

#[test]
fn directory_machine_ends_on_any_other_marker() {
    let (state, _) = begin_directory();
    assert_eq!(
        directory_step(state, Reply::Completed(vec![0])),
        DirectoryStep::Done(DirectoryReport { outcomes: Vec::new(), end: Marker::Stop })
    );
    let (state, _) = begin_directory();
    assert_eq!(
        directory_step(state, Reply::Completed(vec![7])),
        DirectoryStep::Done(DirectoryReport { outcomes: Vec::new(), end: Marker::Malformed(7) })
    );
    let (state, _) = begin_directory();
    assert_eq!(
        directory_step(state, Reply::Failed("reset".to_string())),
        DirectoryStep::Done(DirectoryReport {
            outcomes: Vec::new(),
            end: Marker::Unreadable("Failed to read continuation marker: reset".to_string()),
        })
    );
}

#[test]
fn directory_machine_asks_for_a_marker_after_a_file_that_could_not_be_created() {
    let state = DirectoryState {
        phase: DirectoryPhase::File(FileState::Creation { size: 4 }),
        outcomes: vec![ReceiveFileResult::Received],
    };
    assert_eq!(
        directory_step(state, Reply::Failed("permission denied".to_string())),
        DirectoryStep::Ask(
            DirectoryState {
                phase: DirectoryPhase::Marker,
                outcomes: vec![ReceiveFileResult::Received, ReceiveFileResult::CanNotCreateFile],
            },
            Request::ReadExact(1)
        )
    );
}

#[test]
fn directory_machine_follows_the_file_machine_inside_a_file() {
    let state = DirectoryState {
        phase: DirectoryPhase::File(FileState::Storing { remaining: 3 }),
        outcomes: Vec::new(),
    };
    assert_eq!(
        directory_step(state, Reply::Completed(Vec::new())),
        DirectoryStep::Ask(
            DirectoryState {
                phase: DirectoryPhase::File(FileState::Payload { remaining: 3 }),
                outcomes: Vec::new()
            },
            Request::ReadUpTo(3)
        )
    );
}

#[test]
fn directory_reads_the_next_marker_from_the_payload_of_a_file_it_could_not_create() {
    let faults = Faults { send: false, create: true, write: false };
    let mut stream = vec![1];
    stream.extend_from_slice(&encode_file("locked", &[9, 1, 2]).unwrap());
    stream.push(0);
    let mut link = Loopback::with_faults(stream, faults);
    let report = receive_directory(&mut link);
    assert_eq!(
        report,
        DirectoryReport {
            outcomes: vec![ReceiveFileResult::CanNotCreateFile],
            end: Marker::Malformed(9),
        }
    );
    assert_eq!(link.file_count(), 0);
    assert_eq!(link.unread_len(), 3);
}

#[test]
fn directory_goes_on_after_a_file_that_could_not_be_stored() {
    let faults = Faults { send: false, create: false, write: true };
    let stream = directory_of(&[("a", b"x"), ("b", b"")]);
    let mut link = Loopback::with_faults(stream, faults);
    let report = receive_directory(&mut link);
    assert_eq!(
        report,
        DirectoryReport {
            outcomes: vec![
                ReceiveFileResult::UnknownNetworkError(
                    "Failed to write to file: no space left on device".to_string()
                ),
                ReceiveFileResult::Received,
            ],
            end: Marker::Stop,
        }
    );
    assert_eq!(link.file_count(), 2);
}
