use snmidi::error::SessionError;
use snmidi::session::{Accepted, Session};

const MILLI: u64 = 1_000_000;

fn datagram(kind: u8, seqnum: u32, payload: &[u8]) -> Vec<u8> {
    let mut bytes = vec![b'S', b'N', b'M', kind];
    bytes.extend_from_slice(&seqnum.to_be_bytes());
    bytes.extend_from_slice(payload);
    bytes
}

fn take(session: &mut Session, kind: u8, seqnum: u32, payload: &[u8], now: u64) -> Accepted {
    let contents = datagram(kind, seqnum, payload);
    assert!(session.has_room(&contents));
    session.receive(&contents, now).unwrap().unwrap()
}

#[test]
fn numbers_start_from_zero_and_count_up() {
    let mut session = Session::new();
    for seqnum in 0..5 {
        assert_eq!(take(&mut session, b'i', seqnum, &[], 0).ack.ack, seqnum);
    }
    assert_eq!(take(&mut session, b'r', 5, &[], 0).ack.ack, 5);
    assert_eq!(take(&mut session, b'q', 6, &[], 0).ack.ack, 6);
}

#[test]
fn a_gap_is_an_error() {
    let mut session = Session::new();
    take(&mut session, b'i', 0, &[], 0);
    for seqnum in [0, 2, 3, u32::MAX] {
        let result = session.receive(&datagram(b'i', seqnum, &[0xFA]), 0);
        match result {
            Err(SessionError::UnexpectedSeqnum { seqnum: got, expected }) => {
                assert_eq!((got, expected), (seqnum, 1));
            }
            _ => panic!("datagram {} was taken", seqnum),
        }
    }
    take(&mut session, b'i', 1, &[], 0);
}

#[test]
fn the_test_number_is_always_taken() {
    let mut session = Session::new();
    for _ in 0..3 {
        let accepted = take(&mut session, b'i', 0xDEAD_BEEF, &[0x90, 0x3C, 0x7F], 0);
        assert_eq!(accepted.ack.ack, 0xDEAD_BEEF);
        assert_eq!(accepted.messages, vec![vec![0x90, 0x3C, 0x7F]]);
    }
    take(&mut session, b'i', 0, &[], 0);
}

#[test]
fn a_datagram_without_a_header_is_skipped() {
    let mut session = Session::new();
    assert!(session.receive(&[], 0).unwrap().is_none());
    assert!(session.receive(b"SNM", 0).unwrap().is_none());
    assert!(session.receive(b"SNMx0000", 0).unwrap().is_none());
    take(&mut session, b'i', 0, &[], 0);
}

#[test]
fn instant_messages_are_normalized() {
    let mut session = Session::new();
    let accepted = take(&mut session, b'i', 0, &[0x90, 0x3C, 0x7F, 0x3E, 0xF8, 0x7F], 0);
    assert_eq!(
        accepted.messages,
        vec![vec![0x90, 0x3C, 0x7F], vec![0xF8], vec![0x90, 0x3E, 0x7F]]
    );
}

#[test]
fn a_long_message_may_be_split_between_instant_packets() {
    let whole = [0xF0, 1, 2, 3, 4, 0xF7, 0xC1, 5];
    for cut in 0..=whole.len() {
        let mut session = Session::new();
        let mut messages = take(&mut session, b'i', 0, &whole[..cut], 0).messages;
        messages.extend(take(&mut session, b'i', 1, &whole[cut..], 0).messages);
        assert_eq!(messages, vec![vec![0xF0, 1, 2, 3, 4, 0xF7], vec![0xC1, 5]]);
    }
}

#[test]
fn a_reset_drops_an_unfinished_instant_message() {
    let mut session = Session::new();
    assert!(take(&mut session, b'i', 0, &[0xF0, 1, 2], 0).messages.is_empty());
    let accepted = take(&mut session, b'r', 1, &[3, 0xF7, 0xB0, 0x7B, 0x00], 0);
    assert_eq!(accepted.messages, vec![vec![0xB0, 0x7B, 0x00]]);
}

#[test]
fn nothing_is_due_before_playback_starts() {
    let mut session = Session::new();
    let due = session.play_due(5);
    assert!(due.messages.is_empty());
    assert_eq!(due.wake, None);
}

#[test]
fn the_first_queue_packet_starts_the_timeline() {
    let mut session = Session::new();
    let t0 = 7 * MILLI + 123;
    take(&mut session, b'q', 0, &[0, 10, 0, 1, 0xFA], t0);
    take(&mut session, b'q', 1, &[0, 10, 0, 1, 0xFB], t0 + 3 * MILLI);

    let due = session.play_due(t0 + 9 * MILLI);
    assert!(due.messages.is_empty());
    assert_eq!(due.wake, Some((t0 + 10 * MILLI) as u128));

    let due = session.play_due(t0 + 10 * MILLI - 1);
    assert!(due.messages.is_empty());

    let due = session.play_due(t0 + 10 * MILLI);
    assert_eq!(due.messages, vec![vec![0xFA]]);
    assert_eq!(due.wake, Some((t0 + 20 * MILLI) as u128));

    let due = session.play_due(t0 + 50 * MILLI);
    assert_eq!(due.messages, vec![vec![0xFB]]);
    assert_eq!(due.wake, None);
}

#[test]
fn a_message_in_the_past_is_due_at_once() {
    let mut session = Session::new();
    take(&mut session, b'q', 0, &[0, 1, 0, 1, 0xFA], 0);
    assert_eq!(session.play_due(100 * MILLI).messages.len(), 1);
    take(&mut session, b'q', 1, &[0, 1, 0, 1, 0xFB], 100 * MILLI);
    let due = session.play_due(100 * MILLI);
    assert_eq!(due.messages, vec![vec![0xFB]]);
}

#[test]
fn a_clock_before_the_start_reads_zero() {
    let mut session = Session::new();
    take(&mut session, b'q', 0, &[0, 0, 0, 1, 0xFA, 0, 1, 0, 1, 0xFB], 10 * MILLI);
    let due = session.play_due(0);
    assert_eq!(due.messages, vec![vec![0xFA]]);
    assert_eq!(due.wake, Some((11 * MILLI) as u128));
}

#[test]
fn playing_between_packets_makes_no_difference() {
    let first = [0, 0, 0, 1, 0xFA, 0, 5, 0, 3, 0x90];
    let second = [0x3C, 0x7F, 0, 0, 0, 1, 0xFC];
    let mut together = Session::new();
    take(&mut together, b'q', 0, &first, 0);
    take(&mut together, b'q', 1, &second, 0);
    let expected = together.play_due(9 * MILLI).messages;

    let mut apart = Session::new();
    take(&mut apart, b'q', 0, &first, 0);
    let mut messages = apart.play_due(2 * MILLI).messages;
    take(&mut apart, b'q', 1, &second, 2 * MILLI);
    messages.extend(apart.play_due(9 * MILLI).messages);
    assert_eq!(messages, expected);
    assert_eq!(messages, vec![vec![0xFA], vec![0x90, 0x3C, 0x7F], vec![0xFC]]);
}

#[test]
fn a_reset_clears_the_queue_and_its_start() {
    let mut session = Session::new();
    take(&mut session, b'q', 0, &[0, 10, 0, 1, 0xFA, 0, 10, 0, 1], 0);
    take(&mut session, b'r', 1, &[], 5 * MILLI);
    let due = session.play_due(100 * MILLI);
    assert!(due.messages.is_empty());
    assert_eq!(due.wake, None);

    take(&mut session, b'q', 2, &[0, 10, 0, 1, 0xFC], 200 * MILLI);
    let due = session.play_due(209 * MILLI);
    assert!(due.messages.is_empty());
    assert_eq!(due.wake, Some((210 * MILLI) as u128));
    assert_eq!(session.play_due(210 * MILLI).messages, vec![vec![0xFC]]);
}

#[test]
fn an_instant_packet_leaves_the_queue_alone() {
    let mut session = Session::new();
    take(&mut session, b'q', 0, &[0, 10, 0, 2, 0xC0], 0);
    take(&mut session, b'i', 1, &[0xD0, 0x11], MILLI);
    take(&mut session, b'q', 2, &[0x22], 2 * MILLI);
    assert_eq!(session.play_due(10 * MILLI).messages, vec![vec![0xC0, 0x22]]);
}

#[test]
fn there_is_room_for_ordinary_datagrams() {
    let session = Session::new();
    assert!(session.has_room(&[]));
    assert!(session.has_room(&datagram(b'q', 0, &[0xFF, 0xFF, 0, 0])));
    assert!(session.has_room(&datagram(b'q', u32::MAX, &[])));
}

#[test]
fn running_status_is_written_out() {
    let mut session = Session::new();
    let accepted = take(&mut session, b'i', 0, &[0xC1, 5, 6], 0);
    assert_eq!(accepted.messages, vec![vec![0xC1, 5], vec![0xC1, 6]]);
    let accepted = take(&mut session, b'i', 1, &[7], 0);
    assert_eq!(accepted.messages, vec![vec![0xC1, 7]]);
    let accepted = take(&mut session, b'i', 2, &[0xE2, 0x01, 0x40, 0x02], 0);
    assert_eq!(accepted.messages, vec![vec![0xE2, 0x01, 0x40]]);
    let accepted = take(&mut session, b'i', 3, &[0x41, 0x03, 0x42], 0);
    assert_eq!(accepted.messages, vec![vec![0xE2, 0x02, 0x41], vec![0xE2, 0x03, 0x42]]);
}

#[test]
fn a_new_message_drops_an_incomplete_one() {
    let mut session = Session::new();
    assert!(take(&mut session, b'i', 0, &[0x90, 0x3C], 0).messages.is_empty());
    let accepted = take(&mut session, b'i', 1, &[0x80, 0x3C, 0x00], 0);
    assert_eq!(accepted.messages, vec![vec![0x80, 0x3C, 0x00]]);
    let accepted = take(&mut session, b'i', 2, &[0xF0, 1, 0xF7], 0);
    assert_eq!(accepted.messages, vec![vec![0xF0, 1, 0xF7]]);
    let accepted = take(&mut session, b'i', 3, &[0xF0, 0xF7], 0);
    assert_eq!(accepted.messages, vec![vec![0xF0, 0xF7]]);
}

#[test]
fn a_long_message_has_a_limit() {
    for (len, kept) in [(0x4_0000, true), (0x4_0001, false)] {
        let mut whole = vec![0xF0];
        whole.extend(std::iter::repeat(0x55).take(len));
        whole.push(0xF7);
        let mut session = Session::new();
        let mut messages = Vec::new();
        for (seqnum, piece) in whole.chunks(1000).enumerate() {
            messages.extend(take(&mut session, b'i', seqnum as u32, piece, 0).messages);
        }
        assert_eq!(messages, if kept { vec![whole] } else { vec![] });
    }
}

#[test]
fn every_played_message_stands_on_its_own() {
    let payload = [
        0x12, 0x34, 0x90, 0x3C, 0xF8, 0x7F, 0x3E, 0xF2, 0x01, 0x02, 0x03, 0xF6, 0xF1, 0xF3, 0x11,
        0xF4, 0x22, 0xF0, 0x01, 0xF9, 0xB3, 0x07, 0x64, 0x0A,
    ];
    let expected: Vec<Vec<u8>> = vec![
        vec![0xF8],
        vec![0x90, 0x3C, 0x7F],
        vec![0xF2, 0x01, 0x02],
        vec![0xF6],
        vec![0xF1],
        vec![0xF3, 0x11],
        vec![0xF4, 0x22],
        vec![0xF9],
        vec![0xF0, 0x01, 0xF7],
        vec![0xB3, 0x07, 0x64],
    ];
    let mut session = Session::new();
    assert_eq!(take(&mut session, b'i', 0, &payload, 0).messages, expected);

    let mut record = vec![0, 0, 0, payload.len() as u8];
    record.extend_from_slice(&payload);
    let mut session = Session::new();
    take(&mut session, b'q', 0, &record, 0);
    assert_eq!(session.play_due(0).messages, expected);
}
