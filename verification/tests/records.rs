use snmidi::data_packet::QueueParser;
use snmidi::message_queue::{MessageQueue, PopResult};

const TWO_NOTES: &[u8] = &[
    0x00, 0x00, 0x00, 0x03, 0x90, 0x3C, 0x7F, 0x00, 0x64, 0x00, 0x05, 0x90, 0x3C, 0x00, 0x3E, 0x7F,
    0x00, 0x64, 0x00, 0x03, 0x80, 0x3E, 0x00,
];

fn drain(queue: &mut MessageQueue) -> Vec<(u64, Vec<u8>)> {
    let mut messages = Vec::new();
    let mut now = 0;
    loop {
        match queue.pop(now) {
            PopResult::Message(bytes) => messages.push((now, bytes.to_vec())),
            PopResult::NextTimestamp(next) => now = next,
            PopResult::Empty => return messages,
        }
    }
}

fn play(pieces: &[&[u8]]) -> (Vec<(u64, Vec<u8>)>, u64) {
    let mut parser = QueueParser::new();
    let mut queue = MessageQueue::new();
    for piece in pieces {
        parser.feed(piece, &mut queue);
    }
    (drain(&mut queue), queue.end_timestamp())
}

#[test]
fn two_notes_one_after_the_other() {
    let expected = vec![
        (0, vec![0x90, 0x3C, 0x7F]),
        (100, vec![0x90, 0x3C, 0x00]),
        (100, vec![0x90, 0x3E, 0x7F]),
        (200, vec![0x80, 0x3E, 0x00]),
    ];
    assert_eq!(play(&[TWO_NOTES]), (expected, 200));
}

#[test]
fn records_may_be_split_anywhere() {
    let whole = play(&[TWO_NOTES]);
    for first in 0..=TWO_NOTES.len() {
        for second in first..=TWO_NOTES.len() {
            let pieces =
                [&TWO_NOTES[..first], &TWO_NOTES[first..second], &TWO_NOTES[second..]];
            assert_eq!(play(&pieces), whole);
        }
    }
}

#[test]
fn running_status_does_not_reach_into_the_next_record() {
    let bytes =
        [0, 0, 0, 3, 0x90, 0x3C, 0x7F, 0, 0, 0, 2, 0x3E, 0x7F, 0, 0, 0, 3, 0x80, 0x3C, 0x00];
    let expected = vec![(0, vec![0x90, 0x3C, 0x7F]), (0, vec![0x80, 0x3C, 0x00])];
    assert_eq!(play(&[&bytes]), (expected, 0));
}

#[test]
fn a_record_without_midi_is_silence() {
    let bytes = [0xFF, 0xFF, 0, 0, 0xFF, 0xFF, 0, 0, 0x00, 0x01, 0, 1, 0xF8];
    assert_eq!(play(&[&bytes]), (vec![(131_071, vec![0xF8])], 131_071));
}

#[test]
fn a_message_without_an_end_is_queued_with_its_record() {
    let bytes = [0, 5, 0, 3, 0xF0, 0x01, 0x02];
    let expected = (vec![(5, vec![0xF0, 0x01, 0x02, 0xF7])], 5);
    assert_eq!(play(&[&bytes]), expected);
    assert_eq!(play(&[&bytes, &[0]]), expected);
    assert_eq!(play(&[&bytes[..6]]), (vec![], 5));
}

#[test]
fn a_system_message_at_the_end_of_a_record_is_queued() {
    for message in [vec![0xF6], vec![0xF1, 0x25], vec![0xF2, 0x01, 0x02], vec![0xF3, 0x07]] {
        let mut bytes = vec![0, 9, 0, message.len() as u8];
        bytes.extend_from_slice(&message);
        assert_eq!(play(&[&bytes]), (vec![(9, message)], 9));
    }
}

#[test]
fn a_truncated_message_is_dropped_with_its_record() {
    let bytes = [0, 0, 0, 2, 0x90, 0x3C, 0, 0, 0, 1, 0xFA];
    assert_eq!(play(&[&bytes]), (vec![(0, vec![0xFA])], 0));
}

#[test]
fn lengths_use_both_bytes() {
    let mut bytes = vec![0x01, 0x02, 0x01, 0x02];
    bytes.extend(std::iter::repeat(0xFE).take(0x102));
    let (messages, end) = play(&[&bytes]);
    assert_eq!(end, 0x102);
    assert_eq!(messages.len(), 0x102);
    assert!(messages.iter().all(|message| *message == (0x102, vec![0xFE])));
}

#[test]
fn reset_forgets_the_record_under_way() {
    for cut in 0..TWO_NOTES.len() {
        let mut parser = QueueParser::new();
        let mut queue = MessageQueue::new();
        parser.feed(&TWO_NOTES[..cut], &mut queue);
        parser.reset();
        queue.reset();
        parser.feed(TWO_NOTES, &mut queue);
        assert_eq!((drain(&mut queue), queue.end_timestamp()), play(&[TWO_NOTES]));
    }
}

#[test]
fn delay_is_what_feeding_adds() {
    for cut in 0..TWO_NOTES.len() {
        let mut parser = QueueParser::new();
        let mut queue = MessageQueue::new();
        parser.feed(&TWO_NOTES[..cut], &mut queue);
        let before = queue.end_timestamp() as u128;
        let delay = parser.delay(&TWO_NOTES[cut..]);
        parser.feed(&TWO_NOTES[cut..], &mut queue);
        assert_eq!(before + delay, queue.end_timestamp() as u128);
    }
    assert_eq!(QueueParser::new().delay(TWO_NOTES), 200);
    assert_eq!(QueueParser::new().delay(&[]), 0);
}
