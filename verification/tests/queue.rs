use midly::live::{LiveEvent, SystemCommon};
use midly::num::u7;
use midly::MidiMessage;
use snmidi::message_queue::{MessageQueue, PopResult};

fn pop(queue: &mut MessageQueue, now: u64) -> Option<Vec<u8>> {
    match queue.pop(now) {
        PopResult::Message(bytes) => Some(bytes.to_vec()),
        _ => None,
    }
}

#[test]
fn a_new_queue_is_empty() {
    let mut queue = MessageQueue::new();
    assert_eq!(queue.end_timestamp(), 0);
    assert!(matches!(queue.pop(u64::MAX), PopResult::Empty));
}

#[test]
fn enqueue_writes_the_event_out() {
    let mut queue = MessageQueue::new();
    let event = LiveEvent::Midi {
        channel: 3.into(),
        message: MidiMessage::NoteOn { key: 60.into(), vel: 127.into() },
    };
    queue.enqueue(&event);
    assert_eq!(pop(&mut queue, 0), Some(vec![0x93, 60, 127]));
    assert!(matches!(queue.pop(0), PopResult::Empty));
}

#[test]
fn enqueue_writes_a_long_event_out() {
    let mut queue = MessageQueue::new();
    let data = [1u8, 2, 3];
    queue.enqueue(&LiveEvent::Common(SystemCommon::SysEx(u7::slice_from_int(&data))));
    queue.enqueue(&LiveEvent::Common(SystemCommon::TuneRequest));
    assert_eq!(pop(&mut queue, 0), Some(vec![0xF0, 1, 2, 3, 0xF7]));
    assert_eq!(pop(&mut queue, 0), Some(vec![0xF6]));
}

#[test]
fn messages_wait_for_their_time() {
    let mut queue = MessageQueue::new();
    queue.add_delta_time(10);
    queue.enqueue_raw(&[1]);
    queue.add_delta_time(5);
    queue.enqueue_raw(&[2, 2]);
    assert_eq!(queue.end_timestamp(), 15);
    assert!(matches!(queue.pop(9), PopResult::NextTimestamp(10)));
    assert_eq!(pop(&mut queue, 10), Some(vec![1]));
    assert!(matches!(queue.pop(14), PopResult::NextTimestamp(15)));
    assert_eq!(pop(&mut queue, 1000), Some(vec![2, 2]));
    assert!(matches!(queue.pop(1000), PopResult::Empty));
}

#[test]
fn first_in_first_out() {
    let mut queue = MessageQueue::new();
    let messages: Vec<Vec<u8>> = (0..200u8).map(|i| vec![i; (i % 7) as usize]).collect();
    queue.enqueue_all(&messages);
    for message in &messages {
        assert_eq!(pop(&mut queue, 0).as_ref(), Some(message));
    }
    assert!(matches!(queue.pop(0), PopResult::Empty));
}

#[test]
fn popping_and_queueing_take_turns() {
    let mut queue = MessageQueue::new();
    for round in 0..100u8 {
        queue.enqueue_raw(&[round, 1, 2]);
        queue.enqueue_raw(&[round, 3]);
        assert_eq!(pop(&mut queue, 0).unwrap().len(), 3 - (round % 2) as usize);
        queue.add_delta_time(0);
    }
    let mut left = 0;
    while pop(&mut queue, 0).is_some() {
        left += 1;
    }
    assert_eq!(left, 100);
}

#[test]
fn reset_forgets_and_goes_back_to_zero() {
    let mut queue = MessageQueue::new();
    queue.add_delta_time(10);
    queue.enqueue_raw(&[1]);
    queue.enqueue_raw(&[2]);
    assert_eq!(pop(&mut queue, 10), Some(vec![1]));
    queue.reset();
    assert_eq!(queue.end_timestamp(), 0);
    assert!(matches!(queue.pop(u64::MAX), PopResult::Empty));
    queue.enqueue_raw(&[3]);
    assert_eq!(pop(&mut queue, 0), Some(vec![3]));
}

#[test]
fn clearing_used_data_keeps_what_waits() {
    let mut queue = MessageQueue::new();
    queue.enqueue_raw(&[1, 2, 3]);
    queue.add_delta_time(4);
    queue.enqueue_raw(&[4, 5]);
    assert_eq!(pop(&mut queue, 0), Some(vec![1, 2, 3]));
    queue.clear_used_data();
    queue.clear_used_data();
    assert_eq!(queue.end_timestamp(), 4);
    assert!(matches!(queue.pop(3), PopResult::NextTimestamp(4)));
    assert_eq!(pop(&mut queue, 4), Some(vec![4, 5]));
    assert!(matches!(queue.pop(4), PopResult::Empty));
}
