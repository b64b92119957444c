//! MIDI messages and byte streams, as `midly` reads and writes them.

use midly::live::LiveEvent;
use midly::stream::{DefaultBuffer, MidiStream};
use midly::MidiMessage;
use vstd::prelude::*;

verus! {

/// `midly::live::LiveEvent`: one MIDI message.
#[verifier::external_type_specification]
#[verifier::external_body]
pub struct ExLiveEvent<'a>(LiveEvent<'a>);

/// `midly::stream::DefaultBuffer`: where a stream keeps the data bytes of an unfinished message.
#[verifier::external_type_specification]
#[verifier::external_body]
pub struct ExDefaultBuffer(DefaultBuffer);

/// `midly::stream::MidiStream`: a parser for MIDI bytes that arrive piece by piece.
#[verifier::external_type_specification]
#[verifier::external_body]
#[verifier::reject_recursive_types(B)]
pub struct ExMidiStream<B>(MidiStream<B>);

/// The raw bytes that an event holds: what `LiveEvent::write` writes of it, status byte first.
pub uninterp spec fn wire_bytes(event: LiveEvent<'_>) -> Seq<u8>;

/// The message that a stream holds unfinished: its status byte and the data bytes that have
/// arrived since. Empty where no message is under way.
pub uninterp spec fn stream_held(stream: MidiStream) -> Seq<u8>;

/// The bytes of each of `messages`.
pub open spec fn raw(messages: Seq<Vec<u8>>) -> Seq<Seq<u8>> {
    messages.map_values(|message: Vec<u8>| message@)
}

/// `messages` with one more at the end, where there is one.
pub open spec fn with_message(messages: Seq<Seq<u8>>, message: Option<Seq<u8>>) -> Seq<Seq<u8>> {
    match message {
        Some(bytes) => messages.push(bytes),
        None => messages,
    }
}

/// The most data bytes that a stream holds of a message: it drops a longer one.
pub open spec fn data_limit() -> nat {
    0x4_0000
}

/// The number of data bytes in a message of that status byte, exclusive and undefined ones aside.
pub open spec fn data_len(status: u8) -> nat {
    if 0xC0 <= status < 0xE0 || status == 0xF1 || status == 0xF3 {
        1
    } else if status == 0xF6 {
        0
    } else {
        2
    }
}

/// The message that a status byte and data bytes make when nothing more comes. An exclusive
/// message is given its end; a channel message that lacks data, and what follows the end of an
/// exclusive message, make none.
pub open spec fn message_made(held: Seq<u8>) -> Option<Seq<u8>> {
    if held[0] == 0xF0 {
        Some(held.push(0xF7))
    } else if held[0] == 0xF7 {
        None
    } else if held[0] == 0xF4 || held[0] == 0xF5 {
        Some(held)
    } else if held.len() > data_len(held[0]) {
        Some(held.take(1 + data_len(held[0]) as int))
    } else if held[0] < 0xF0 {
        None
    } else {
        Some(held)
    }
}

/// What a stream that holds `held` makes of one more byte: what it holds afterwards, and the
/// message that the byte completes, if it completes one.
///
/// A realtime byte is a message of its own and touches nothing else. Another status byte ends the
/// message before it. A data byte counts only behind a status byte, and completes a channel
/// message as soon as that has its data: the status byte then stays for the data that follows.
pub open spec fn fed_byte(held: Seq<u8>, byte: u8) -> (Seq<u8>, Option<Seq<u8>>) {
    if byte >= 0xF8 {
        (held, Some(seq![byte]))
    } else if byte >= 0x80 {
        (
            seq![byte],
            if held.len() == 0 {
                None
            } else {
                message_made(held)
            },
        )
    } else if held.len() == 0 {
        (held, None)
    } else if held.len() > data_limit() {
        (Seq::empty(), None)
    } else if held[0] < 0xF0 && held.len() == data_len(held[0]) {
        (seq![held[0]], Some(held.push(byte)))
    } else {
        (held.push(byte), None)
    }
}

/// What comes of feeding bytes to a stream: what it then holds, and the raw bytes of each message
/// that was completed, in order.
#[verifier::ext_equal]
pub struct Fed {
    pub held: Seq<u8>,
    pub messages: Seq<Seq<u8>>,
}

/// What comes of feeding `bytes`, one after the other, to a stream that holds `held`.
pub open spec fn fed(held: Seq<u8>, bytes: Seq<u8>) -> Fed
    decreases bytes.len(),
{
    if bytes.len() == 0 {
        Fed { held, messages: Seq::empty() }
    } else {
        let before = fed(held, bytes.drop_last());
        let (after, message) = fed_byte(before.held, bytes.last());
        Fed { held: after, messages: with_message(before.messages, message) }
    }
}

/// The messages that a flush brings out of a stream that holds `held`: none where nothing is held.
pub open spec fn flushed(held: Seq<u8>) -> Seq<Seq<u8>> {
    if held.len() == 0 {
        Seq::empty()
    } else {
        with_message(Seq::empty(), message_made(held))
    }
}

/// The messages of a closed piece of MIDI: those that a fresh stream completes while `bytes` are
/// fed to it, and the one that a flush at the end brings out.
pub open spec fn messages_of(bytes: Seq<u8>) -> Seq<Seq<u8>> {
    fed(Seq::empty(), bytes).messages + flushed(fed(Seq::empty(), bytes).held)
}

/// Whether a stream can come to hold `held`: a status byte that is no realtime byte, and data
/// bytes, fewer than make a channel message.
pub open spec fn held_wf(held: Seq<u8>) -> bool {
    held.len() > 0 ==> {
        &&& 0x80 <= held[0] < 0xF8
        &&& held.len() <= 1 + data_limit()
        &&& held[0] < 0xF0 ==> held.len() <= data_len(held[0])
        &&& forall|i: int| 0 < i < held.len() ==> #[trigger] held[i] < 0x80
    }
}

/// Whether `message` stands on its own: its status byte comes first, the rest is data, a channel
/// message has all of its data and an exclusive message its end.
pub open spec fn standalone(message: Seq<u8>) -> bool {
    &&& message.len() > 0
    &&& message[0] >= 0x80
    &&& message[0] < 0xF0 ==> message.len() == 1 + data_len(message[0])
    &&& message[0] >= 0xF8 ==> message.len() == 1
    &&& message[0] == 0xF0 ==> message.len() >= 2 && message.last() == 0xF7
    &&& forall|i: int|
        0 < i < message.len() && !(message[0] == 0xF0 && i == message.len() - 1)
            ==> #[trigger] message[i] < 0x80
}

/// Whether each of `messages` stands on its own.
pub open spec fn all_standalone(messages: Seq<Seq<u8>>) -> bool {
    forall|i: int| 0 <= i < messages.len() ==> standalone(#[trigger] messages[i])
}

/// A stream may be fed in pieces: `first` and then `second` come to the same as both at once.
pub proof fn law_feed_in_pieces(held: Seq<u8>, first: Seq<u8>, second: Seq<u8>)
    ensures
        fed(held, first + second) == (Fed {
            held: fed(fed(held, first).held, second).held,
            messages: fed(held, first).messages + fed(fed(held, first).held, second).messages,
        }),
    decreases second.len(),
{
    if second.len() == 0 {
        assert(first + second =~= first);
        assert(fed(held, first).messages + Seq::<Seq<u8>>::empty() =~= fed(held, first).messages);
    } else {
        law_feed_in_pieces(held, first, second.drop_last());
        assert((first + second).drop_last() =~= first + second.drop_last());
        assert((first + second).last() == second.last());
        let before = fed(fed(held, first).held, second.drop_last());
        let message = fed_byte(before.held, second.last()).1;
        assert(with_message(fed(held, first).messages + before.messages, message)
            =~= fed(held, first).messages + with_message(before.messages, message));
    }
}

/// Feeding nothing changes nothing and brings nothing out, and feeding one byte is what `fed_byte`
/// says.
pub proof fn law_feed_one(held: Seq<u8>, byte: u8)
    ensures
        fed(held, Seq::empty()).held == held,
        fed(held, Seq::empty()).messages.len() == 0,
        fed(held, seq![byte]).held == fed_byte(held, byte).0,
        fed(held, seq![byte]).messages == match fed_byte(held, byte).1 {
            Some(message) => seq![message],
            None => Seq::empty(),
        },
{
    assert(seq![byte].drop_last() =~= Seq::<u8>::empty());
    reveal_with_fuel(fed, 2);
    assert(fed(held, seq![byte]).messages =~= match fed_byte(held, byte).1 {
        Some(message) => seq![message],
        None => Seq::empty(),
    });
}

/// A realtime byte is a message of its own wherever it comes, and touches nothing else.
pub proof fn law_realtime(held: Seq<u8>, byte: u8)
    requires
        byte >= 0xF8,
    ensures
        fed(held, seq![byte]).held == held,
        fed(held, seq![byte]).messages == seq![seq![byte]],
{
    law_feed_one(held, byte);
}

/// Any other status byte brings out what a flush would, and starts a message.
pub proof fn law_status_ends_message(held: Seq<u8>, byte: u8)
    requires
        0x80 <= byte < 0xF8,
    ensures
        fed(held, seq![byte]).held == seq![byte],
        fed(held, seq![byte]).messages == flushed(held),
{
    law_feed_one(held, byte);
    assert(fed(held, seq![byte]).messages =~= flushed(held));
}

/// What a flush makes of system messages: an exclusive message is given its end, a tune request
/// stands alone, and song position, song select and time code come with their data.
pub proof fn law_system_flushed(held: Seq<u8>)
    requires
        held.len() > 0,
    ensures
        held[0] == 0xF0 ==> flushed(held) == seq![held.push(0xF7)],
        held[0] == 0xF6 ==> flushed(held) == seq![seq![0xF6u8]],
        (held[0] == 0xF1 || held[0] == 0xF3) && held.len() >= 2 ==> flushed(held) == seq![
            seq![held[0], held[1]],
        ],
        held[0] == 0xF2 && held.len() >= 3 ==> flushed(held) == seq![
            seq![0xF2u8, held[1], held[2]],
        ],
        held[0] == 0xF4 || held[0] == 0xF5 ==> flushed(held) == seq![held],
        (held[0] == 0xF1 || held[0] == 0xF3) && held.len() == 1 ==> flushed(held) == seq![held],
        held[0] == 0xF2 && held.len() <= 2 ==> flushed(held) == seq![held],
        held[0] == 0xF7 ==> flushed(held).len() == 0,
        flushed(Seq::empty()).len() == 0,
{
    if let Some(message) = message_made(held) {
        assert(flushed(held) =~= seq![message]);
        if held[0] == 0xF6 {
            assert(message =~= seq![0xF6u8]);
        }
        if (held[0] == 0xF1 || held[0] == 0xF3) && held.len() >= 2 {
            assert(message =~= seq![held[0], held[1]]);
        }
        if held[0] == 0xF2 && held.len() >= 3 {
            assert(message =~= seq![0xF2u8, held[1], held[2]]);
        }
    }
}

/// Program changes and channel pressure are complete with one data byte, other channel messages
/// with two; the status byte stays for data that follows it without one.
pub proof fn law_channel_message(status: u8, first: u8, second: u8)
    requires
        0x80 <= status < 0xF0,
        first < 0x80,
        second < 0x80,
    ensures
        0xC0 <= status < 0xE0 ==> {
            let fed = fed(seq![status], seq![first]);
            fed.messages == seq![seq![status, first]] && fed.held == seq![status]
        },
        !(0xC0 <= status < 0xE0) ==> {
            let half = fed(seq![status], seq![first]);
            let fed = fed(seq![status, first], seq![second]);
            &&& half.messages.len() == 0 && half.held == seq![status, first]
            &&& fed.messages == seq![seq![status, first, second]] && fed.held == seq![status]
        },
        !(0xC0 <= status < 0xE0) ==> flushed(seq![status, first]).len() == 0,
        flushed(seq![status]).len() == 0,
{
    law_feed_one(seq![status], first);
    law_feed_one(seq![status, first], second);
    assert(seq![status].push(first) =~= seq![status, first]);
    assert(seq![status, first].push(second) =~= seq![status, first, second]);
}

/// An exclusive message of up to 256 KiB of data comes out whole with its end, and not before.
pub proof fn law_sysex_whole(data: Seq<u8>)
    requires
        data.len() <= 0x4_0000,
        forall|i: int| 0 <= i < data.len() ==> #[trigger] data[i] < 0x80,
    ensures
        fed(Seq::empty(), seq![0xF0u8] + data).messages.len() == 0,
        fed(Seq::empty(), seq![0xF0u8] + data).held == seq![0xF0u8] + data,
        fed(Seq::empty(), seq![0xF0u8] + data + seq![0xF7u8]).messages == seq![
            seq![0xF0u8] + data + seq![0xF7u8],
        ],
{
    let open = seq![0xF0u8] + data;
    let whole = open + seq![0xF7u8];
    assert(whole.drop_last() =~= open);
    assert(is_open_sysex(open));
    law_sysex(open);
    law_sysex(whole);
}

/// The raw bytes of messages are those of each of them, none left out.
pub proof fn law_raw_of_each(messages: Seq<Vec<u8>>)
    ensures
        raw(messages).len() == messages.len(),
        forall|i: int| 0 <= i < messages.len() ==> #[trigger] raw(messages)[i] == messages[i]@,
{
}

/// Every message that a stream brings out stands on its own, whatever it is fed.
pub proof fn law_standalone(held: Seq<u8>, bytes: Seq<u8>)
    requires
        held_wf(held),
    ensures
        held_wf(fed(held, bytes).held),
        all_standalone(fed(held, bytes).messages),
        all_standalone(flushed(fed(held, bytes).held)),
    decreases bytes.len(),
{
    if bytes.len() > 0 {
        law_standalone(held, bytes.drop_last());
        let before = fed(held, bytes.drop_last());
        let byte = bytes.last();
        let (after, message) = fed_byte(before.held, byte);
        assert(held_wf(after));
        assert(message matches Some(message) ==> standalone(message));
    }
}

/// Data bytes without a status byte in front of them are passed over.
pub proof fn law_data_without_status(data: Seq<u8>, rest: Seq<u8>)
    requires
        forall|i: int| 0 <= i < data.len() ==> #[trigger] data[i] < 0x80,
    ensures
        fed(Seq::empty(), data + rest) == fed(Seq::empty(), rest),
        messages_of(data + rest) == messages_of(rest),
        messages_of(data).len() == 0,
    decreases data.len(),
{
    lemma_data_passed_over(data);
    law_feed_in_pieces(Seq::empty(), data, rest);
    assert(fed(Seq::empty(), data + rest) =~= fed(Seq::empty(), rest));
}

proof fn lemma_data_passed_over(data: Seq<u8>)
    requires
        forall|i: int| 0 <= i < data.len() ==> #[trigger] data[i] < 0x80,
    ensures
        fed(Seq::empty(), data) == (Fed { held: Seq::empty(), messages: Seq::empty() }),
    decreases data.len(),
{
    if data.len() > 0 {
        lemma_data_passed_over(data.drop_last());
    }
}

/// Whether `bytes` are the status byte of a channel message and nothing but data bytes after it.
pub open spec fn is_run(bytes: Seq<u8>) -> bool {
    &&& bytes.len() > 0
    &&& 0x80 <= bytes[0] < 0xF0
    &&& forall|i: int| 0 < i < bytes.len() ==> #[trigger] bytes[i] < 0x80
}

/// The messages of a run: as soon as there is data for a message it is one, and the status byte
/// goes for each of them.
pub open spec fn run_messages(run: Seq<u8>) -> Seq<Seq<u8>> {
    if data_len(run[0]) == 1 {
        Seq::new((run.len() - 1) as nat, |i: int| seq![run[0], run[i + 1]])
    } else {
        Seq::new(
            ((run.len() - 1) / 2) as nat,
            |i: int| seq![run[0], run[2 * i + 1], run[2 * i + 2]],
        )
    }
}

/// What a run leaves behind: its status byte, and a data byte that makes no message yet.
pub open spec fn run_held(run: Seq<u8>) -> Seq<u8> {
    if data_len(run[0]) == 1 || run.len() % 2 == 1 {
        seq![run[0]]
    } else {
        seq![run[0], run.last()]
    }
}

/// Running status is written out: each message of a run comes with the run's status byte, and
/// nothing comes of what is left over.
pub proof fn law_running_status(run: Seq<u8>)
    requires
        is_run(run),
    ensures
        fed(Seq::empty(), run) == (Fed { held: run_held(run), messages: run_messages(run) }),
        messages_of(run) == run_messages(run),
    decreases run.len(),
{
    let part = run.drop_last();
    if run.len() == 1 {
        assert(part =~= Seq::<u8>::empty());
        assert(run =~= seq![run[0]]);
        assert(run_messages(run) =~= Seq::empty());
    } else {
        law_running_status(part);
        assert(forall|i: int| 0 <= i < part.len() ==> part[i] == run[i]);
        let message = fed_byte(run_held(part), run.last()).1;
        assert(run_messages(run) =~= with_message(run_messages(part), message)) by {
            if data_len(run[0]) == 1 {
                assert(run_held(part).push(run.last()) =~= seq![run[0], run.last()]);
            } else if run.len() % 2 == 1 {
                assert(run_held(part).push(run.last())
                    =~= seq![run[0], run[run.len() - 2], run[run.len() - 1]]);
            }
        }
        assert(fed(Seq::empty(), run).held =~= run_held(run));
    }
    law_run_flushes_to_nothing(run_held(run));
    assert(messages_of(run) =~= run_messages(run));
}

/// A channel message that lacks data is dropped at a flush.
pub proof fn law_run_flushes_to_nothing(held: Seq<u8>)
    requires
        held_wf(held),
        is_run(held),
    ensures
        flushed(held).len() == 0,
{
}

/// Where a new message starts, what a stream held of a channel message, or behind an exclusive
/// message, is forgotten.
pub proof fn law_new_message_forgets(held: Seq<u8>, bytes: Seq<u8>)
    requires
        held_wf(held),
        is_run(held) || held.len() == 0 || held[0] == 0xF7,
        bytes.len() > 0,
        0x80 <= bytes[0] < 0xF8,
    ensures
        fed(held, bytes) == fed(Seq::empty(), bytes),
{
    let first = seq![bytes[0]];
    let rest = bytes.skip(1);
    assert(first + rest =~= bytes);
    law_feed_in_pieces(held, first, rest);
    law_feed_in_pieces(Seq::empty(), first, rest);
    assert(first.drop_last() =~= Seq::<u8>::empty());
    reveal_with_fuel(fed, 2);
    assert(fed(held, first) =~= fed(Seq::empty(), first));
}

/// Whether `bytes` are the start of an exclusive message, its end not yet there.
pub open spec fn is_open_sysex(bytes: Seq<u8>) -> bool {
    &&& 1 <= bytes.len() <= 1 + data_limit()
    &&& bytes[0] == 0xF0
    &&& forall|i: int| 0 < i < bytes.len() ==> #[trigger] bytes[i] < 0x80
}

/// Whether `bytes` are an exclusive message, start to end.
pub open spec fn is_sysex(bytes: Seq<u8>) -> bool {
    bytes.len() > 0 && bytes.last() == 0xF7 && is_open_sysex(bytes.drop_last())
}

/// An exclusive message is held until its end arrives, and then comes out whole.
pub proof fn law_sysex(bytes: Seq<u8>)
    ensures
        is_open_sysex(bytes) ==> fed(Seq::empty(), bytes) == (Fed {
            held: bytes,
            messages: Seq::empty(),
        }),
        is_sysex(bytes) ==> fed(Seq::empty(), bytes) == (Fed {
            held: seq![0xF7],
            messages: seq![bytes],
        }),
    decreases bytes.len(),
{
    if bytes.len() > 0 {
        let part = bytes.drop_last();
        law_sysex(part);
        let before = fed(Seq::empty(), part);
        assert(part.push(bytes.last()) =~= bytes);
        if is_open_sysex(bytes) {
            if bytes.len() == 1 {
                assert(before.held.len() == 0);
                assert(seq![bytes.last()] =~= bytes);
            } else {
                assert(bytes.last() == bytes[bytes.len() - 1]);
                assert(is_open_sysex(part));
            }
            assert(fed_byte(before.held, bytes.last()) == (bytes, None::<Seq<u8>>));
        }
        if is_sysex(bytes) {
            assert(fed(Seq::empty(), bytes).messages =~= seq![bytes]);
        }
    }
}

/// `LiveEvent::write`, into a vector: appends the event's raw bytes. It does not fail there.
#[verifier::external_body]
pub(crate) fn write_event(event: &LiveEvent<'_>, out: &mut Vec<u8>)
    ensures
        final(out)@ == old(out)@ + wire_bytes(*event),
{
    event.write(out).unwrap();
}

/// A `LiveEvent::Midi` with a `MidiMessage::Controller`: on the wire it is the status byte of a
/// controller change on that channel, the controller's number and the value.
#[verifier::external_body]
pub(crate) fn controller_event(channel: u8, controller: u8, value: u8) -> (event: LiveEvent<
    'static,
>)
    requires
        channel < 16,
        controller < 128,
        value < 128,
    ensures
        wire_bytes(event) == seq![(0xB0 + channel) as u8, controller, value],
{
    LiveEvent::Midi {
        channel: channel.into(),
        message: MidiMessage::Controller { controller: controller.into(), value: value.into() },
    }
}

/// `MidiStream::new`: a stream that holds nothing.
#[verifier::external_body]
pub(crate) fn new_stream() -> (stream: MidiStream)
    ensures
        stream_held(stream) == Seq::<u8>::empty(),
{
    MidiStream::new()
}

/// Adds the raw bytes of `event` to `messages`.
pub fn push_event(messages: &mut Vec<Vec<u8>>, event: &LiveEvent<'_>)
    ensures
        raw(final(messages)@) == raw(old(messages)@).push(wire_bytes(*event)),
{
    let mut bytes: Vec<u8> = Vec::new();
    write_event(event, &mut bytes);
    assert(bytes@ =~= wire_bytes(*event));
    messages.push(bytes);
    assert(raw(messages@) =~= raw(old(messages)@).push(wire_bytes(*event)));
}

/// `MidiStream::feed`: takes the bytes one by one, each as `fed_byte` says, and hands each message
/// to `push_event` as soon as it is complete.
#[verifier::external_body]
pub(crate) fn feed_stream(stream: &mut MidiStream, bytes: &[u8], messages: &mut Vec<Vec<u8>>)
    ensures
        stream_held(*final(stream)) == fed(stream_held(*old(stream)), bytes@).held,
        raw(final(messages)@) == raw(old(messages)@) + fed(
            stream_held(*old(stream)),
            bytes@,
        ).messages,
{
    stream.feed(bytes, |event| push_event(messages, &event));
}

/// `MidiStream::flush`: hands what `message_made` says of the bytes held to `push_event`, where
/// there are any, and holds nothing from then on.
#[verifier::external_body]
pub(crate) fn flush_stream(stream: &mut MidiStream, messages: &mut Vec<Vec<u8>>)
    ensures
        stream_held(*final(stream)) == Seq::<u8>::empty(),
        raw(final(messages)@) == raw(old(messages)@) + flushed(stream_held(*old(stream))),
{
    stream.flush(|event| push_event(messages, &event));
}

} // verus!
