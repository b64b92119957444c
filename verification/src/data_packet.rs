//! Datagrams: their header, and the records that queue packets carry.

use midly::stream::MidiStream;
use vstd::prelude::*;
use vstd::slice::slice_subrange;

use crate::message_queue::{MessageQueue, QueuedMessage, Timeline};
use crate::midi::{feed_stream, flush_stream, new_stream};

verus! {

/// What the payload of a datagram is.
#[derive(Debug, Clone, Copy)]
pub enum Kind {
    /// Raw MIDI to play at once, after the queue was cleared where `reset_queue` says so.
    Instant { reset_queue: bool },
    /// Records for the queue.
    Queue,
}

/// A datagram, its header read.
#[derive(Debug)]
pub struct Packet<'a> {
    pub seqnum: u32,
    pub kind: Kind,
    pub data: &'a [u8],
}

/// The header's letter for a kind.
pub open spec fn kind_code(kind: Kind) -> u8 {
    match kind {
        Kind::Instant { reset_queue: false } => 0x69,
        Kind::Instant { reset_queue: true } => 0x72,
        Kind::Queue => 0x71,
    }
}

/// The kind that a letter of the header stands for: `i`, `q` or `r`.
pub open spec fn kind_of(code: u8) -> Option<Kind> {
    if code == 0x69 {
        Some(Kind::Instant { reset_queue: false })
    } else if code == 0x71 {
        Some(Kind::Queue)
    } else if code == 0x72 {
        Some(Kind::Instant { reset_queue: true })
    } else {
        None
    }
}

/// The number that two bytes stand for, the high one first.
pub open spec fn be16(high: u8, low: u8) -> nat {
    (high * 0x100 + low) as nat
}

/// The number that four bytes stand for, the highest first.
pub open spec fn be32(a: u8, b: u8, c: u8, d: u8) -> nat {
    (a * 0x100_0000 + b * 0x1_0000 + c * 0x100 + d) as nat
}

/// A datagram as plain values.
pub struct PacketView {
    pub seqnum: nat,
    pub kind: Kind,
    pub data: Seq<u8>,
}

impl View for Packet<'_> {
    type V = PacketView;

    open spec fn view(&self) -> PacketView {
        PacketView { seqnum: self.seqnum as nat, kind: self.kind, data: self.data@ }
    }
}

/// The bytes of a datagram: `SNM`, the kind's letter, the sequence number, the payload.
pub open spec fn datagram(packet: PacketView) -> Seq<u8> {
    seq![
        0x53,
        0x4E,
        0x4D,
        kind_code(packet.kind),
        (packet.seqnum / 0x100_0000) as u8,
        (packet.seqnum / 0x1_0000 % 0x100) as u8,
        (packet.seqnum / 0x100 % 0x100) as u8,
        (packet.seqnum % 0x100) as u8,
    ] + packet.data
}

/// What the bytes of a datagram say, where they start with a header.
pub open spec fn parsed(bytes: Seq<u8>) -> Option<PacketView> {
    if bytes.len() < 8 || bytes[0] != 0x53 || bytes[1] != 0x4E || bytes[2] != 0x4D {
        None
    } else {
        match kind_of(bytes[3]) {
            None => None,
            Some(kind) => Some(
                PacketView {
                    seqnum: be32(bytes[4], bytes[5], bytes[6], bytes[7]),
                    kind,
                    data: bytes.skip(8),
                },
            ),
        }
    }
}

/// What the bytes of a datagram say: after `SNM` come the letter `i`, `q` or `r`, four bytes of
/// sequence number, the highest first, and the payload; anything else is no datagram.
pub proof fn law_header_layout(bytes: Seq<u8>)
    ensures
        parsed(bytes) is Some <==> {
            &&& bytes.len() >= 8
            &&& bytes[0] == 0x53 && bytes[1] == 0x4E && bytes[2] == 0x4D
            &&& bytes[3] == 0x69 || bytes[3] == 0x71 || bytes[3] == 0x72
        },
        parsed(bytes) matches Some(packet) ==> {
            &&& packet.seqnum == bytes[4] * 0x100_0000 + bytes[5] * 0x1_0000 + bytes[6] * 0x100
                + bytes[7]
            &&& packet.kind == (Kind::Instant { reset_queue: false }) <==> bytes[3] == 0x69
            &&& packet.kind == (Kind::Instant { reset_queue: true }) <==> bytes[3] == 0x72
            &&& packet.kind is Queue <==> bytes[3] == 0x71
            &&& packet.data.len() == bytes.len() - 8
            &&& forall|i: int| 0 <= i < packet.data.len() ==> packet.data[i] == bytes[i + 8]
        },
{
}

/// Reading a datagram gives back what it was written from.
pub proof fn law_header_read_back(packet: PacketView)
    requires
        packet.seqnum <= u32::MAX,
    ensures
        parsed(datagram(packet)) == Some(packet),
{
    let bytes = datagram(packet);
    let seqnum = packet.seqnum;
    assert(be32(bytes[4], bytes[5], bytes[6], bytes[7]) == seqnum) by {
        assert(seqnum / 0x100_0000 <= 0xFF);
        assert(seqnum == seqnum / 0x100_0000 * 0x100_0000 + seqnum / 0x1_0000 % 0x100 * 0x1_0000
            + seqnum / 0x100 % 0x100 * 0x100 + seqnum % 0x100);
    }
    assert(bytes.skip(8) =~= packet.data);
}

/// Every datagram that can be read is the one that is written from what was read.
pub proof fn law_header_written_back(bytes: Seq<u8>)
    requires
        parsed(bytes) is Some,
    ensures
        parsed(bytes).unwrap().seqnum <= u32::MAX,
        datagram(parsed(bytes).unwrap()) == bytes,
{
    let packet = parsed(bytes).unwrap();
    let seqnum = packet.seqnum;
    let (a, b, c, d) = (bytes[4], bytes[5], bytes[6], bytes[7]);
    assert(seqnum / 0x100_0000 == a);
    assert(seqnum / 0x1_0000 == a * 0x100 + b);
    assert(seqnum / 0x1_0000 % 0x100 == b);
    assert(seqnum / 0x100 == a * 0x1_0000 + b * 0x100 + c);
    assert(seqnum / 0x100 % 0x100 == c);
    assert(seqnum % 0x100 == d);
    assert(datagram(packet) =~= bytes);
}

impl<'a> Packet<'a> {
    /// Reads the header of a datagram; `None` where the datagram has none.
    pub fn parse_header(data: &'a [u8]) -> (packet: Option<Self>)
        ensures
            match packet {
                Some(packet) => parsed(data@) == Some(packet@),
                None => parsed(data@) is None,
            },
            packet is Some <==> {
                &&& data@.len() >= 8
                &&& data@[0] == 0x53 && data@[1] == 0x4E && data@[2] == 0x4D
                &&& data@[3] == 0x69 || data@[3] == 0x71 || data@[3] == 0x72
            },
            packet matches Some(packet) ==> {
                &&& packet.seqnum == data@[4] * 0x100_0000 + data@[5] * 0x1_0000 + data@[6] * 0x100
                    + data@[7]
                &&& packet.kind == (Kind::Instant { reset_queue: false }) <==> data@[3] == 0x69
                &&& packet.kind == (Kind::Instant { reset_queue: true }) <==> data@[3] == 0x72
                &&& packet.kind is Queue <==> data@[3] == 0x71
                &&& packet.data@ == data@.skip(8)
            },
    {
        if data.len() < 8 {
            return None;
        }
        if data[0] != 0x53 || data[1] != 0x4E || data[2] != 0x4D {
            return None;
        }
        let kind = match data[3] {
            0x69 => Kind::Instant { reset_queue: false },
            0x71 => Kind::Queue,
            0x72 => Kind::Instant { reset_queue: true },
            _ => return None,
        };
        let seqnum: u32 = data[4] as u32 * 0x100_0000 + data[5] as u32 * 0x1_0000 + data[6] as u32
            * 0x100 + data[7] as u32;
        let rest = slice_subrange(data, 8, data.len());
        assert(rest@ =~= data@.skip(8));
        Some(Self { seqnum, kind, data: rest })
    }
}

/// Whether `record` has all the bytes that its header speaks of.
pub open spec fn record_complete(record: Seq<u8>) -> bool {
    record.len() >= 4 && record.len() == 4 + be16(record[2], record[3])
}

/// What a stream holds that was fed the bytes of `record` beyond its header.
pub open spec fn record_held(record: Seq<u8>) -> Seq<u8> {
    if record.len() <= 4 {
        Seq::empty()
    } else {
        crate::midi::fed(Seq::empty(), record.skip(4)).held
    }
}

/// The bytes of the record under way after one more byte: none where the byte completes it.
pub open spec fn record_with(record: Seq<u8>, byte: u8) -> Seq<u8> {
    if record_complete(record.push(byte)) {
        Seq::empty()
    } else {
        record.push(byte)
    }
}

/// The bytes of the record under way after more bytes.
pub open spec fn record_after(record: Seq<u8>, bytes: Seq<u8>) -> Seq<u8>
    decreases bytes.len(),
{
    if bytes.len() == 0 {
        record
    } else {
        record_with(record_after(record, bytes.drop_last()), bytes.last())
    }
}

/// The delay that a record asks for at the byte that completes its delta time.
pub open spec fn record_delay(record: Seq<u8>) -> nat {
    if record.len() == 2 {
        be16(record[0], record[1])
    } else {
        0
    }
}

/// The sum of the delays that `bytes` ask for where they follow on `record`.
pub open spec fn total_delay(record: Seq<u8>, bytes: Seq<u8>) -> nat
    decreases bytes.len(),
{
    if bytes.len() == 0 {
        0
    } else {
        total_delay(record, bytes.drop_last()) + record_delay(record_after(record, bytes))
    }
}

/// A parser and the queue that it fills: the bytes of the record under way, and the timeline.
#[verifier::ext_equal]
pub struct Parsing {
    pub record: Seq<u8>,
    pub timeline: Timeline,
}

impl Parsing {
    /// One more byte of the record: of its header, whose first two bytes are a delay, or of its
    /// MIDI.
    pub open spec fn taken(self, byte: u8) -> Parsing {
        let record = self.record.push(byte);
        let message = crate::midi::fed_byte(record_held(self.record), byte).1;
        Parsing {
            record,
            timeline: if record.len() > 4 {
                self.timeline.enqueued_all(crate::midi::with_message(Seq::empty(), message))
            } else {
                self.timeline.delayed(record_delay(record))
            },
        }
    }

    /// Where the record is complete, what its stream still holds is queued and the record is over.
    pub open spec fn finished(self) -> Parsing {
        if record_complete(self.record) {
            Parsing {
                record: Seq::empty(),
                timeline: self.timeline.enqueued_all(
                    crate::midi::flushed(record_held(self.record)),
                ),
            }
        } else {
            self
        }
    }

    /// One more byte, and the end of the record where that was its last.
    pub open spec fn with_byte(self, byte: u8) -> Parsing {
        self.taken(byte).finished()
    }

    /// More bytes, one after the other.
    pub open spec fn with_bytes(self, bytes: Seq<u8>) -> Parsing
        decreases bytes.len(),
    {
        if bytes.len() == 0 {
            self
        } else {
            self.with_bytes(bytes.drop_last()).with_byte(bytes.last())
        }
    }
}

/// Bytes may be split between packets anywhere: `first` and then `second` come to the same as
/// both at once.
pub proof fn law_parse_in_pieces(parsing: Parsing, first: Seq<u8>, second: Seq<u8>)
    ensures
        parsing.with_bytes(first + second) == parsing.with_bytes(first).with_bytes(second),
    decreases second.len(),
{
    if second.len() == 0 {
        assert(first + second =~= first);
    } else {
        law_parse_in_pieces(parsing, first, second.drop_last());
        assert((first + second).drop_last() =~= first + second.drop_last());
        assert((first + second).last() == second.last());
    }
}

proof fn lemma_delay_in_pieces(record: Seq<u8>, first: Seq<u8>, second: Seq<u8>)
    ensures
        record_after(record, first + second) == record_after(record_after(record, first), second),
        total_delay(record, first + second) == total_delay(record, first) + total_delay(
            record_after(record, first),
            second,
        ),
    decreases second.len(),
{
    if second.len() == 0 {
        assert(first + second =~= first);
    } else {
        lemma_delay_in_pieces(record, first, second.drop_last());
        assert((first + second).drop_last() =~= first + second.drop_last());
        assert((first + second).last() == second.last());
    }
}

/// The end of the timeline moves by the sum of the delays.
pub proof fn law_delays_add_up(parsing: Parsing, bytes: Seq<u8>)
    ensures
        parsing.with_bytes(bytes).record == record_after(parsing.record, bytes),
        parsing.with_bytes(bytes).timeline.end == parsing.timeline.end + total_delay(
            parsing.record,
            bytes,
        ),
    decreases bytes.len(),
{
    if bytes.len() > 0 {
        law_delays_add_up(parsing, bytes.drop_last());
    }
}

/// The messages that `bytes` add to a queue where they follow on `record` and the timeline ends
/// at `end`.
pub open spec fn added(record: Seq<u8>, end: nat, bytes: Seq<u8>) -> Seq<QueuedMessage> {
    Parsing { record, timeline: Timeline { pending: Seq::empty(), end } }.with_bytes(
        bytes,
    ).timeline.pending
}

/// What bytes add to a queue does not depend on what waits there.
pub proof fn lemma_added(parsing: Parsing, bytes: Seq<u8>)
    ensures
        parsing.with_bytes(bytes).timeline.pending == parsing.timeline.pending + added(
            parsing.record,
            parsing.timeline.end,
            bytes,
        ),
        parsing.with_bytes(bytes).record == record_after(parsing.record, bytes),
        parsing.with_bytes(bytes).timeline.end == parsing.timeline.end + total_delay(
            parsing.record,
            bytes,
        ),
    decreases bytes.len(),
{
    law_delays_add_up(parsing, bytes);
    let waiting = parsing.timeline.pending;
    let alone = Parsing {
        record: parsing.record,
        timeline: Timeline { pending: Seq::empty(), end: parsing.timeline.end },
    };
    if bytes.len() == 0 {
        assert(waiting + Seq::<QueuedMessage>::empty() =~= waiting);
    } else {
        let part = bytes.drop_last();
        lemma_added(parsing, part);
        law_delays_add_up(parsing, part);
        law_delays_add_up(alone, part);
        let before = alone.with_bytes(part);
        let after = before.with_byte(bytes.last());
        assert(parsing.with_bytes(part).with_byte(bytes.last()).timeline.pending =~= waiting
            + after.timeline.pending);
    }
}

/// A record is never left complete: it is over with its last byte.
pub proof fn law_record_under_way(parsing: Parsing, bytes: Seq<u8>)
    requires
        !record_complete(parsing.record),
    ensures
        !record_complete(parsing.with_bytes(bytes).record),
{
    if bytes.len() > 0 {
        let before = parsing.with_bytes(bytes.drop_last());
        assert(parsing.with_bytes(bytes) == before.with_byte(bytes.last()));
    }
}

/// While a record's MIDI comes in, its messages are queued as they are completed.
proof fn lemma_payload(parsing: Parsing, bytes: Seq<u8>)
    requires
        parsing.record.len() >= 4,
        !record_complete(parsing.record),
        parsing.record.len() + bytes.len() <= 4 + be16(parsing.record[2], parsing.record[3]),
    ensures
        record_held(parsing.record + bytes) == crate::midi::fed(
            record_held(parsing.record),
            bytes,
        ).held,
        parsing.with_bytes(bytes) == (Parsing {
            record: parsing.record + bytes,
            timeline: parsing.timeline.enqueued_all(
                crate::midi::fed(record_held(parsing.record), bytes).messages,
            ),
        }).finished(),
    decreases bytes.len(),
{
    let record = parsing.record;
    let held = record_held(record);
    assert(held == crate::midi::fed(Seq::empty(), record.skip(4)).held) by {
        if record.len() == 4 {
            assert(record.skip(4) =~= Seq::<u8>::empty());
        }
    }
    crate::midi::law_feed_in_pieces(Seq::empty(), record.skip(4), bytes);
    assert((record + bytes).skip(4) =~= record.skip(4) + bytes);
    if bytes.len() == 0 {
        assert(record + bytes =~= record);
        assert(parsing.timeline.enqueued_all(Seq::empty()) =~= parsing.timeline);
    } else {
        let part = bytes.drop_last();
        lemma_payload(parsing, part);
        let before = crate::midi::fed(held, part);
        let message = crate::midi::fed_byte(before.held, bytes.last()).1;
        assert(!record_complete(record + part));
        assert((record + part).push(bytes.last()) =~= record + bytes);
        assert(parsing.timeline.enqueued_all(before.messages).enqueued_all(
            crate::midi::with_message(Seq::empty(), message),
        ) =~= parsing.timeline.enqueued_all(
            crate::midi::with_message(before.messages, message),
        ));
    }
}

/// A record as plain values: a delay in milliseconds, and the MIDI to play then.
pub struct Record {
    pub delta: nat,
    pub payload: Seq<u8>,
}

impl Record {
    /// The delay and the length fit their two bytes.
    pub open spec fn wf(self) -> bool {
        self.delta <= 0xFFFF && self.payload.len() <= 0xFFFF
    }

    /// The bytes of the record.
    pub open spec fn bytes(self) -> Seq<u8> {
        seq![
            (self.delta / 0x100) as u8,
            (self.delta % 0x100) as u8,
            (self.payload.len() / 0x100) as u8,
            (self.payload.len() % 0x100) as u8,
        ] + self.payload
    }

    /// The timeline with the record's delay and then its messages at the end.
    pub open spec fn played_on(self, timeline: Timeline) -> Timeline {
        timeline.delayed(self.delta).enqueued_all(crate::midi::messages_of(self.payload))
    }
}

/// The bytes of `records`, one after the other.
pub open spec fn records_bytes(records: Seq<Record>) -> Seq<u8>
    decreases records.len(),
{
    if records.len() == 0 {
        Seq::empty()
    } else {
        records_bytes(records.drop_last()) + records.last().bytes()
    }
}

/// The timeline with `records`, one after the other, at its end.
pub open spec fn records_played_on(timeline: Timeline, records: Seq<Record>) -> Timeline
    decreases records.len(),
{
    if records.len() == 0 {
        timeline
    } else {
        records.last().played_on(records_played_on(timeline, records.drop_last()))
    }
}

/// A record adds its delay and then the messages of its own MIDI, whatever came before it, and is
/// over with its last byte.
pub proof fn law_record(parsing: Parsing, record: Record)
    requires
        record.wf(),
        parsing.record.len() == 0,
    ensures
        parsing.with_bytes(record.bytes()) == (Parsing {
            record: Seq::empty(),
            timeline: record.played_on(parsing.timeline),
        }),
{
    let payload = record.payload;
    let bytes = record.bytes();
    let header = bytes.take(4);
    let delayed = parsing.timeline.delayed(record.delta);
    assert(be16(bytes[2], bytes[3]) == payload.len());
    assert(parsing.with_bytes(header) == (Parsing { record: header, timeline: delayed }).finished())
        by {
        assert(header.drop_last() =~= bytes.take(3));
        assert(bytes.take(3).drop_last() =~= bytes.take(2));
        assert(bytes.take(2).drop_last() =~= bytes.take(1));
        assert(bytes.take(1).drop_last() =~= Seq::<u8>::empty());
        reveal_with_fuel(Parsing::with_bytes, 5);
        assert(parsing.record.push(bytes[0]) =~= bytes.take(1));
        assert(bytes.take(1).push(bytes[1]) =~= bytes.take(2));
        assert(bytes.take(2).push(bytes[2]) =~= bytes.take(3));
        assert(bytes.take(3).push(bytes[3]) =~= header);
        assert(parsing.timeline.delayed(0) =~= parsing.timeline);
        assert(be16(bytes[0], bytes[1]) == record.delta);
        assert(delayed.delayed(0) =~= delayed);
    }
    law_parse_in_pieces(parsing, header, payload);
    assert(header + payload =~= bytes);
    let fed = crate::midi::fed(Seq::empty(), payload);
    let flushed = crate::midi::flushed(fed.held);
    if payload.len() == 0 {
        assert(crate::midi::messages_of(payload) =~= Seq::<Seq<u8>>::empty());
        assert(delayed.enqueued_all(Seq::empty()) =~= delayed);
    } else {
        lemma_payload(Parsing { record: header, timeline: delayed }, payload);
        assert(bytes.skip(4) =~= payload);
        assert(record_held(bytes) == fed.held);
        assert(delayed.enqueued_all(fed.messages).enqueued_all(flushed) =~= delayed.enqueued_all(
            fed.messages + flushed,
        ));
    }
}

/// The bytes of a record, all of them or the first few: the first two bytes are the milliseconds by
/// which the end of the timeline moves, the next two the number of bytes of MIDI; each message is
/// queued at the new end as soon as its bytes are there, and what is left with the last byte.
pub proof fn law_record_read(parsing: Parsing, bytes: Seq<u8>)
    requires
        parsing.record.len() == 0,
        bytes.len() > 4 ==> bytes.len() <= 4 + bytes[2] * 0x100 + bytes[3],
    ensures
        ({
            let after = parsing.with_bytes(bytes);
            let whole = bytes.len() >= 4 && bytes.len() == 4 + bytes[2] * 0x100 + bytes[3];
            let end = parsing.timeline.end + if bytes.len() >= 2 {
                bytes[0] * 0x100 + bytes[1]
            } else {
                0
            };
            let fed = crate::midi::fed(
                Seq::empty(),
                if bytes.len() > 4 {
                    bytes.skip(4)
                } else {
                    Seq::empty()
                },
            );
            let messages = if whole {
                fed.messages + crate::midi::flushed(fed.held)
            } else {
                fed.messages
            };
            let count = parsing.timeline.pending.len();
            &&& after.record == if whole {
                Seq::empty()
            } else {
                bytes
            }
            &&& after.timeline.end == end
            &&& after.timeline.pending.len() == count + messages.len()
            &&& forall|i: int|
                0 <= i < after.timeline.pending.len() ==> {
                    let queued = #[trigger] after.timeline.pending[i];
                    &&& i < count ==> queued == parsing.timeline.pending[i]
                    &&& i >= count ==> queued.bytes == messages[i - count]
                    &&& i >= count ==> queued.timestamp == end
                }
        }),
{
    let none = Seq::<Seq<u8>>::empty();
    let timeline = parsing.timeline;
    let head = if bytes.len() > 4 {
        bytes.take(4)
    } else {
        bytes
    };
    let delta = if bytes.len() >= 2 {
        be16(bytes[0], bytes[1])
    } else {
        0
    };
    let delayed = timeline.delayed(delta);
    lemma_head(parsing, head);
    if bytes.len() > 4 {
        let payload = bytes.skip(4);
        assert(be16(bytes[2], bytes[3]) == bytes[2] * 0x100 + bytes[3]);
        assert(head + payload =~= bytes);
        law_parse_in_pieces(parsing, head, payload);
        lemma_payload(Parsing { record: head, timeline: delayed }, payload);
        assert(record_held(bytes) == crate::midi::fed(Seq::empty(), payload).held);
        let fed = crate::midi::fed(Seq::empty(), payload);
        let flushed = crate::midi::flushed(fed.held);
        assert(delayed.enqueued_all(fed.messages).enqueued_all(flushed) =~= delayed.enqueued_all(
            fed.messages + flushed,
        ));
    } else {
        assert(none + none =~= none);
        assert(delayed.enqueued_all(none) =~= delayed);
    }
}

proof fn lemma_head(parsing: Parsing, head: Seq<u8>)
    requires
        parsing.record.len() == 0,
        head.len() <= 4,
    ensures
        parsing.with_bytes(head) == (Parsing {
            record: head,
            timeline: parsing.timeline.delayed(
                if head.len() >= 2 {
                    be16(head[0], head[1])
                } else {
                    0
                },
            ),
        }).finished(),
    decreases head.len(),
{
    let timeline = parsing.timeline;
    assert(timeline.delayed(0) =~= timeline);
    if head.len() == 0 {
        assert(parsing.record =~= head);
    } else {
        let part = head.drop_last();
        lemma_head(parsing, part);
        assert(part.push(head.last()) =~= head);
        if head.len() > 2 {
            let delayed = timeline.delayed(be16(head[0], head[1]));
            assert(delayed.delayed(0) =~= delayed);
        }
    }
}

/// What a record asks for in delay is what its first two bytes say, wherever bytes were cut.
pub proof fn law_delay_asked(record: Seq<u8>, bytes: Seq<u8>, more: Seq<u8>)
    requires
        bytes.len() >= 2,
        bytes.len() > 4 ==> bytes.len() <= 4 + bytes[2] * 0x100 + bytes[3],
    ensures
        total_delay(Seq::empty(), bytes) == bytes[0] * 0x100 + bytes[1],
        total_delay(record, bytes + more) == total_delay(record, bytes) + total_delay(
            record_after(record, bytes),
            more,
        ),
        total_delay(record, Seq::empty()) == 0,
{
    let fresh = Parsing { record: Seq::empty(), timeline: Timeline::start() };
    law_record_read(fresh, bytes);
    law_delays_add_up(fresh, bytes);
    lemma_delay_in_pieces(record, bytes, more);
}

/// A record without MIDI adds its delay and nothing else.
pub proof fn law_silent_record(parsing: Parsing, record: Record)
    requires
        record.wf(),
        record.payload.len() == 0,
        parsing.record.len() == 0,
    ensures
        parsing.with_bytes(record.bytes()).timeline == parsing.timeline.delayed(record.delta),
{
    law_record(parsing, record);
    let delayed = parsing.timeline.delayed(record.delta);
    assert(crate::midi::messages_of(record.payload) =~= Seq::<Seq<u8>>::empty());
    assert(delayed.enqueued_all(Seq::empty()) =~= delayed);
}

/// Running status can be used within a record: each message comes with the status byte.
pub proof fn law_running_status_in_record(parsing: Parsing, record: Record)
    requires
        record.wf(),
        crate::midi::is_run(record.payload),
        parsing.record.len() == 0,
    ensures
        parsing.with_bytes(record.bytes()).timeline == parsing.timeline.delayed(
            record.delta,
        ).enqueued_all(crate::midi::run_messages(record.payload)),
{
    law_record(parsing, record);
    crate::midi::law_running_status(record.payload);
}

/// Running status does not reach from one record into the next: behind any records, a record
/// queues what it queues on a parser that has read nothing, and data bytes that open it without a
/// status byte give no message.
pub proof fn law_no_status_carried_over(
    parsing: Parsing,
    earlier: Seq<Record>,
    record: Record,
    data: Seq<u8>,
    rest: Seq<u8>,
)
    requires
        parsing.record.len() == 0,
        record.wf(),
        forall|i: int| 0 <= i < earlier.len() ==> (#[trigger] earlier[i]).wf(),
        record.payload == data + rest,
        forall|i: int| 0 <= i < data.len() ==> #[trigger] data[i] < 0x80,
    ensures
        ({
            let before = parsing.with_bytes(records_bytes(earlier));
            let queued = crate::message_queue::bytes_of(
                added(before.record, before.timeline.end, record.bytes()),
            );
            &&& queued == crate::message_queue::bytes_of(
                added(Seq::empty(), 0, record.bytes()),
            )
            &&& queued == crate::midi::messages_of(rest)
            &&& rest.len() == 0 ==> queued.len() == 0
        }),
{
    law_records(parsing, earlier);
    let before = parsing.with_bytes(records_bytes(earlier));
    let alone = Parsing {
        record: before.record,
        timeline: Timeline { pending: Seq::empty(), end: before.timeline.end },
    };
    let fresh = Parsing { record: Seq::empty(), timeline: Timeline::start() };
    law_record(alone, record);
    law_record(fresh, record);
    crate::midi::law_data_without_status(data, rest);
    let messages = crate::midi::messages_of(record.payload);
    assert(crate::message_queue::bytes_of(record.played_on(alone.timeline).pending) =~= messages);
    assert(crate::message_queue::bytes_of(record.played_on(fresh.timeline).pending) =~= messages);
}

/// Delays run on from record to record, and each record's messages come at its own time, in
/// order, whatever way the bytes were split into packets.
pub proof fn law_records(parsing: Parsing, records: Seq<Record>)
    requires
        forall|i: int| 0 <= i < records.len() ==> (#[trigger] records[i]).wf(),
        parsing.record.len() == 0,
    ensures
        parsing.with_bytes(records_bytes(records)) == (Parsing {
            record: Seq::empty(),
            timeline: records_played_on(parsing.timeline, records),
        }),
    decreases records.len(),
{
    if records.len() == 0 {
        assert(parsing.record =~= Seq::<u8>::empty());
    } else {
        law_records(parsing, records.drop_last());
        let before = parsing.with_bytes(records_bytes(records.drop_last()));
        law_record(before, records.last());
        law_parse_in_pieces(
            parsing,
            records_bytes(records.drop_last()),
            records.last().bytes(),
        );
    }
}

/// Every message that is queued stands on its own, whatever the bytes are.
pub proof fn law_queued_standalone(parsing: Parsing, bytes: Seq<u8>)
    requires
        parsing.timeline.standalone(),
    ensures
        parsing.with_bytes(bytes).timeline.standalone(),
    decreases bytes.len(),
{
    if bytes.len() > 0 {
        law_queued_standalone(parsing, bytes.drop_last());
        let before = parsing.with_bytes(bytes.drop_last());
        let after = before.taken(bytes.last());
        crate::midi::law_standalone(Seq::empty(), before.record.skip(4));
        crate::midi::law_standalone(Seq::empty(), after.record.skip(4));
        let held = record_held(before.record);
        assert(crate::midi::held_wf(held));
        crate::midi::law_standalone(held, seq![bytes.last()]);
        reveal_with_fuel(crate::midi::fed, 2);
        assert(seq![bytes.last()].drop_last() =~= Seq::<u8>::empty());
        let fed = crate::midi::with_message(
            Seq::empty(),
            crate::midi::fed_byte(held, bytes.last()).1,
        );
        assert(crate::midi::fed(held, seq![bytes.last()]).messages =~= fed);
        assert(crate::midi::all_standalone(fed));
        assert(after.timeline.standalone());
        assert(after.finished().timeline.standalone());
    }
}

/// What is queued stays queued, in its place, and what is added comes behind it: the order of
/// messages is the order in which they arrived, and their times never run backwards.
pub proof fn law_order_kept(parsing: Parsing, bytes: Seq<u8>)
    requires
        parsing.timeline.ordered(),
    ensures
        parsing.with_bytes(bytes).timeline.ordered(),
        parsing.timeline.pending.is_prefix_of(parsing.with_bytes(bytes).timeline.pending),
        forall|i: int|
            parsing.timeline.pending.len() <= i < parsing.with_bytes(
                bytes,
            ).timeline.pending.len() ==> (#[trigger] parsing.with_bytes(
                bytes,
            ).timeline.pending[i]).timestamp >= parsing.timeline.end,
    decreases bytes.len(),
{
    if bytes.len() > 0 {
        law_order_kept(parsing, bytes.drop_last());
        let before = parsing.with_bytes(bytes.drop_last());
        law_delays_add_up(parsing, bytes.drop_last());
        let after = before.with_byte(bytes.last());
        let kept = parsing.timeline.pending;
        assert(before.timeline.pending.is_prefix_of(after.timeline.pending));
        assert forall|i: int| 0 <= i < kept.len() implies kept[i]
            == after.timeline.pending[i] by {
            assert(before.timeline.pending[i] == kept[i]);
        }
        assert(kept.is_prefix_of(after.timeline.pending));
    }
}

/// What a parser counts where it has read `record`: the bytes of the header, the high byte of the
/// delta time, and the bytes of MIDI that are still to come.
spec fn counters_match(record: Seq<u8>, header_bytes_read: u8, delta: u16, remaining: u16) -> bool {
    &&& header_bytes_read == if record.len() < 4 {
        record.len()
    } else {
        4
    }
    &&& record.len() == 1 ==> delta == record[0] * 0x100
    &&& record.len() == 3 ==> remaining == record[2] * 0x100
    &&& record.len() >= 4 ==> remaining == 4 + be16(record[2], record[3]) - record.len()
}

/// A parser for the records of queue packets. Records may be split between packets anywhere.
///
/// A record is a delta time in milliseconds (two bytes), a length (two bytes) and as many bytes
/// of MIDI.
pub struct QueueParser {
    stream: MidiStream,
    header_bytes_read: u8,
    delta: u16,
    remaining: u16,
    record: Ghost<Seq<u8>>,
}

impl View for QueueParser {
    type V = Seq<u8>;

    /// The bytes of the record under way.
    closed spec fn view(&self) -> Seq<u8> {
        self.record@
    }
}

impl QueueParser {
    /// The parser is where the bytes of its record have brought it.
    spec fn in_step(&self) -> bool {
        &&& counters_match(self.record@, self.header_bytes_read, self.delta, self.remaining)
        &&& crate::midi::stream_held(self.stream) == record_held(self.record@)
    }

    /// The parser is where the bytes of the record under way have brought it, and that record is
    /// not complete.
    pub closed spec fn wf(&self) -> bool {
        &&& self.in_step()
        &&& !record_complete(self.record@)
    }

    /// The record under way is not complete: it is over with its last byte.
    pub proof fn lemma_wf(&self)
        requires
            self.wf(),
        ensures
            !record_complete(self@),
    {
    }

    /// A parser at the start of a record.
    pub fn new() -> (parser: Self)
        ensures
            parser.wf(),
            parser@ == Seq::<u8>::empty(),
    {
        Self {
            stream: new_stream(),
            header_bytes_read: 0,
            delta: 0,
            remaining: 0,
            record: Ghost(Seq::empty()),
        }
    }

    /// Forgets the record under way.
    pub fn reset(&mut self)
        ensures
            final(self).wf(),
            final(self)@ == Seq::<u8>::empty(),
    {
        let mut dropped: Vec<Vec<u8>> = Vec::new();
        flush_stream(&mut self.stream, &mut dropped);
        self.header_bytes_read = 0;
        self.record = Ghost(Seq::empty());
    }

    /// Where the record is complete, queues what the stream still holds of it, and is done with it.
    fn finish_record(&mut self, queue: &mut MessageQueue)
        requires
            old(self).in_step(),
            old(queue).wf(),
        ensures
            final(self).wf(),
            final(queue).wf(),
            (Parsing { record: final(self)@, timeline: final(queue)@ }) == (Parsing {
                record: old(self)@,
                timeline: old(queue)@,
            }).finished(),
    {
        if self.header_bytes_read == 4 && self.remaining == 0 {
            let mut messages: Vec<Vec<u8>> = Vec::new();
            flush_stream(&mut self.stream, &mut messages);
            assert(crate::midi::raw(messages@) =~= crate::midi::flushed(record_held(self@)));
            queue.enqueue_all(&messages);
            self.header_bytes_read = 0;
            self.record = Ghost(Seq::empty());
        }
    }

    /// Takes one byte of a record's header.
    fn read_header_byte(&mut self, byte: u8, queue: &mut MessageQueue)
        requires
            old(self).wf(),
            old(queue).wf(),
            old(self)@.len() < 4,
            old(queue)@.end + record_delay(old(self)@.push(byte)) <= u64::MAX,
        ensures
            final(self).in_step(),
            final(queue).wf(),
            (Parsing { record: final(self)@, timeline: final(queue)@ }) == (Parsing {
                record: old(self)@,
                timeline: old(queue)@,
            }).taken(byte),
    {
        let ghost record = self.record@.push(byte);
        assert(queue@.delayed(0) =~= queue@);
        if self.header_bytes_read == 0 {
            self.delta = byte as u16 * 0x100;
        } else if self.header_bytes_read == 1 {
            self.delta = self.delta + byte as u16;
            queue.add_delta_time(self.delta as u64);
        } else if self.header_bytes_read == 2 {
            self.remaining = byte as u16 * 0x100;
        } else {
            self.remaining = self.remaining + byte as u16;
        }
        self.header_bytes_read = self.header_bytes_read + 1;
        self.record = Ghost(record);
    }

    /// Takes bytes of a record's MIDI.
    fn read_payload(&mut self, bytes: &[u8], queue: &mut MessageQueue)
        requires
            old(self).wf(),
            old(queue).wf(),
            old(self)@.len() >= 4,
            old(self)@.len() + bytes@.len() <= 4 + be16(old(self)@[2], old(self)@[3]),
        ensures
            final(self).in_step(),
            final(queue).wf(),
            (Parsing { record: final(self)@, timeline: final(queue)@ }).finished() == (Parsing {
                record: old(self)@,
                timeline: old(queue)@,
            }).with_bytes(bytes@),
    {
        proof {
            lemma_payload(Parsing { record: self@, timeline: queue@ }, bytes@);
        }
        let mut messages: Vec<Vec<u8>> = Vec::new();
        feed_stream(&mut self.stream, bytes, &mut messages);
        assert(crate::midi::raw(messages@) =~= crate::midi::fed(
            record_held(self@),
            bytes@,
        ).messages);
        queue.enqueue_all(&messages);
        self.remaining = self.remaining - bytes.len() as u16;
        self.record = Ghost(self.record@ + bytes@);
    }

    /// The sum of the delays that feeding `data` would add to the queue.
    pub fn delay(&self, data: &[u8]) -> (sum: u128)
        requires
            self.wf(),
        ensures
            sum == total_delay(self@, data@),
    {
        let mut header_bytes_read: u8 = self.header_bytes_read;
        let mut delta: u16 = self.delta;
        let mut remaining: u16 = self.remaining;
        let mut sum: u128 = 0;
        let mut pos: usize = 0;
        while pos < data.len()
            invariant
                pos <= data@.len(),
                counters_match(
                    record_after(self@, data@.take(pos as int)),
                    header_bytes_read,
                    delta,
                    remaining,
                ),
                !record_complete(record_after(self@, data@.take(pos as int))),
                sum == total_delay(self@, data@.take(pos as int)),
                sum <= pos * 0xFFFF,
            decreases data.len() - pos,
        {
            let ghost record = record_after(self@, data@.take(pos as int));
            assert(data@.take(pos + 1).drop_last() =~= data@.take(pos as int));
            let byte: u16 = data[pos] as u16;
            if header_bytes_read == 0 {
                delta = byte * 0x100;
                header_bytes_read = 1;
            } else if header_bytes_read == 1 {
                sum = sum + (delta + byte) as u128;
                header_bytes_read = 2;
            } else if header_bytes_read == 2 {
                remaining = byte * 0x100;
                header_bytes_read = 3;
            } else if header_bytes_read == 3 {
                remaining = remaining + byte;
                header_bytes_read = 4;
            } else {
                remaining = remaining - 1;
            }
            if header_bytes_read == 4 && remaining == 0 {
                header_bytes_read = 0;
            }
            pos = pos + 1;
        }
        assert(data@.take(pos as int) =~= data@);
        sum
    }

    /// Takes the bytes of one more packet: moves `queue` on by each delta time, and queues each
    /// message there as soon as it is complete, the last of a record with the record's last byte.
    pub fn feed(&mut self, data: &[u8], queue: &mut MessageQueue)
        requires
            old(self).wf(),
            old(queue).wf(),
            old(queue)@.end + total_delay(old(self)@, data@) <= u64::MAX,
        ensures
            final(self).wf(),
            final(queue).wf(),
            (Parsing { record: final(self)@, timeline: final(queue)@ }) == (Parsing {
                record: old(self)@,
                timeline: old(queue)@,
            }).with_bytes(data@),
            final(queue)@.end == old(queue)@.end + total_delay(old(self)@, data@),
            old(queue)@.pending.is_prefix_of(final(queue)@.pending),
    {
        let ghost start = Parsing { record: self@, timeline: queue@ };
        let mut pos: usize = 0;
        while pos < data.len()
            invariant
                pos <= data@.len(),
                self.wf(),
                queue.wf(),
                start.timeline.end + total_delay(start.record, data@) <= u64::MAX,
                (Parsing { record: self@, timeline: queue@ }) == start.with_bytes(
                    data@.take(pos as int),
                ),
            decreases data.len() - pos,
        {
            let ghost done = data@.take(pos as int);
            let mut taken: usize = 1;
            if self.header_bytes_read < 4 {
                proof {
                    let through = data@.take(pos + 1);
                    assert(through.drop_last() =~= done);
                    lemma_delay_in_pieces(start.record, through, data@.skip(pos + 1));
                    assert(through + data@.skip(pos + 1) =~= data@);
                    law_delays_add_up(start, done);
                    law_delays_add_up(start, through);
                }
                self.read_header_byte(data[pos], queue);
            } else {
                let left: usize = data.len() - pos;
                let wanted: usize = self.remaining as usize;
                taken = if left < wanted {
                    left
                } else {
                    wanted
                };
                let cur = slice_subrange(data, pos, pos + taken);
                self.read_payload(cur, queue);
            }
            self.finish_record(queue);
            proof {
                let piece = data@.subrange(pos as int, pos + taken);
                law_parse_in_pieces(start, done, piece);
                assert(done + piece =~= data@.take(pos + taken));
                if taken == 1 {
                    assert(piece =~= seq![data@[pos as int]]);
                    reveal_with_fuel(Parsing::with_bytes, 2);
                    assert(piece.drop_last() =~= Seq::<u8>::empty());
                }
            }
            pos = pos + taken;
        }
        assert(data@.take(pos as int) =~= data@);
        proof {
            law_delays_add_up(start, data@);
            lemma_added(start, data@);
        }
    }
}

} // verus!
