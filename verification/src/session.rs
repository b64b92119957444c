//! An established session: what datagrams do, and what is played when.

use midly::stream::MidiStream;
use vstd::prelude::*;
use vstd::slice::slice_to_vec;

use crate::data_packet::{Kind, Packet, PacketView, Parsing, QueueParser, Record};
use crate::error::SessionError;
use crate::message_queue::{MessageQueue, PopResult, Timeline};
use crate::midi::{feed_stream, flush_stream, new_stream};
use crate::protocol::Ack;

verus! {

/// The sequence number that is always taken: for testing by hand.
pub const TEST_SEQNUM: u32 = 0xDEAD_BEEF;

/// Nanoseconds in a millisecond.
pub const NANOS_PER_MILLI: u64 = 1_000_000;

/// A session as plain values. Clock readings are in nanoseconds.
#[verifier::ext_equal]
pub struct SessionView {
    /// The number that the next datagram should have.
    pub expected: nat,
    /// When the clock read zero on the timeline, if playback has started.
    pub t0: Option<nat>,
    /// The message that instant packets have left unfinished.
    pub held: Seq<u8>,
    /// The record that queue packets have left unfinished.
    pub record: Seq<u8>,
    /// What waits to be played.
    pub timeline: Timeline,
}

/// The time on the timeline at clock reading `now`, in whole milliseconds.
pub open spec fn elapsed(t0: nat, now: nat) -> nat {
    if now < t0 {
        0
    } else {
        ((now - t0) / NANOS_PER_MILLI as int) as nat
    }
}

/// The clock reading at time `timestamp` on the timeline.
pub open spec fn clock_at(t0: nat, timestamp: nat) -> nat {
    t0 + timestamp * NANOS_PER_MILLI as nat
}

impl SessionView {
    /// A session whose next datagram should have number `expected`, with nothing under way.
    pub open spec fn clear(expected: nat) -> SessionView {
        SessionView {
            expected,
            t0: None,
            held: Seq::empty(),
            record: Seq::empty(),
            timeline: Timeline::start(),
        }
    }

    /// Messages wait in order, each of them stands on its own, no record is left complete, and
    /// nothing is queued before playback has started.
    pub open spec fn wf(self) -> bool {
        &&& self.expected <= u32::MAX
        &&& crate::midi::held_wf(self.held)
        &&& !crate::data_packet::record_complete(self.record)
        &&& self.timeline.ordered()
        &&& self.timeline.standalone()
        &&& self.t0 is None ==> self.record.len() == 0 && self.timeline == Timeline::start()
    }

    /// Whether a datagram of that number is taken.
    pub open spec fn accepts(self, seqnum: nat) -> bool {
        seqnum == self.expected || seqnum == TEST_SEQNUM
    }

    /// The number that the next datagram should have once one of number `seqnum` was taken.
    pub open spec fn expected_after(self, seqnum: nat) -> nat {
        if seqnum == self.expected {
            self.expected + 1
        } else {
            self.expected
        }
    }

    /// The records under way.
    pub open spec fn parsing(self) -> Parsing {
        Parsing { record: self.record, timeline: self.timeline }
    }

    /// The message that is unfinished when the payload of an instant packet is read.
    pub open spec fn held_for(self, reset_queue: bool) -> Seq<u8> {
        if reset_queue {
            Seq::empty()
        } else {
            self.held
        }
    }

    /// The session after a datagram was taken at clock reading `now`.
    pub open spec fn received(self, packet: PacketView, now: nat) -> SessionView {
        let expected = self.expected_after(packet.seqnum);
        match packet.kind {
            Kind::Instant { reset_queue } => {
                let before = if reset_queue {
                    SessionView::clear(expected)
                } else {
                    SessionView { expected, ..self }
                };
                SessionView {
                    held: crate::midi::fed(self.held_for(reset_queue), packet.data).held,
                    ..before
                }
            },
            Kind::Queue => {
                let after = self.parsing().with_bytes(packet.data);
                SessionView {
                    expected,
                    t0: match self.t0 {
                        Some(t0) => Some(t0),
                        None => Some(now),
                    },
                    held: self.held,
                    record: after.record,
                    timeline: after.timeline,
                }
            },
        }
    }

    /// The messages that a datagram has played at once.
    pub open spec fn instant_messages(self, packet: PacketView) -> Seq<Seq<u8>> {
        match packet.kind {
            Kind::Instant { reset_queue } => {
                crate::midi::fed(self.held_for(reset_queue), packet.data).messages
            },
            Kind::Queue => Seq::empty(),
        }
    }

    /// The counters do not run over where `contents` arrive: neither the sequence number nor the
    /// end of the timeline.
    pub open spec fn has_room(self, contents: Seq<u8>) -> bool {
        match crate::data_packet::parsed(contents) {
            None => true,
            Some(packet) => self.accepts(packet.seqnum) ==> {
                &&& self.expected_after(packet.seqnum) <= u32::MAX
                &&& packet.kind is Queue ==> self.timeline.end + crate::data_packet::total_delay(
                    self.record,
                    packet.data,
                ) <= u64::MAX
            },
        }
    }

    /// The messages that are due at clock reading `now`.
    pub open spec fn due_messages(self, now: nat) -> Seq<Seq<u8>> {
        match self.t0 {
            None => Seq::empty(),
            Some(t0) => crate::message_queue::bytes_of(
                self.timeline.due_messages(elapsed(t0, now)),
            ),
        }
    }

    /// The session once the messages that are due at clock reading `now` were played.
    pub open spec fn played(self, now: nat) -> SessionView {
        match self.t0 {
            None => self,
            Some(t0) => SessionView { timeline: self.timeline.later(elapsed(t0, now)), ..self },
        }
    }

    /// The clock reading at which the next message is due.
    pub open spec fn next_due(self) -> Option<nat> {
        match self.t0 {
            None => None,
            Some(t0) => if self.timeline.pending.len() == 0 {
                None
            } else {
                Some(clock_at(t0, self.timeline.pending[0].timestamp))
            },
        }
    }
}

/// A datagram was taken: what to play at once, and then the acknowledgement to send.
#[derive(Debug)]
pub struct Accepted {
    pub messages: Vec<Vec<u8>>,
    pub ack: Ack,
}

/// What is due: what to play now, and the clock reading until which to sleep.
#[derive(Debug)]
pub struct Due {
    pub messages: Vec<Vec<u8>>,
    pub wake: Option<u128>,
}

/// An established session.
pub struct Session {
    expected_seqnum: u32,
    t0: Option<u64>,
    instant_stream: MidiStream,
    queue_parser: QueueParser,
    queue: MessageQueue,
}

impl View for Session {
    type V = SessionView;

    closed spec fn view(&self) -> SessionView {
        SessionView {
            expected: self.expected_seqnum as nat,
            t0: match self.t0 {
                Some(t0) => Some(t0 as nat),
                None => None,
            },
            held: crate::midi::stream_held(self.instant_stream),
            record: self.queue_parser@,
            timeline: self.queue@,
        }
    }
}

impl Session {
    /// The parser, the queue and the session as a whole are in order.
    pub closed spec fn wf(&self) -> bool {
        &&& self.queue_parser.wf()
        &&& self.queue.wf()
        &&& self@.wf()
    }

    /// A session that is in order is so as plain values, too.
    pub proof fn lemma_wf(&self)
        requires
            self.wf(),
        ensures
            self@.wf(),
    {
    }

    /// A session in which nothing has happened yet.
    pub fn new() -> (session: Self)
        ensures
            session.wf(),
            session@ == SessionView::clear(0),
    {
        Self {
            expected_seqnum: 0,
            t0: None,
            instant_stream: new_stream(),
            queue_parser: QueueParser::new(),
            queue: MessageQueue::new(),
        }
    }

    /// Whether `contents` can be received without a counter running over.
    pub fn has_room(&self, contents: &[u8]) -> (room: bool)
        requires
            self.wf(),
        ensures
            room == self@.has_room(contents@),
    {
        match Packet::parse_header(contents) {
            None => true,
            Some(packet) => {
                if packet.seqnum == self.expected_seqnum && packet.seqnum == u32::MAX {
                    return false;
                }
                if packet.seqnum != self.expected_seqnum && packet.seqnum != TEST_SEQNUM {
                    return true;
                }
                match packet.kind {
                    Kind::Instant { .. } => true,
                    Kind::Queue => {
                        let delay: u128 = self.queue_parser.delay(packet.data);
                        delay <= (u64::MAX - self.queue.end_timestamp()) as u128
                    },
                }
            },
        }
    }

    /// Takes the contents of a datagram that arrived at clock reading `now`.
    ///
    /// A datagram without a header is skipped. One whose number is neither the next nor the test
    /// number is an error, and changes nothing.
    pub fn receive(&mut self, contents: &[u8], now: u64) -> (result: Result<
        Option<Accepted>,
        SessionError,
    >)
        requires
            old(self).wf(),
            old(self)@.has_room(contents@),
        ensures
            final(self).wf(),
            match crate::data_packet::parsed(contents@) {
                None => (result matches Ok(None)) && final(self)@ == old(self)@,
                Some(packet) => if old(self)@.accepts(packet.seqnum) {
                    &&& result matches Ok(Some(accepted))
                    &&& crate::midi::raw(accepted.messages@) == old(self)@.instant_messages(packet)
                    &&& accepted.ack.ack == packet.seqnum
                    &&& final(self)@.expected == if packet.seqnum == old(self)@.expected {
                        old(self)@.expected + 1
                    } else {
                        old(self)@.expected
                    }
                    &&& final(self)@ == old(self)@.received(packet, now as nat)
                } else {
                    &&& result matches Err(SessionError::UnexpectedSeqnum { seqnum, expected })
                    &&& seqnum == packet.seqnum
                    &&& expected == old(self)@.expected
                    &&& final(self)@ == old(self)@
                },
            },
    {
        let packet = match Packet::parse_header(contents) {
            None => {
                return Ok(None);
            },
            Some(packet) => packet,
        };
        if packet.seqnum == self.expected_seqnum {
            self.expected_seqnum = self.expected_seqnum + 1;
        } else if packet.seqnum != TEST_SEQNUM {
            return Err(
                SessionError::UnexpectedSeqnum {
                    seqnum: packet.seqnum,
                    expected: self.expected_seqnum,
                },
            );
        }
        let mut messages: Vec<Vec<u8>> = Vec::new();
        match packet.kind {
            Kind::Instant { reset_queue } => {
                if reset_queue {
                    self.queue.reset();
                    self.queue_parser.reset();
                    self.t0 = None;
                    let mut dropped: Vec<Vec<u8>> = Vec::new();
                    flush_stream(&mut self.instant_stream, &mut dropped);
                }
                feed_stream(&mut self.instant_stream, packet.data, &mut messages);
            },
            Kind::Queue => {
                if self.t0.is_none() {
                    self.t0 = Some(now);
                }
                self.queue_parser.feed(packet.data, &mut self.queue);
            },
        }
        assert(crate::midi::raw(messages@) =~= old(self)@.instant_messages(packet@));
        assert(self@ =~= old(self)@.received(packet@, now as nat));
        proof {
            law_session_stays_in_order(old(self)@, packet@, now as nat);
        }
        Ok(Some(Accepted { messages, ack: Ack { ack: packet.seqnum } }))
    }

    /// Takes the messages that are due at clock reading `now` out of the queue.
    pub fn play_due(&mut self, now: u64) -> (due: Due)
        requires
            old(self).wf(),
        ensures
            final(self).wf(),
            crate::midi::raw(due.messages@) == old(self)@.due_messages(now as nat),
            final(self)@ == old(self)@.played(now as nat),
            match (due.wake, final(self)@.next_due()) {
                (None, None) => true,
                (Some(wake), Some(next)) => wake == next,
                _ => false,
            },
            due.messages@.len() + final(self)@.timeline.pending.len()
                == old(self)@.timeline.pending.len(),
            old(self)@.t0 is None ==> due.wake is None,
            old(self)@.t0 matches Some(t0) ==> {
                &&& due.wake is None <==> final(self)@.timeline.pending.len() == 0
                &&& due.wake matches Some(wake) ==> wake == t0
                    + final(self)@.timeline.pending[0].timestamp * 1_000_000
                &&& forall|i: int|
                    0 <= i < old(self)@.timeline.pending.len() ==> {
                        let waiting = #[trigger] old(self)@.timeline.pending[i];
                        &&& now >= t0 ==> (i < due.messages@.len() <==> now - t0
                            >= waiting.timestamp * 1_000_000)
                        &&& i < due.messages@.len() ==> due.messages@[i]@ == waiting.bytes
                    }
            },
    {
        proof {
            law_due_in_nanos(self@, now as nat);
        }
        let mut messages: Vec<Vec<u8>> = Vec::new();
        let t0: u64 = match self.t0 {
            None => {
                assert(crate::midi::raw(messages@) =~= Seq::empty());
                return Due { messages, wake: None };
            },
            Some(t0) => t0,
        };
        let cur_timestamp: u64 = if now < t0 {
            0
        } else {
            (now - t0) / NANOS_PER_MILLI
        };
        let ghost before = self.queue@;
        let ghost at = cur_timestamp as nat;
        assert(at == elapsed(t0 as nat, now as nat));
        let mut wake: Option<u128> = None;
        let mut more: bool = true;
        assert(crate::midi::raw(messages@) + crate::message_queue::bytes_of(before.due_messages(at))
            =~= crate::message_queue::bytes_of(before.due_messages(at)));
        while more
            invariant
                self.queue.wf(),
                self.queue@.ordered(),
                crate::midi::raw(messages@) + crate::message_queue::bytes_of(
                    self.queue@.due_messages(at),
                ) == crate::message_queue::bytes_of(before.due_messages(at)),
                self.queue@.later(at) == before.later(at),
                at == cur_timestamp,
                self.expected_seqnum == old(self).expected_seqnum,
                self.t0 == old(self).t0,
                self.t0 == Some(t0),
                self.instant_stream == old(self).instant_stream,
                self.queue_parser == old(self).queue_parser,
                !more ==> {
                    &&& !self.queue@.due(at)
                    &&& self.queue@.pending.len() == 0 ==> wake is None
                    &&& self.queue@.pending.len() > 0 ==> {
                        &&& wake matches Some(wake)
                        &&& wake == clock_at(t0 as nat, self.queue@.pending[0].timestamp)
                    }
                },
                more ==> wake is None,
            decreases
                self.queue@.pending.len() + if more {
                    1int
                } else {
                    0int
                },
        {
            let ghost timeline = self.queue@;
            let ghost sent = crate::midi::raw(messages@);
            proof {
                crate::message_queue::lemma_due_step(timeline, at);
            }
            match self.queue.pop(cur_timestamp) {
                PopResult::Message(raw_msg) => {
                    let bytes = slice_to_vec(raw_msg);
                    messages.push(bytes);
                    proof {
                        let front = timeline.pending[0];
                        let rest = crate::message_queue::bytes_of(
                            timeline.popped().due_messages(at),
                        );
                        assert(crate::midi::raw(messages@) =~= sent.push(front.bytes));
                        assert(crate::message_queue::bytes_of(timeline.due_messages(at))
                            =~= seq![front.bytes] + rest);
                        assert(sent.push(front.bytes) + rest =~= sent + (seq![front.bytes]
                            + rest));
                    }
                },
                PopResult::Empty => {
                    more = false;
                },
                PopResult::NextTimestamp(next_ts) => {
                    wake = Some(t0 as u128 + next_ts as u128 * NANOS_PER_MILLI as u128);
                    more = false;
                },
            }
        }
        proof {
            crate::message_queue::lemma_due_step(self.queue@, at);
            assert(crate::message_queue::bytes_of(self.queue@.due_messages(at)) =~= Seq::empty());
            assert(crate::midi::raw(messages@) =~= crate::message_queue::bytes_of(
                before.due_messages(at),
            ));
            assert(self@ =~= old(self)@.played(now as nat));
            lemma_played_in_order(old(self)@, now as nat);
            crate::midi::law_raw_of_each(messages@);
        }
        Due { messages, wake }
    }
}

/// Playing leaves a session in order.
pub proof fn lemma_played_in_order(session: SessionView, now: nat)
    requires
        session.wf(),
    ensures
        session.played(now).wf(),
{
    if let Some(t0) = session.t0 {
        crate::message_queue::law_due_first(session.timeline, elapsed(t0, now));
    }
}

/// Every datagram that is taken leaves a session in order, and so does playing.
pub proof fn law_session_stays_in_order(session: SessionView, packet: PacketView, now: nat)
    requires
        session.wf(),
        session.expected_after(packet.seqnum) <= u32::MAX,
    ensures
        session.received(packet, now).wf(),
        session.played(now).wf(),
{
    crate::data_packet::law_order_kept(session.parsing(), packet.data);
    crate::data_packet::law_record_under_way(session.parsing(), packet.data);
    crate::data_packet::law_queued_standalone(session.parsing(), packet.data);
    crate::midi::law_standalone(session.held, packet.data);
    crate::midi::law_standalone(Seq::empty(), packet.data);
    lemma_played_in_order(session, now);
}

/// Whatever a client sends, every message that a datagram has played at once stands on its own:
/// complete, and with its status byte.
pub proof fn law_instant_standalone(session: SessionView, packet: PacketView)
    requires
        session.wf(),
    ensures
        crate::midi::all_standalone(session.instant_messages(packet)),
{
    crate::midi::law_standalone(session.held, packet.data);
    crate::midi::law_standalone(Seq::empty(), packet.data);
}

/// Whatever a client sends, every message that is played at its time stands on its own.
pub proof fn law_due_standalone(session: SessionView, now: nat)
    requires
        session.wf(),
    ensures
        crate::midi::all_standalone(session.due_messages(now)),
{
    if let Some(t0) = session.t0 {
        crate::message_queue::law_due_first(session.timeline, elapsed(t0, now));
    }
}

/// A session after a run of datagrams, each with the clock reading at which it was taken.
pub open spec fn received_all(
    session: SessionView,
    packets: Seq<PacketView>,
    times: Seq<nat>,
) -> SessionView
    decreases packets.len(),
{
    if packets.len() == 0 {
        session
    } else {
        let before = received_all(session, packets.drop_last(), times.drop_last());
        before.received(packets.last(), times.last())
    }
}

/// Datagrams that are numbered on from the next number are all taken, whatever their kind: a
/// reset does not touch the numbering.
pub proof fn law_numbered_in_order(
    session: SessionView,
    packets: Seq<PacketView>,
    times: Seq<nat>,
)
    requires
        packets.len() == times.len(),
        forall|i: int|
            0 <= i < packets.len() ==> (#[trigger] packets[i]).seqnum == session.expected + i,
    ensures
        received_all(session, packets, times).expected == session.expected + packets.len(),
        forall|i: int|
            0 <= i < packets.len() ==> received_all(
                session,
                packets.take(i),
                times.take(i),
            ).accepts((#[trigger] packets[i]).seqnum),
    decreases packets.len(),
{
    if packets.len() > 0 {
        let part = packets.drop_last();
        law_numbered_in_order(session, part, times.drop_last());
        assert forall|i: int| 0 <= i < packets.len() implies received_all(
            session,
            packets.take(i),
            times.take(i),
        ).accepts((#[trigger] packets[i]).seqnum) by {
            if i < part.len() {
                assert(part.take(i) =~= packets.take(i));
                assert(times.drop_last().take(i) =~= times.take(i));
                assert(part[i] == packets[i]);
            } else {
                assert(packets.take(i) =~= part);
                assert(times.take(i) =~= times.drop_last());
            }
        }
    }
}

/// What each kind of datagram does, part by part. The numbering goes on by one where the datagram
/// has the next number, whatever its kind. An instant packet plays every message that its payload
/// completes, and touches nothing but the message under way; a reset forgets what was under way
/// first; a queue packet adds its bytes to the records and plays nothing.
pub proof fn law_received(session: SessionView, packet: PacketView, now: nat)
    ensures
        session.accepts(packet.seqnum) <==> packet.seqnum == session.expected || packet.seqnum
            == 0xDEAD_BEEF,
        session.received(packet, now).expected == session.expected + if packet.seqnum
            == session.expected {
            1int
        } else {
            0int
        },
        packet.kind == (Kind::Instant { reset_queue: false }) ==> {
            let fed = crate::midi::fed(session.held, packet.data);
            &&& session.instant_messages(packet) == fed.messages
            &&& session.received(packet, now).held == fed.held
            &&& session.received(packet, now).t0 == session.t0
            &&& session.received(packet, now).record == session.record
            &&& session.received(packet, now).timeline == session.timeline
        },
        packet.kind == (Kind::Instant { reset_queue: true }) ==> {
            let fed = crate::midi::fed(Seq::empty(), packet.data);
            &&& session.instant_messages(packet) == fed.messages
            &&& session.received(packet, now).held == fed.held
            &&& session.received(packet, now).t0 is None
            &&& session.received(packet, now).record.len() == 0
            &&& session.received(packet, now).timeline.pending.len() == 0
            &&& session.received(packet, now).timeline.end == 0
        },
        packet.kind is Queue ==> {
            let read = (Parsing { record: session.record, timeline: session.timeline }).with_bytes(
                packet.data,
            );
            &&& session.instant_messages(packet).len() == 0
            &&& session.received(packet, now).held == session.held
            &&& session.received(packet, now).t0 == Some(
                match session.t0 {
                    Some(t0) => t0,
                    None => now,
                },
            )
            &&& session.received(packet, now).record == read.record
            &&& session.received(packet, now).timeline == read.timeline
        },
{
}

/// A session starts with nothing under way.
pub proof fn law_clear(expected: nat)
    ensures
        SessionView::clear(expected).expected == expected,
        SessionView::clear(expected).t0 is None,
        SessionView::clear(expected).held.len() == 0,
        SessionView::clear(expected).record.len() == 0,
        SessionView::clear(expected).timeline.pending.len() == 0,
        SessionView::clear(expected).timeline.end == 0,
{
}

/// There is room for a datagram exactly where the counters can hold what it makes of them; one
/// that is not taken always has room.
pub proof fn law_has_room(session: SessionView, contents: Seq<u8>, now: nat)
    requires
        session.expected <= u32::MAX,
        session.timeline.end <= u64::MAX,
    ensures
        session.has_room(contents) <==> match crate::data_packet::parsed(contents) {
            None => true,
            Some(packet) => packet.seqnum != session.expected && packet.seqnum != 0xDEAD_BEEF || {
                &&& session.received(packet, now).expected <= 0xFFFF_FFFF
                &&& session.received(packet, now).timeline.end <= 0xFFFF_FFFF_FFFF_FFFF
            },
        },
{
    if let Some(packet) = crate::data_packet::parsed(contents) {
        crate::data_packet::law_delays_add_up(session.parsing(), packet.data);
    }
}

/// A message that is due at `T` milliseconds is played at a clock reading exactly where at least
/// `T` million nanoseconds have passed since the timeline started, with the bytes that it was
/// queued with; the others wait on. A reading before the start counts as the start.
pub proof fn law_due_in_nanos(session: SessionView, now: nat)
    requires
        session.wf(),
    ensures
        session.due_messages(now).len() + session.played(now).timeline.pending.len()
            == session.timeline.pending.len(),
        session.played(now).timeline.end == session.timeline.end,
        session.played(now).expected == session.expected,
        session.played(now).t0 == session.t0,
        session.played(now).held == session.held,
        session.played(now).record == session.record,
        session.t0 is None ==> session.due_messages(now).len() == 0,
        session.t0 matches Some(t0) ==> forall|i: int|
            0 <= i < session.timeline.pending.len() ==> {
                let waiting = #[trigger] session.timeline.pending[i];
                let count = session.due_messages(now).len();
                &&& now >= t0 ==> (i < count <==> now - t0 >= waiting.timestamp * 1_000_000)
                &&& now < t0 ==> (i < count <==> waiting.timestamp == 0)
                &&& i < count ==> session.due_messages(now)[i] == waiting.bytes
                &&& i >= count ==> session.played(now).timeline.pending[i - count] == waiting
            },
{
    if let Some(t0) = session.t0 {
        let at = elapsed(t0, now);
        crate::message_queue::law_due_by_time(session.timeline, at);
        assert forall|i: int| 0 <= i < session.timeline.pending.len() implies {
            let waiting = #[trigger] session.timeline.pending[i];
            now >= t0 ==> (waiting.timestamp <= at <==> now - t0 >= waiting.timestamp * 1_000_000)
        } by {
            law_played_on_time(t0, session.timeline.pending[i].timestamp, now);
        }
    }
}

/// The next message is due as many million nanoseconds after the start of the timeline as its time
/// has milliseconds; nothing is due where nothing waits.
pub proof fn law_next_due_in_nanos(session: SessionView)
    ensures
        session.next_due() is None <==> session.t0 is None || session.timeline.pending.len() == 0,
        session.next_due() matches Some(next) ==> next == session.t0->0
            + session.timeline.pending[0].timestamp * 1_000_000,
{
}

/// The first record that is queued is played, message for message, as many milliseconds after its
/// packet arrived as its first two bytes say, and not before.
pub proof fn law_first_record_on_time(
    session: SessionView,
    packet: PacketView,
    now: nat,
    reading: nat,
)
    requires
        session.wf(),
        session.t0 is None,
        packet.kind is Queue,
        packet.data.len() >= 4,
        packet.data.len() == 4 + packet.data[2] * 0x100 + packet.data[3],
        reading >= now,
    ensures
        ({
            let after = session.received(packet, now);
            let fed = crate::midi::fed(Seq::empty(), packet.data.skip(4));
            let messages = fed.messages + crate::midi::flushed(fed.held);
            let wait = (packet.data[0] * 0x100 + packet.data[1]) * 1_000_000;
            &&& after.due_messages(reading) == if reading - now >= wait {
                messages
            } else {
                Seq::empty()
            }
            &&& messages.len() > 0 ==> after.next_due() == Some((now + wait) as nat)
            &&& after.timeline.end == packet.data[0] * 0x100 + packet.data[1]
        }),
{
    let after = session.received(packet, now);
    let fed = crate::midi::fed(Seq::empty(), packet.data.skip(4));
    let messages = fed.messages + crate::midi::flushed(fed.held);
    assert(packet.data.len() == 4 ==> packet.data.skip(4) =~= Seq::<u8>::empty());
    crate::data_packet::law_record_read(session.parsing(), packet.data);
    crate::data_packet::law_order_kept(session.parsing(), packet.data);
    crate::data_packet::law_record_under_way(session.parsing(), packet.data);
    crate::data_packet::law_queued_standalone(session.parsing(), packet.data);
    let pending = after.timeline.pending;
    let wait = (packet.data[0] * 0x100 + packet.data[1]) * 1_000_000;
    assert forall|i: int| 0 <= i < messages.len() implies {
        let queued = #[trigger] pending[i];
        queued.bytes == messages[i] && queued.timestamp * 1_000_000 == wait
    } by {}
    let in_order = SessionView { expected: 0, ..after };
    law_due_in_nanos(in_order, reading);
    assert(after.due_messages(reading) == in_order.due_messages(reading));
    let due = after.due_messages(reading);
    assert(pending.len() == messages.len());
    assert forall|i: int| 0 <= i < messages.len() implies {
        let queued = #[trigger] pending[i];
        &&& i < due.len() <==> reading - now >= wait
        &&& i < due.len() ==> due[i] == queued.bytes
    } by {
        let queued = in_order.timeline.pending[i];
        assert(queued == pending[i]);
        assert(queued.timestamp * 1_000_000 == wait);
    }
    if reading - now >= wait {
        assert(due.len() >= messages.len()) by {
            if due.len() < messages.len() {
                let first_missing = pending[due.len() as int];
            }
        }
        assert forall|i: int| 0 <= i < due.len() implies due[i] == messages[i] by {
            assert(pending[i].bytes == messages[i]);
        }
        assert(due =~= messages);
    } else {
        assert(due.len() == 0) by {
            if due.len() > 0 {
                assert(pending[0].bytes == messages[0]);
            }
        }
        assert(due =~= Seq::empty());
    }
    if messages.len() > 0 {
        assert(pending[0].bytes == messages[0]);
    }
}

/// A datagram with any other number than the next is refused, except for the test number.
pub proof fn law_only_the_next(session: SessionView, seqnum: nat)
    requires
        seqnum != session.expected,
        seqnum != TEST_SEQNUM,
    ensures
        !session.accepts(seqnum),
{
}

/// The test number is always taken, and moves the numbering only where it is the next number.
pub proof fn law_test_seqnum(session: SessionView, packet: PacketView, now: nat)
    requires
        packet.seqnum == TEST_SEQNUM,
    ensures
        session.accepts(packet.seqnum),
        session.expected != TEST_SEQNUM ==> session.received(packet, now).expected
            == session.expected,
{
}

/// A reset forgets all that was under way: what comes of it depends on its own payload and the
/// numbering alone.
pub proof fn law_reset_forgets(session: SessionView, packet: PacketView, now: nat)
    requires
        packet.kind == (Kind::Instant { reset_queue: true }),
    ensures
        session.received(packet, now) == SessionView::clear(session.expected).received(packet, now),
        session.instant_messages(packet) == SessionView::clear(session.expected).instant_messages(
            packet,
        ),
        session.received(packet, now).timeline == Timeline::start(),
        session.received(packet, now).record.len() == 0,
        session.received(packet, now).t0 is None,
{
}

/// An instant packet without a reset leaves the queue alone.
pub proof fn law_instant_leaves_queue(session: SessionView, packet: PacketView, now: nat)
    requires
        packet.kind == (Kind::Instant { reset_queue: false }),
    ensures
        session.received(packet, now).timeline == session.timeline,
        session.received(packet, now).record == session.record,
        session.received(packet, now).t0 == session.t0,
{
}

/// A queue packet plays nothing at once and leaves an unfinished instant message alone.
pub proof fn law_queue_leaves_instant(session: SessionView, packet: PacketView, now: nat)
    requires
        packet.kind is Queue,
    ensures
        session.instant_messages(packet).len() == 0,
        session.received(packet, now).held == session.held,
{
}

/// The timeline starts when the first queue packet arrives, or the first one after a reset, and
/// stays where it is until the next reset.
pub proof fn law_first_queue_packet_starts(session: SessionView, packet: PacketView, now: nat)
    requires
        packet.kind is Queue,
    ensures
        session.t0 is None ==> session.received(packet, now).t0 == Some(now),
        session.t0 is Some ==> session.received(packet, now).t0 == session.t0,
{
}

/// MIDI may be split between instant packets anywhere: two packets play what one packet with both
/// payloads plays.
pub proof fn law_instant_in_pieces(
    session: SessionView,
    first: PacketView,
    second: PacketView,
    whole: PacketView,
    now: nat,
)
    requires
        first.kind is Instant,
        second.kind == (Kind::Instant { reset_queue: false }),
        whole.kind == first.kind,
        whole.data == first.data + second.data,
    ensures
        session.instant_messages(whole) == session.instant_messages(first) + session.received(
            first,
            now,
        ).instant_messages(second),
        session.received(whole, now).held == session.received(first, now).received(
            second,
            now,
        ).held,
{
    crate::midi::law_feed_in_pieces(
        session.held_for(first.kind->reset_queue),
        first.data,
        second.data,
    );
}

/// Records may be split between queue packets anywhere: two packets queue what one packet with
/// both payloads queues.
pub proof fn law_queue_in_pieces(
    session: SessionView,
    first: PacketView,
    second: PacketView,
    whole: PacketView,
    now: nat,
    then: nat,
)
    requires
        first.kind is Queue,
        second.kind is Queue,
        whole.kind is Queue,
        whole.data == first.data + second.data,
    ensures
        session.received(whole, now).parsing() == session.received(first, now).received(
            second,
            then,
        ).parsing(),
        session.received(whole, now).t0 == session.received(first, now).received(second, then).t0,
{
    crate::data_packet::law_parse_in_pieces(session.parsing(), first.data, second.data);
}

/// Nothing is played before its time, and at its time it is: a message of the timeline is among
/// those that are due at clock reading `now` exactly where that reading is not before the
/// message's own.
pub proof fn law_played_on_time(t0: nat, timestamp: nat, now: nat)
    ensures
        now >= t0 ==> (timestamp <= elapsed(t0, now) <==> clock_at(t0, timestamp) <= now),
{
    if now >= t0 {
        let since = now - t0;
        let unit = NANOS_PER_MILLI as int;
        assert(since == since / unit * unit + since % unit);
        assert(0 <= since % unit < unit);
    }
}

/// Sleep ends in the future, and when it ends the next message is due.
pub proof fn law_wake(session: SessionView, now: nat)
    requires
        session.wf(),
        session.t0 is Some,
        session.t0->0 <= now,
    ensures
        session.played(now).next_due() matches Some(wake) ==> {
            &&& wake > now
            &&& session.played(now).due_messages(wake).len() > 0
        },
{
    let t0 = session.t0->0;
    let at = elapsed(t0, now);
    let after = session.played(now);
    crate::message_queue::law_due_first(session.timeline, at);
    if after.timeline.pending.len() > 0 {
        let next = after.timeline.pending[0];
        let wake = clock_at(t0, next.timestamp);
        session.timeline.pending.lemma_filter_pred(
            |message: crate::message_queue::QueuedMessage| message.timestamp > at,
            0,
        );
        law_played_on_time(t0, next.timestamp, now);
        law_played_on_time(t0, next.timestamp, wake);
        crate::message_queue::lemma_due_step(after.timeline, elapsed(t0, wake));
    }
}

/// Playing between packets makes no difference to what is played: the messages that are due at
/// one time, then a queue packet, then the messages that are due at a later time, are those that
/// are due at the later time where the packet had come first.
pub proof fn law_play_between_packets(
    session: SessionView,
    packet: PacketView,
    now: nat,
    first: nat,
    second: nat,
)
    requires
        session.wf(),
        session.t0 is Some,
        packet.kind is Queue,
        first <= second,
    ensures
        session.received(packet, now).due_messages(second) == session.due_messages(first)
            + session.played(first).received(packet, now).due_messages(second),
        session.received(packet, now).played(second) == session.played(first).received(
            packet,
            now,
        ).played(second),
{
    let t0 = session.t0->0;
    let (n, m) = (elapsed(t0, first), elapsed(t0, second));
    assert(n <= m) by {
        assert(first < t0 || (first - t0) / NANOS_PER_MILLI as int <= (second - t0)
            / NANOS_PER_MILLI as int);
    }
    let timeline = session.timeline;
    let rest = timeline.later(n);
    let added = crate::data_packet::added(session.record, timeline.end, packet.data);
    crate::data_packet::lemma_added(session.parsing(), packet.data);
    crate::data_packet::lemma_added(session.played(first).parsing(), packet.data);
    crate::message_queue::law_play_in_steps(timeline, n, m);
    let is_due = |message: crate::message_queue::QueuedMessage| message.timestamp <= m;
    let is_later = |message: crate::message_queue::QueuedMessage| message.timestamp > m;
    Seq::filter_distributes_over_add(timeline.pending, added, is_due);
    Seq::filter_distributes_over_add(timeline.pending, added, is_later);
    Seq::filter_distributes_over_add(rest.pending, added, is_due);
    Seq::filter_distributes_over_add(rest.pending, added, is_later);
    let early = timeline.due_messages(n);
    let late = rest.due_messages(m);
    let fresh = added.filter(is_due);
    assert((early + late) + fresh =~= early + (late + fresh));
    assert(crate::message_queue::bytes_of(early + (late + fresh))
        =~= crate::message_queue::bytes_of(early) + crate::message_queue::bytes_of(late + fresh));
}

/// The payloads of `packets`, one after the other.
pub open spec fn payloads(packets: Seq<PacketView>) -> Seq<u8>
    decreases packets.len(),
{
    if packets.len() == 0 {
        Seq::empty()
    } else {
        payloads(packets.drop_last()) + packets.last().data
    }
}

/// A run of queue packets is read as one: the payloads follow on each other.
pub proof fn law_queue_packets_run_on(
    session: SessionView,
    packets: Seq<PacketView>,
    times: Seq<nat>,
)
    requires
        packets.len() == times.len(),
        forall|i: int| 0 <= i < packets.len() ==> (#[trigger] packets[i]).kind is Queue,
    ensures
        received_all(session, packets, times).parsing() == session.parsing().with_bytes(
            payloads(packets),
        ),
    decreases packets.len(),
{
    if packets.len() > 0 {
        law_queue_packets_run_on(session, packets.drop_last(), times.drop_last());
        crate::data_packet::law_parse_in_pieces(
            session.parsing(),
            payloads(packets.drop_last()),
            packets.last().data,
        );
    }
}

/// However records are split into queue packets, each record's messages are queued at the sum of
/// the delays up to it, in order.
pub proof fn law_records_in_packets(
    session: SessionView,
    packets: Seq<PacketView>,
    times: Seq<nat>,
    records: Seq<Record>,
)
    requires
        packets.len() == times.len(),
        forall|i: int| 0 <= i < packets.len() ==> (#[trigger] packets[i]).kind is Queue,
        forall|i: int| 0 <= i < records.len() ==> (#[trigger] records[i]).wf(),
        session.record.len() == 0,
        payloads(packets) == crate::data_packet::records_bytes(records),
    ensures
        received_all(session, packets, times).timeline == crate::data_packet::records_played_on(
            session.timeline,
            records,
        ),
{
    law_queue_packets_run_on(session, packets, times);
    crate::data_packet::law_records(session.parsing(), records);
}

} // verus!
