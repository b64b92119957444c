//! The queue of messages that wait for their time.

use std::collections::VecDeque;

use midly::live::LiveEvent;
use vstd::prelude::*;
use vstd::slice::slice_subrange;

use crate::midi::write_event;

verus! {

/// When a queued message is due and how many bytes it takes in the shared store.
#[derive(Debug)]
struct Entry {
    timestamp: u64,
    size: usize,
}

/// What a look at the front of the queue finds.
#[derive(Debug)]
pub enum PopResult<'a> {
    /// The front message was due and has left the queue: its raw bytes.
    Message(&'a [u8]),
    /// Nothing is queued.
    Empty,
    /// The front message is not due yet: the time at which it will be.
    NextTimestamp(u64),
}

/// Messages in the order in which they were queued, each with the time at which it is due.
///
/// Times are in milliseconds from the moment at which playback started. Each message is due at
/// the end of the timeline as it stood when the message was queued.
#[derive(Debug)]
pub struct MessageQueue {
    data: VecDeque<u8>,
    entries: VecDeque<Entry>,
    queue_end_timestamp: u64,
    data_to_pop: usize,
    buffer: Vec<u8>,
}

/// One queued message: when it is due, and its raw bytes.
pub struct QueuedMessage {
    pub timestamp: nat,
    pub bytes: Seq<u8>,
}

/// A message queue as a value: the messages that wait, front first, and the end of the timeline.
#[verifier::ext_equal]
pub struct Timeline {
    pub pending: Seq<QueuedMessage>,
    pub end: nat,
}

impl Timeline {
    /// Nothing queued, at time zero.
    pub open spec fn start() -> Timeline {
        Timeline { pending: Seq::empty(), end: 0 }
    }

    /// The timeline with `delta` milliseconds of silence at its end.
    pub open spec fn delayed(self, delta: nat) -> Timeline {
        Timeline { pending: self.pending, end: self.end + delta }
    }

    /// The timeline with one more message at its end.
    pub open spec fn enqueued(self, bytes: Seq<u8>) -> Timeline {
        Timeline {
            pending: self.pending.push(QueuedMessage { timestamp: self.end, bytes }),
            end: self.end,
        }
    }

    /// The timeline with `messages` at its end, in their order.
    pub open spec fn enqueued_all(self, messages: Seq<Seq<u8>>) -> Timeline {
        Timeline {
            pending: self.pending + messages.map_values(
                |bytes: Seq<u8>| QueuedMessage { timestamp: self.end, bytes },
            ),
            end: self.end,
        }
    }

    /// Whether the front message is due at time `now`.
    pub open spec fn due(self, now: nat) -> bool {
        self.pending.len() > 0 && self.pending[0].timestamp <= now
    }

    /// The timeline without its front message.
    pub open spec fn popped(self) -> Timeline {
        Timeline { pending: self.pending.drop_first(), end: self.end }
    }

    /// The messages that are due at time `now`, in order.
    pub open spec fn due_messages(self, now: nat) -> Seq<QueuedMessage> {
        self.pending.filter(|message: QueuedMessage| message.timestamp <= now)
    }

    /// The timeline without the messages that are due at time `now`.
    pub open spec fn later(self, now: nat) -> Timeline {
        Timeline {
            pending: self.pending.filter(|message: QueuedMessage| message.timestamp > now),
            end: self.end,
        }
    }

    /// Whether each message that waits stands on its own.
    pub open spec fn standalone(self) -> bool {
        forall|i: int|
            0 <= i < self.pending.len() ==> crate::midi::standalone(
                (#[trigger] self.pending[i]).bytes,
            )
    }

    /// Messages wait in the order of their times, and none lies beyond the end.
    pub open spec fn ordered(self) -> bool {
        &&& forall|i: int, j: int|
            0 <= i <= j < self.pending.len() ==> self.pending[i].timestamp
                <= self.pending[j].timestamp
        &&& forall|i: int|
            0 <= i < self.pending.len() ==> (#[trigger] self.pending[i]).timestamp <= self.end
    }
}

/// The bytes of each of `messages`.
pub open spec fn bytes_of(messages: Seq<QueuedMessage>) -> Seq<Seq<u8>> {
    messages.map_values(|message: QueuedMessage| message.bytes)
}

/// The bytes of `messages`, one message after the other.
pub open spec fn concatenated(messages: Seq<QueuedMessage>) -> Seq<u8>
    decreases messages.len(),
{
    if messages.len() == 0 {
        Seq::empty()
    } else {
        concatenated(messages.drop_last()) + messages.last().bytes
    }
}

proof fn lemma_filter_all<A>(s: Seq<A>, pred: spec_fn(A) -> bool)
    requires
        forall|i: int| 0 <= i < s.len() ==> pred(#[trigger] s[i]),
    ensures
        s.filter(pred) == s,
    decreases s.len(),
{
    reveal(Seq::filter);
    if s.len() > 0 {
        let part = s.drop_last();
        assert forall|i: int| 0 <= i < part.len() implies pred(#[trigger] part[i]) by {
            assert(part[i] == s[i]);
        }
        lemma_filter_all(part, pred);
        assert(part.push(s.last()) =~= s);
    } else {
        assert(s.filter(pred) =~= s);
    }
}

proof fn lemma_filter_none<A>(s: Seq<A>, pred: spec_fn(A) -> bool)
    requires
        forall|i: int| 0 <= i < s.len() ==> !pred(#[trigger] s[i]),
    ensures
        s.filter(pred).len() == 0,
    decreases s.len(),
{
    reveal(Seq::filter);
    if s.len() > 0 {
        let part = s.drop_last();
        assert forall|i: int| 0 <= i < part.len() implies !pred(#[trigger] part[i]) by {
            assert(part[i] == s[i]);
        }
        lemma_filter_none(part, pred);
    }
}

proof fn lemma_filter_first<A>(s: Seq<A>, pred: spec_fn(A) -> bool)
    requires
        s.len() > 0,
    ensures
        pred(s[0]) ==> s.filter(pred) == seq![s[0]] + s.drop_first().filter(pred),
        !pred(s[0]) ==> s.filter(pred) == s.drop_first().filter(pred),
{
    let first = seq![s[0]];
    assert(s =~= first + s.drop_first());
    Seq::filter_distributes_over_add(first, s.drop_first(), pred);
    assert(first.filter(pred) =~= if pred(s[0]) {
        first
    } else {
        Seq::empty()
    }) by {
        reveal_with_fuel(Seq::filter, 2);
        assert(first.drop_last() =~= Seq::empty());
    }
    assert(Seq::<A>::empty() + s.drop_first().filter(pred) =~= s.drop_first().filter(pred));
}

/// A due message at the front is the first to be played; where the front message is not due,
/// nothing is.
pub proof fn lemma_due_step(timeline: Timeline, now: nat)
    requires
        timeline.ordered(),
    ensures
        timeline.due(now) ==> {
            &&& timeline.due_messages(now) == seq![timeline.pending[0]]
                + timeline.popped().due_messages(now)
            &&& timeline.later(now) == timeline.popped().later(now)
        },
        !timeline.due(now) ==> {
            &&& timeline.due_messages(now).len() == 0
            &&& timeline.later(now) == timeline
        },
{
    let is_due = |message: QueuedMessage| message.timestamp <= now;
    let is_later = |message: QueuedMessage| message.timestamp > now;
    if timeline.due(now) {
        lemma_filter_first(timeline.pending, is_due);
        lemma_filter_first(timeline.pending, is_later);
    } else {
        lemma_filter_none(timeline.pending, is_due);
        lemma_filter_all(timeline.pending, is_later);
        assert(timeline.later(now) =~= timeline);
    }
}

proof fn lemma_popped_ordered(timeline: Timeline)
    requires
        timeline.ordered(),
        timeline.pending.len() > 0,
    ensures
        timeline.popped().ordered(),
{
}

proof fn lemma_later_ordered(timeline: Timeline, now: nat)
    requires
        timeline.ordered(),
    ensures
        timeline.later(now).ordered(),
    decreases timeline.pending.len(),
{
    lemma_due_step(timeline, now);
    if timeline.due(now) {
        lemma_popped_ordered(timeline);
        lemma_later_ordered(timeline.popped(), now);
    }
}

proof fn lemma_filter_splits<A>(s: Seq<A>, front: spec_fn(A) -> bool, back: spec_fn(A) -> bool)
    requires
        forall|i: int| 0 <= i < s.len() ==> back(#[trigger] s[i]) == !front(s[i]),
        forall|i: int, j: int|
            0 <= i <= j < s.len() && front(#[trigger] s[j]) ==> front(#[trigger] s[i]),
    ensures
        s.filter(front).len() <= s.len(),
        s.filter(front) == s.take(s.filter(front).len() as int),
        s.filter(back) == s.skip(s.filter(front).len() as int),
    decreases s.len(),
{
    if s.len() == 0 || front(s.last()) {
        assert forall|i: int| 0 <= i < s.len() implies front(#[trigger] s[i]) by {
            assert(front(s[s.len() - 1]));
        }
        lemma_filter_all(s, front);
        lemma_filter_none(s, back);
        assert(s.take(s.len() as int) =~= s);
        assert(s.filter(back) =~= s.skip(s.len() as int));
    } else {
        reveal(Seq::filter);
        let part = s.drop_last();
        lemma_filter_splits(part, front, back);
        let count = part.filter(front).len() as int;
        assert(part.take(count) =~= s.take(count));
        assert(part.skip(count).push(s.last()) =~= s.skip(count));
    }
}

/// A delay moves the end of the timeline by as many milliseconds, and nothing else: two delays come
/// to one of their sum.
pub proof fn law_delay_moves_end(timeline: Timeline, first: nat, second: nat)
    ensures
        timeline.delayed(first).end == timeline.end + first,
        timeline.delayed(first).pending == timeline.pending,
        timeline.delayed(first).delayed(second) == timeline.delayed(first + second),
        Timeline::start().end == 0,
        Timeline::start().pending.len() == 0,
{
}

/// A message is queued behind all others, as it is, at the end of the timeline.
pub proof fn law_queued_at_end(timeline: Timeline, bytes: Seq<u8>)
    ensures
        timeline.enqueued(bytes).end == timeline.end,
        timeline.enqueued(bytes).pending.len() == timeline.pending.len() + 1,
        timeline.enqueued(bytes).pending.last().timestamp == timeline.end,
        timeline.enqueued(bytes).pending.last().bytes == bytes,
        timeline.enqueued(bytes).pending.drop_last() == timeline.pending,
        timeline.enqueued_all(seq![bytes]) == timeline.enqueued(bytes),
{
    assert(timeline.enqueued(bytes).pending.drop_last() =~= timeline.pending);
    assert(timeline.enqueued_all(seq![bytes]) =~= timeline.enqueued(bytes));
}

/// Messages are queued behind all others, every one of them, as they are and in their order, at the
/// end of the timeline; to queue some and then the rest comes to the same.
pub proof fn law_all_queued_at_end(timeline: Timeline, first: Seq<Seq<u8>>, second: Seq<Seq<u8>>)
    ensures
        timeline.enqueued_all(first).end == timeline.end,
        timeline.enqueued_all(first).pending.len() == timeline.pending.len() + first.len(),
        forall|i: int|
            0 <= i < timeline.pending.len() ==> #[trigger] timeline.enqueued_all(first).pending[i]
                == timeline.pending[i],
        forall|i: int|
            #![trigger first[i]]
            0 <= i < first.len() ==> {
                let queued = timeline.enqueued_all(first).pending[timeline.pending.len() + i];
                queued.bytes == first[i] && queued.timestamp == timeline.end
            },
        timeline.enqueued_all(first).enqueued_all(second) == timeline.enqueued_all(first + second),
{
    assert(timeline.enqueued_all(first).enqueued_all(second) =~= timeline.enqueued_all(
        first + second,
    ));
}

/// The front message can be taken from its own time on and not before, and leaves the others as
/// they are.
pub proof fn law_front_taken(timeline: Timeline, now: nat)
    ensures
        timeline.due(now) <==> timeline.pending.len() > 0 && timeline.pending[0].timestamp <= now,
        timeline.pending.len() > 0 ==> {
            &&& seq![timeline.pending[0]] + timeline.popped().pending == timeline.pending
            &&& timeline.popped().end == timeline.end
        },
{
    if timeline.pending.len() > 0 {
        assert(seq![timeline.pending[0]] + timeline.popped().pending =~= timeline.pending);
    }
}

/// The messages that are due are those whose time is not later than `now`, the others wait on, and
/// each message that waited is the one or the other.
pub proof fn law_due_by_time(timeline: Timeline, now: nat)
    requires
        timeline.ordered(),
    ensures
        timeline.due_messages(now).len() + timeline.later(now).pending.len()
            == timeline.pending.len(),
        timeline.later(now).end == timeline.end,
        forall|i: int|
            0 <= i < timeline.pending.len() ==> {
                let waiting = #[trigger] timeline.pending[i];
                let count = timeline.due_messages(now).len();
                &&& waiting.timestamp <= now <==> i < count
                &&& i < count ==> timeline.due_messages(now)[i] == waiting
                &&& i >= count ==> timeline.later(now).pending[i - count] == waiting
            },
{
    law_due_first(timeline, now);
    let due = timeline.due_messages(now);
    let later = timeline.later(now).pending;
    assert forall|i: int| 0 <= i < timeline.pending.len() implies {
        let waiting = #[trigger] timeline.pending[i];
        &&& waiting.timestamp <= now <==> i < due.len()
        &&& i < due.len() ==> due[i] == waiting
        &&& i >= due.len() ==> later[i - due.len()] == waiting
    } by {
        if i < due.len() {
            timeline.pending.lemma_filter_pred(
                |message: QueuedMessage| message.timestamp <= now,
                i,
            );
        } else {
            timeline.pending.lemma_filter_pred(
                |message: QueuedMessage| message.timestamp > now,
                i - due.len(),
            );
        }
    }
}

/// The bytes of messages are those of each of them, none left out.
pub proof fn law_bytes_of_each(messages: Seq<QueuedMessage>)
    ensures
        bytes_of(messages).len() == messages.len(),
        forall|i: int|
            0 <= i < messages.len() ==> #[trigger] bytes_of(messages)[i] == messages[i].bytes,
{
}

/// What is due stands at the front of the queue, and what is not due yet is all that stands
/// behind it: playing takes messages from the front, in order, and loses none.
pub proof fn law_due_first(timeline: Timeline, now: nat)
    requires
        timeline.ordered(),
    ensures
        timeline.due_messages(now).len() <= timeline.pending.len(),
        timeline.due_messages(now) == timeline.pending.take(
            timeline.due_messages(now).len() as int,
        ),
        timeline.later(now).pending == timeline.pending.skip(
            timeline.due_messages(now).len() as int,
        ),
        timeline.later(now).ordered(),
{
    lemma_filter_splits(
        timeline.pending,
        |message: QueuedMessage| message.timestamp <= now,
        |message: QueuedMessage| message.timestamp > now,
    );
    lemma_later_ordered(timeline, now);
}

/// Playing what is due at one time and then what is due at a later one plays what was due at the
/// later time.
pub proof fn law_play_in_steps(timeline: Timeline, first: nat, second: nat)
    requires
        timeline.ordered(),
        first <= second,
    ensures
        timeline.due_messages(second) == timeline.due_messages(first) + timeline.later(
            first,
        ).due_messages(second),
        timeline.later(second) == timeline.later(first).later(second),
    decreases timeline.pending.len(),
{
    lemma_due_step(timeline, first);
    lemma_due_step(timeline, second);
    if timeline.due(first) {
        law_play_in_steps(timeline.popped(), first, second);
        assert(timeline.due_messages(second) =~= timeline.due_messages(first) + timeline.later(
            first,
        ).due_messages(second));
    } else {
        assert(timeline.due_messages(first) + timeline.due_messages(second)
            =~= timeline.due_messages(second));
    }
}

proof fn lemma_queued_times(timeline: Timeline, messages: Seq<Seq<u8>>, i: int)
    requires
        timeline.ordered(),
        0 <= i < timeline.enqueued_all(messages).pending.len(),
    ensures
        timeline.enqueued_all(messages).pending[i].timestamp <= timeline.end,
{
    if i < timeline.pending.len() {
        assert(timeline.enqueued_all(messages).pending[i] == timeline.pending[i]);
    }
}

proof fn lemma_queued_bytes(timeline: Timeline, messages: Seq<Seq<u8>>)
    ensures
        bytes_of(timeline.enqueued_all(messages).pending) == bytes_of(timeline.pending) + messages,
{
    assert(bytes_of(timeline.enqueued_all(messages).pending) =~= bytes_of(timeline.pending)
        + messages);
}

/// What was queued comes out, once its time has come: in the order in which it was queued, and
/// behind what was queued before.
pub proof fn law_first_in_first_out(timeline: Timeline, messages: Seq<Seq<u8>>, now: nat)
    requires
        timeline.ordered(),
        timeline.end <= now,
    ensures
        bytes_of(timeline.enqueued_all(messages).due_messages(now)) == bytes_of(timeline.pending)
            + messages,
        timeline.enqueued_all(messages).later(now).pending.len() == 0,
{
    let queued = timeline.enqueued_all(messages).pending;
    assert forall|i: int| 0 <= i < queued.len() implies (#[trigger] queued[i]).timestamp <= now by {
        lemma_queued_times(timeline, messages, i);
    }
    lemma_filter_all(queued, |message: QueuedMessage| message.timestamp <= now);
    lemma_filter_none(queued, |message: QueuedMessage| message.timestamp > now);
    lemma_queued_bytes(timeline, messages);
}

/// The number of bytes that the first `n` of `entries` take.
spec fn offset(entries: Seq<Entry>, n: int) -> int
    decreases n,
{
    if n <= 0 {
        0
    } else {
        offset(entries, n - 1) + entries[n - 1].size
    }
}

proof fn lemma_offset_agrees(a: Seq<Entry>, b: Seq<Entry>, n: int)
    requires
        n <= a.len(),
        n <= b.len(),
        forall|i: int| 0 <= i < n ==> a[i] == b[i],
    ensures
        offset(a, n) == offset(b, n),
    decreases n,
{
    if n > 0 {
        lemma_offset_agrees(a, b, n - 1);
    }
}

proof fn lemma_offset_without_first(entries: Seq<Entry>, n: int)
    requires
        0 <= n < entries.len(),
    ensures
        offset(entries.drop_first(), n) == offset(entries, n + 1) - entries[0].size,
    decreases n,
{
    if n > 0 {
        lemma_offset_without_first(entries, n - 1);
    } else {
        assert(offset(entries, 1) == offset(entries, 0) + entries[0].size);
    }
}

proof fn lemma_offset_monotonic(entries: Seq<Entry>, n: int, m: int)
    requires
        0 <= n <= m,
    ensures
        0 <= offset(entries, n) <= offset(entries, m),
    decreases m,
{
    if n < m {
        lemma_offset_monotonic(entries, n, m - 1);
    } else if n > 0 {
        lemma_offset_monotonic(entries, n - 1, n - 1);
    }
}

/// `VecDeque::make_contiguous`: the contents in order, as one slice; the order stays as it was.
#[verifier::external_body]
fn deque_contiguous(deque: &mut VecDeque<u8>) -> (slice: &[u8])
    ensures
        slice@ == old(deque)@,
        final(deque)@ == old(deque)@,
{
    deque.make_contiguous()
}

impl View for MessageQueue {
    type V = Timeline;

    closed spec fn view(&self) -> Timeline {
        Timeline {
            pending: Seq::new(
                self.entries@.len(),
                |i: int|
                    QueuedMessage {
                        timestamp: self.entries@[i].timestamp as nat,
                        bytes: self.data@.subrange(
                            self.data_to_pop + offset(self.entries@, i),
                            self.data_to_pop + offset(self.entries@, i + 1),
                        ),
                    },
            ),
            end: self.queue_end_timestamp as nat,
        }
    }
}

impl MessageQueue {
    /// The store holds the bytes of the message popped last, then those of the queued messages,
    /// and nothing else; the messages are in the order of their times.
    pub closed spec fn wf(&self) -> bool {
        &&& self.data_to_pop + offset(self.entries@, self.entries@.len() as int)
            == self.data@.len()
        &&& self@.ordered()
    }

    /// All bytes that the queue keeps.
    pub closed spec fn stored(&self) -> Seq<u8> {
        self.data@
    }

    /// How many bytes at the front of the store belong to a message that was popped.
    pub closed spec fn used(&self) -> nat {
        self.data_to_pop as nat
    }

    /// The messages of a queue that is in order wait in the order of their times, and behind the
    /// used bytes the store holds exactly their bytes.
    pub proof fn lemma_wf(&self)
        requires
            self.wf(),
        ensures
            self@.ordered(),
            forall|i: int, j: int|
                0 <= i <= j < self@.pending.len() ==> self@.pending[i].timestamp
                    <= self@.pending[j].timestamp,
            forall|i: int|
                0 <= i < self@.pending.len() ==> (#[trigger] self@.pending[i]).timestamp
                    <= self@.end,
            self.used() <= self.stored().len(),
            self.stored().skip(self.used() as int) == concatenated(self@.pending),
    {
        let count = self.entries@.len() as int;
        lemma_offset_monotonic(self.entries@, 0, count);
        self.lemma_stored(count);
        assert(self@.pending.take(count) =~= self@.pending);
        assert(self.stored().skip(self.used() as int) =~= concatenated(self@.pending));
    }

    proof fn lemma_stored(&self, n: int)
        requires
            self.wf(),
            0 <= n <= self.entries@.len(),
        ensures
            concatenated(self@.pending.take(n)) == self.data@.subrange(
                self.data_to_pop as int,
                self.data_to_pop + offset(self.entries@, n),
            ),
        decreases n,
    {
        lemma_offset_monotonic(self.entries@, 0, n);
        lemma_offset_monotonic(self.entries@, n, self.entries@.len() as int);
        if n > 0 {
            self.lemma_stored(n - 1);
            lemma_offset_monotonic(self.entries@, 0, n - 1);
            lemma_offset_monotonic(self.entries@, n - 1, n);
            assert(self@.pending.take(n).drop_last() =~= self@.pending.take(n - 1));
        }
        assert(concatenated(self@.pending.take(n)) =~= self.data@.subrange(
            self.data_to_pop as int,
            self.data_to_pop + offset(self.entries@, n),
        ));
    }

    /// An empty queue at time zero.
    pub fn new() -> (queue: Self)
        ensures
            queue.wf(),
            queue@ == Timeline::start(),
            queue@.pending.len() == 0,
            queue@.end == 0,
            queue.used() == 0,
    {
        Self {
            data: VecDeque::new(),
            entries: VecDeque::new(),
            queue_end_timestamp: 0,
            data_to_pop: 0,
            buffer: Vec::new(),
        }
    }

    /// Forgets every message and goes back to time zero.
    pub fn reset(&mut self)
        ensures
            final(self).wf(),
            final(self)@ == Timeline::start(),
            final(self)@.pending.len() == 0,
            final(self)@.end == 0,
            final(self).used() == 0,
    {
        self.data.clear();
        self.entries.clear();
        self.queue_end_timestamp = 0;
        self.data_to_pop = 0;
    }

    /// The end of the timeline.
    pub fn end_timestamp(&self) -> (end: u64)
        ensures
            end == self@.end,
    {
        self.queue_end_timestamp
    }

    /// Drops the bytes of the message popped last: those and no others. Where there are none to
    /// drop, as after a first call, nothing changes.
    pub fn clear_used_data(&mut self)
        requires
            old(self).wf(),
        ensures
            final(self).wf(),
            final(self)@ == old(self)@,
            final(self).used() == 0,
            final(self).stored() == old(self).stored().skip(old(self).used() as int),
            final(self).stored() == concatenated(final(self)@.pending),
            old(self).used() == 0 ==> final(self).stored() == old(self).stored(),
    {
        let count: usize = self.data_to_pop;
        let ghost before = self.data@;
        proof {
            lemma_offset_monotonic(self.entries@, 0, self.entries@.len() as int);
        }
        let mut dropped: usize = 0;
        while dropped < count
            invariant
                dropped <= count <= before.len(),
                self.data@ == before.skip(dropped as int),
                self.entries@ == old(self).entries@,
                self.queue_end_timestamp == old(self).queue_end_timestamp,
                self.data_to_pop == old(self).data_to_pop,
            decreases count - dropped,
        {
            self.data.pop_front();
            dropped += 1;
            assert(self.data@ =~= before.skip(dropped as int));
        }
        self.data_to_pop = 0;
        proof {
            assert forall|i: int| 0 <= i < self.entries@.len() implies self@.pending[i] == old(
                self,
            )@.pending[i] by {
                lemma_offset_monotonic(self.entries@, i, i + 1);
                lemma_offset_monotonic(self.entries@, i + 1, self.entries@.len() as int);
                assert(self@.pending[i].bytes =~= old(self)@.pending[i].bytes);
            }
            assert(self@ =~= old(self)@);
            self.lemma_wf();
            assert(self.stored().skip(0) =~= self.stored());
        }
    }

    /// Moves the end of the timeline `delta` milliseconds on.
    pub fn add_delta_time(&mut self, delta: u64)
        requires
            old(self).wf(),
            old(self)@.end + delta <= u64::MAX,
        ensures
            final(self).wf(),
            final(self)@ == old(self)@.delayed(delta as nat),
            final(self)@.end == old(self)@.end + delta,
            final(self)@.pending == old(self)@.pending,
            final(self).used() == 0,
    {
        self.clear_used_data();
        self.queue_end_timestamp += delta;
        assert(self@.pending =~= old(self)@.pending);
    }

    /// Queues `message` at the end of the timeline.
    pub fn enqueue(&mut self, message: &LiveEvent<'_>)
        requires
            old(self).wf(),
        ensures
            final(self).wf(),
            final(self)@ == old(self)@.enqueued(crate::midi::wire_bytes(*message)),
            final(self).used() == 0,
    {
        let mut buffer: Vec<u8> = Vec::new();
        std::mem::swap(&mut buffer, &mut self.buffer);
        buffer.clear();
        write_event(message, &mut buffer);
        assert(self@ =~= old(self)@);
        self.enqueue_raw(buffer.as_slice());
        self.buffer = buffer;
    }

    /// Queues a message that is already written out as `bytes` at the end of the timeline.
    pub fn enqueue_raw(&mut self, bytes: &[u8])
        requires
            old(self).wf(),
        ensures
            final(self).wf(),
            final(self)@ == old(self)@.enqueued(bytes@),
            final(self)@.end == old(self)@.end,
            final(self)@.pending.len() == old(self)@.pending.len() + 1,
            final(self)@.pending.drop_last() == old(self)@.pending,
            final(self)@.pending.last().timestamp == old(self)@.end,
            final(self)@.pending.last().bytes == bytes@,
            final(self).used() == 0,
    {
        self.clear_used_data();
        let ghost data = self.data@;
        let ghost entries = self.entries@;
        let mut copied: usize = 0;
        while copied < bytes.len()
            invariant
                copied <= bytes@.len(),
                self.data@ == data + bytes@.take(copied as int),
                self.entries@ == entries,
                self.queue_end_timestamp == old(self).queue_end_timestamp,
                self.data_to_pop == 0,
            decreases bytes.len() - copied,
        {
            self.data.push_back(bytes[copied]);
            copied += 1;
            assert(self.data@ =~= data + bytes@.take(copied as int));
        }
        self.entries.push_back(
            Entry { timestamp: self.queue_end_timestamp, size: bytes.len() },
        );
        proof {
            let count = entries.len() as int;
            lemma_offset_agrees(entries, self.entries@, count);
            assert forall|i: int| 0 <= i < count implies self@.pending[i] == old(
                self,
            )@.pending[i] by {
                lemma_offset_agrees(entries, self.entries@, i);
                lemma_offset_agrees(entries, self.entries@, i + 1);
                lemma_offset_monotonic(entries, i, i + 1);
                lemma_offset_monotonic(entries, i + 1, count);
                assert(self.data@.subrange(offset(entries, i), offset(entries, i + 1))
                    =~= data.subrange(offset(entries, i), offset(entries, i + 1)));
            }
            lemma_offset_monotonic(entries, 0, count);
            assert(offset(self.entries@, count + 1) == data.len() + bytes@.len());
            assert(self@.pending[count].bytes =~= bytes@);
            assert(self@ =~= old(self)@.enqueued(bytes@));
        }
    }

    /// Queues each of `messages`, already written out, at the end of the timeline.
    pub fn enqueue_all(&mut self, messages: &Vec<Vec<u8>>)
        requires
            old(self).wf(),
        ensures
            final(self).wf(),
            final(self)@ == old(self)@.enqueued_all(crate::midi::raw(messages@)),
            final(self).used() == 0,
    {
        self.clear_used_data();
        let ghost bytes = crate::midi::raw(messages@);
        let mut queued: usize = 0;
        assert(self@ =~= old(self)@.enqueued_all(bytes.take(0)));
        while queued < messages.len()
            invariant
                queued <= messages@.len(),
                bytes == crate::midi::raw(messages@),
                self.wf(),
                self.used() == 0,
                self@ == old(self)@.enqueued_all(bytes.take(queued as int)),
            decreases messages.len() - queued,
        {
            self.enqueue_raw(messages[queued].as_slice());
            queued += 1;
            assert(self@ =~= old(self)@.enqueued_all(bytes.take(queued as int)));
        }
        assert(bytes.take(queued as int) =~= bytes);
    }

    /// Takes the front message if it is due at `cur_timestamp`.
    pub fn pop<'a>(&'a mut self, cur_timestamp: u64) -> (result: PopResult<'a>)
        requires
            old(self).wf(),
        ensures
            final(self).wf(),
            match result {
                PopResult::Message(bytes) => {
                    &&& old(self)@.due(cur_timestamp as nat)
                    &&& old(self)@.pending.len() > 0
                    &&& old(self)@.pending[0].timestamp <= cur_timestamp
                    &&& final(self)@.pending == old(self)@.pending.drop_first()
                    &&& final(self)@.end == old(self)@.end
                    &&& bytes@ == old(self)@.pending[0].bytes
                    &&& final(self)@ == old(self)@.popped()
                    &&& final(self).used() == bytes@.len()
                    &&& final(self).stored().take(final(self).used() as int) == bytes@
                },
                PopResult::Empty => {
                    &&& old(self)@.pending.len() == 0
                    &&& final(self)@ == old(self)@
                    &&& final(self).used() == 0
                },
                PopResult::NextTimestamp(timestamp) => {
                    &&& old(self)@.pending.len() > 0
                    &&& timestamp == old(self)@.pending[0].timestamp
                    &&& timestamp > cur_timestamp
                    &&& final(self)@ == old(self)@
                    &&& final(self).used() == 0
                },
            },
    {
        self.clear_used_data();
        if self.entries.len() == 0 {
            return PopResult::Empty;
        }
        let timestamp: u64 = self.entries[0].timestamp;
        if timestamp > cur_timestamp {
            return PopResult::NextTimestamp(timestamp);
        }
        let size: usize = self.entries[0].size;
        let ghost entries = self.entries@;
        self.entries.pop_front();
        self.data_to_pop = size;
        proof {
            let count = entries.len() as int;
            assert(self.entries@ =~= entries.drop_first());
            reveal_with_fuel(offset, 2);
            assert(offset(entries, 1) == size);
            lemma_offset_monotonic(entries, 1, count);
            lemma_offset_without_first(entries, count - 1);
            assert forall|i: int| 0 <= i < count - 1 implies self@.pending[i] == old(
                self,
            )@.pending[i + 1] by {
                lemma_offset_without_first(entries, i);
                lemma_offset_without_first(entries, i + 1);
                lemma_offset_monotonic(entries, 1, i + 1);
                lemma_offset_monotonic(entries, i + 1, i + 2);
                lemma_offset_monotonic(entries, i + 2, count);
                assert(self@.pending[i].bytes =~= old(self)@.pending[i + 1].bytes);
            }
            assert(self@ =~= old(self)@.popped());
            assert(self.data@.subrange(0, size as int) =~= old(self)@.pending[0].bytes);
        }
        let all = deque_contiguous(&mut self.data);
        PopResult::Message(slice_subrange(all, 0, size))
    }
}

} // verus!
