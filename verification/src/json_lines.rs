//! Lines of JSON: how one is framed, and how lines are read by a task of their own.
//!
//! A task reads lines from a stream and hands them over a channel, so that a read can be given up
//! at any time without losing part of a line. It ends where the stream ends or fails, or where
//! nobody takes the lines any more; what stopped it is known once it was joined.

use vstd::prelude::*;
use vstd::string::*;

verus! {

/// A value, written as JSON, as a line of its own.
pub fn frame(json: String) -> (line: String)
    ensures
        line@ == json@.push('\n'),
{
    let mut line = json;
    line.append("\n");
    proof {
        reveal_strlit("\n");
        assert(line@ =~= json@.push('\n'));
    }
    line
}

/// What the reading task does next.
#[derive(Debug)]
pub enum TaskStep<E> {
    /// Read a line.
    Read,
    /// Hand over the line that was read.
    Send,
    /// End, and leave what went wrong behind.
    Stop(Option<E>),
}

/// What the reading task does after a read: no bytes are the end of the stream.
pub fn after_read<E>(read: Result<usize, E>) -> (step: TaskStep<E>)
    ensures
        step == match read {
            Ok(count) => if count == 0 {
                TaskStep::Stop(None)
            } else {
                TaskStep::Send
            },
            Err(error) => TaskStep::Stop(Some(error)),
        },
{
    match read {
        Ok(count) => {
            if count == 0 {
                TaskStep::Stop(None)
            } else {
                TaskStep::Send
            }
        },
        Err(error) => TaskStep::Stop(Some(error)),
    }
}

/// What the reading task does after it offered a line: a closed channel ends it.
pub fn after_send<E>(taken: bool) -> (step: TaskStep<E>)
    ensures
        step == if taken {
            TaskStep::<E>::Read
        } else {
            TaskStep::Stop(None)
        },
{
    if taken {
        TaskStep::Read
    } else {
        TaskStep::Stop(None)
    }
}

/// Where the reading of lines stands.
#[derive(Debug, Clone, Copy)]
pub enum ReaderState {
    /// The task may still hand over lines.
    Open,
    /// The channel is closed, and the task is to be joined.
    Joining,
    /// The task was joined.
    Finished,
    /// The task panicked.
    Panicked,
}

/// What a read waits for.
#[derive(Debug, Clone, Copy)]
pub enum ReadStart {
    /// The next line from the channel.
    Receive,
    /// The end of the task: the channel is known to be closed.
    Join,
    /// Nothing: there are no more lines.
    NoLine,
}

/// What came of waiting for the channel.
#[derive(Debug)]
pub enum Received {
    /// A line.
    Line(Vec<u8>),
    /// The channel is closed: join the task.
    Join,
}

impl ReaderState {
    /// What a read waits for.
    pub open spec fn start(self) -> ReadStart {
        match self {
            ReaderState::Open => ReadStart::Receive,
            ReaderState::Joining => ReadStart::Join,
            ReaderState::Finished => ReadStart::NoLine,
            ReaderState::Panicked => ReadStart::NoLine,
        }
    }

    /// Where the reading stands once the channel gave a line, or was found closed.
    pub open spec fn after_channel(self, line: Option<Vec<u8>>) -> ReaderState {
        match line {
            Some(_) => self,
            None => ReaderState::Joining,
        }
    }

    /// What joining the task gives where `error` stopped it: nothing where a read has told of it.
    pub open spec fn join<E>(self, error: Option<E>) -> Option<E> {
        match self {
            ReaderState::Finished => None,
            _ => error,
        }
    }
}

/// What a read that ran to its end came to.
pub enum Reading<E> {
    /// A line.
    Line(Vec<u8>),
    /// There are no more lines.
    NoLine,
    /// What stopped the task.
    Failed(E),
}

/// A reader and what is still to come of its task: the lines on their way through the channel,
/// which is closed behind the last of them, and what stops the task, which does not panic.
#[verifier::ext_equal]
pub struct Course<E> {
    pub state: ReaderState,
    pub lines: Seq<Vec<u8>>,
    pub error: Option<E>,
}

impl<E> Course<E> {
    /// What the channel gives next: a line, or `None` where it is closed.
    pub open spec fn channel(self) -> Option<Vec<u8>> {
        if self.lines.len() > 0 {
            Some(self.lines[0])
        } else {
            None
        }
    }

    /// Where a read leaves things once the channel gave what it gives next.
    pub open spec fn received(self) -> Course<E> {
        Course {
            state: self.state.after_channel(self.channel()),
            lines: if self.lines.len() > 0 {
                self.lines.drop_first()
            } else {
                self.lines
            },
            error: self.error,
        }
    }

    /// What a read comes to once the task was joined, and where that leaves things.
    pub open spec fn joined(self) -> (Reading<E>, Course<E>) {
        (
            match self.error {
                Some(error) => Reading::Failed(error),
                None => Reading::NoLine,
            },
            Course { state: ReaderState::Finished, ..self },
        )
    }

    /// What a read that runs to its end comes to, and where it leaves things.
    pub open spec fn read(self) -> (Reading<E>, Course<E>) {
        match self.state.start() {
            ReadStart::Receive => match self.channel() {
                Some(line) => (Reading::Line(line), self.received()),
                None => self.received().joined(),
            },
            ReadStart::Join => self.joined(),
            ReadStart::NoLine => (Reading::NoLine, self),
        }
    }

    /// What `count` reads that run to their ends come to, one after the other.
    pub open spec fn reads(self, count: nat) -> Seq<Reading<E>>
        decreases count,
    {
        if count == 0 {
            Seq::empty()
        } else {
            seq![self.read().0] + self.read().1.reads((count - 1) as nat)
        }
    }

    /// Where `count` reads that run to their ends leave things.
    pub open spec fn after_reads(self, count: nat) -> Course<E>
        decreases count,
    {
        if count == 0 {
            self
        } else {
            self.read().1.after_reads((count - 1) as nat)
        }
    }

    /// What joining the task gives, in place of any more reads.
    pub open spec fn join(self) -> Option<E> {
        self.state.join(self.error)
    }

    /// Whether a read that is given up can leave things as in `after`: as they were where it waited
    /// for the channel or for the task, and with the channel known to be closed where it found
    /// that out before.
    pub open spec fn given_up(self, after: Course<E>) -> bool {
        ||| after == self
        ||| self.state.start() is Receive && self.channel() is None && after == self.received()
    }
}

/// A read can be given up at any time: it changes nothing that later reads return, no line and
/// no error is lost or comes twice, and the task can be joined where it could be before, with the
/// same outcome.
pub proof fn law_cancel_safe<E>(course: Course<E>, after: Course<E>, count: nat)
    requires
        course.given_up(after),
    ensures
        after.reads(count) == course.reads(count),
        after.state is Panicked <==> course.state is Panicked,
        after.join() == course.join(),
{
}

/// The errors among `readings`, in order.
pub open spec fn errors_of<E>(readings: Seq<Reading<E>>) -> Seq<E>
    decreases readings.len(),
{
    if readings.len() == 0 {
        Seq::empty()
    } else {
        let rest = errors_of(readings.drop_first());
        match readings[0] {
            Reading::Failed(error) => seq![error] + rest,
            _ => rest,
        }
    }
}

/// An error as a sequence: one element where there is an error.
pub open spec fn error_seq<E>(error: Option<E>) -> Seq<E> {
    match error {
        Some(error) => seq![error],
        None => Seq::empty(),
    }
}

/// What stops the task comes out once, by a read or by the join, however many reads there are
/// before the join.
pub proof fn law_error_once<E>(course: Course<E>, count: nat)
    requires
        course.state is Open || course.state is Joining,
    ensures
        errors_of(course.reads(count)) + error_seq(course.after_reads(count).join()) == error_seq(
            course.error,
        ),
    decreases count,
{
    if count == 0 {
        assert(Seq::<E>::empty() + error_seq(course.error) =~= error_seq(course.error));
    } else {
        let (reading, next) = course.read();
        let part = (count - 1) as nat;
        let readings = course.reads(count);
        assert(readings.drop_first() =~= next.reads(part));
        assert(readings[0] == reading);
        if next.state is Finished {
            lemma_no_more_errors(next, part);
            assert(errors_of(readings) =~= error_seq(course.error));
            assert(error_seq(course.error) + Seq::empty() =~= error_seq(course.error));
        } else {
            law_error_once(next, part);
        }
    }
}

/// Joining ignores lines that nobody has read.
pub proof fn law_join_ignores_lines<E>(course: Course<E>, lines: Seq<Vec<u8>>)
    ensures
        course.join() == (Course { lines, ..course }).join(),
{
}

proof fn lemma_no_more_errors<E>(course: Course<E>, count: nat)
    requires
        course.state is Finished,
    ensures
        errors_of(course.reads(count)).len() == 0,
        course.after_reads(count).join() is None,
    decreases count,
{
    if count > 0 {
        lemma_no_more_errors(course, (count - 1) as nat);
        assert(course.reads(count).drop_first() =~= course.reads((count - 1) as nat));
    }
}

/// Reads give every line once and in order, then what stopped the task, once, and then no line.
pub proof fn law_every_line_once<E>(course: Course<E>, count: nat)
    requires
        course.state is Open,
    ensures
        course.reads(course.lines.len() + 1 + count) == course.lines.map_values(
            |line: Vec<u8>| Reading::<E>::Line(line),
        ) + seq![
            match course.error {
                Some(error) => Reading::Failed(error),
                None => Reading::NoLine,
            },
        ] + Seq::new(count, |i: int| Reading::<E>::NoLine),
    decreases course.lines.len(),
{
    let end = match course.error {
        Some(error) => Reading::Failed(error),
        None => Reading::NoLine,
    };
    let rest = seq![end] + Seq::new(count, |i: int| Reading::<E>::NoLine);
    let total = (course.lines.len() + 1 + count) as nat;
    if course.lines.len() == 0 {
        lemma_no_more_lines(course.read().1, count);
        assert(course.reads(total) =~= rest);
        assert(course.lines.map_values(|line: Vec<u8>| Reading::<E>::Line(line)) + seq![end]
            + Seq::new(count, |i: int| Reading::<E>::NoLine) =~= rest);
    } else {
        let next = course.read().1;
        law_every_line_once(next, count);
        assert(course.reads(total) == seq![course.read().0] + next.reads((total - 1) as nat));
        assert(course.lines.map_values(|line: Vec<u8>| Reading::<E>::Line(line))
            =~= seq![course.read().0] + next.lines.map_values(
            |line: Vec<u8>| Reading::<E>::Line(line),
        ));
        assert(course.reads(total) =~= course.lines.map_values(
            |line: Vec<u8>| Reading::<E>::Line(line),
        ) + seq![end] + Seq::new(count, |i: int| Reading::<E>::NoLine));
    }
}

proof fn lemma_no_more_lines<E>(course: Course<E>, count: nat)
    requires
        course.state is Finished,
    ensures
        course.reads(count) == Seq::new(count, |i: int| Reading::<E>::NoLine),
    decreases count,
{
    if count > 0 {
        lemma_no_more_lines(course, (count - 1) as nat);
    }
    assert(course.reads(count) =~= Seq::new(count, |i: int| Reading::<E>::NoLine));
}

/// The reader's side of the channel. A read asks `start_read` what to wait for, and is to be
/// started anew where it was given up.
pub struct LineReader {
    state: ReaderState,
}

impl View for LineReader {
    type V = ReaderState;

    closed spec fn view(&self) -> ReaderState {
        self.state
    }
}

impl LineReader {
    /// A reader whose task has just been started.
    pub fn new() -> (reader: Self)
        ensures
            reader@ is Open,
    {
        Self { state: ReaderState::Open }
    }

    /// Starts the read of a line.
    pub fn start_read(&self) -> (start: ReadStart)
        ensures
            start == self@.start(),
            start is Receive <==> self@ is Open,
            start is Join <==> self@ is Joining,
            start is NoLine <==> self@ is Finished || self@ is Panicked,
    {
        match self.state {
            ReaderState::Open => ReadStart::Receive,
            ReaderState::Joining => ReadStart::Join,
            _ => ReadStart::NoLine,
        }
    }

    /// Takes what the channel gave: a line, or `None` where it is closed.
    pub fn received(&mut self, line: Option<Vec<u8>>) -> (received: Received)
        requires
            old(self)@ is Open,
        ensures
            final(self)@ == old(self)@.after_channel(line),
            match line {
                Some(line) => {
                    &&& received == Received::Line(line)
                    &&& final(self)@ is Open
                },
                None => received is Join && final(self)@ is Joining,
            },
    {
        match line {
            Some(line) => Received::Line(line),
            None => {
                self.state = ReaderState::Joining;
                Received::Join
            },
        }
    }

    /// Takes what stopped the task: what the read comes to.
    pub fn joined<E>(&mut self, error: Option<E>) -> (read: Result<Option<Vec<u8>>, E>)
        requires
            old(self)@ is Joining,
        ensures
            final(self)@ is Finished,
            match error {
                Some(error) => read matches Err(found) && found == error,
                None => read matches Ok(None),
            },
    {
        self.state = ReaderState::Finished;
        match error {
            Some(error) => Err(error),
            None => Ok(None),
        }
    }

    /// Notes that the task panicked.
    pub fn panicked(&mut self)
        requires
            old(self)@ is Joining,
        ensures
            final(self)@ is Panicked,
    {
        self.state = ReaderState::Panicked;
    }

    /// Takes what stopped the task where it is joined in place of any more reads: what the join
    /// tells of it. A read that told of it was the last to do so.
    pub fn join<E>(&self, error: Option<E>) -> (told: Option<E>)
        requires
            !(self@ is Panicked),
        ensures
            told == self@.join(error),
            self@ is Finished ==> told is None,
            !(self@ is Finished) ==> told == error,
    {
        match self.state {
            ReaderState::Finished => None,
            _ => error,
        }
    }

    /// Whether the task can still be joined, or was joined: not where it panicked.
    pub fn can_join(&self) -> (can_join: bool)
        ensures
            can_join == !(self@ is Panicked),
    {
        match self.state {
            ReaderState::Panicked => false,
            _ => true,
        }
    }
}

} // verus!
