//! The course of a client's session, from its first message to its end.
//!
//! The server performs each action and hands back what came of it as the next event.

use vstd::prelude::*;

use crate::data_packet::{Kind, Parsing};
use crate::error::SessionError;
use crate::ports::{get_ports, FoundPort};
use crate::protocol::{
    ConnectRequest, ConnectResponse, EstablishedCommand, InitializeRequest, InitializeResponse,
    PortId,
};
use crate::session::{Accepted, Due, Session, SessionView};

verus! {

/// The version of the protocol that the server speaks.
pub const PROTOCOL_VERSION: u8 = 0;

/// What the server waits for.
#[derive(Debug, Clone, Copy)]
pub enum Phase {
    /// The client's first message.
    AwaitInitialize,
    /// The ports that the driver shows.
    AwaitPorts,
    /// The client's choice of a port.
    AwaitConnect,
    /// Whether the chosen port is there.
    AwaitLookup,
    /// The port on which datagrams arrive.
    AwaitSocket,
    /// A look for queued messages that are due: the session is established.
    Playing,
    /// A command, a datagram or the time of the next queued message.
    Waiting,
    /// Nothing: the session is over.
    Finished,
}

impl Phase {
    /// Whether the session is established and not over.
    pub open spec fn established(self) -> bool {
        self is Playing || self is Waiting
    }
}

/// What came in, or came of an action. Clock readings are in nanoseconds.
pub enum Event<'a> {
    /// The client's first message; `None` where the client closed the stream instead.
    Initialize(Option<InitializeRequest>),
    /// The ports that the driver shows.
    Ports(Vec<FoundPort>),
    /// The client's choice of a port; `None` where the client closed the stream instead.
    Connect(Option<ConnectRequest>),
    /// Whether the driver knows the chosen port.
    Lookup(bool),
    /// The port is open, and datagrams arrive on this socket.
    Socket(u16),
    /// A command; `None` where the client closed the stream.
    Command(Option<EstablishedCommand>),
    /// A datagram's contents, and when it arrived.
    Datagram(&'a [u8], u64),
    /// The time has come to look for queued messages.
    Tick(u64),
    /// What the server did, or waited for, failed: the driver, the socket or the control connection.
    Failed,
}

/// What the server does next.
///
/// After a datagram that is not refused it looks for queued messages: the messages of an instant
/// packet come first.
pub enum Action {
    /// Open the driver under this name and ask it for its ports.
    OpenOutput { client_name: String },
    /// Send the list of ports, and wait for the client's choice.
    SendPorts(InitializeResponse),
    /// Ask the driver for a port.
    FindPort(PortId),
    /// Open the port that was found, and a socket for datagrams.
    OpenPort,
    /// Tell the client where to send datagrams.
    SendConnected(ConnectResponse),
    /// Play what is due, and wait for what comes next.
    Play(Due),
    /// Pass over a datagram that has no header.
    Skip,
    /// Play what the datagram asked for at once, and then acknowledge it.
    Accept(Accepted),
    /// End the session, and end sounding notes where this says so.
    Close { stop_all_on_exit: bool },
    /// Tell the client what went wrong and end the session, and sounding notes with it.
    Fail(SessionError),
    /// Tell the client of the failure that the server met, and end the session, and sounding notes
    /// with it.
    Abort,
}

impl Action {
    /// Whether the session ends with an error that the client is told of.
    pub open spec fn tells_error(self) -> bool {
        self is Fail || self is Abort
    }

    /// Whether notes that sound when the connection is closed after this are to be ended.
    pub open spec fn ends_notes(self) -> bool {
        !(self matches Action::Close { stop_all_on_exit: false })
    }

    /// Tells whether notes that sound when the connection is closed after this are to be ended.
    pub fn stop_all_on_exit(&self) -> (stop: bool)
        ensures
            stop == self.ends_notes(),
            !stop <==> self matches Action::Close { stop_all_on_exit: false },
    {
        match self {
            Action::Close { stop_all_on_exit } => *stop_all_on_exit,
            _ => true,
        }
    }
}

/// Whether `event` is what the server waits for in `phase`: a failure can come at any time until
/// the session is over.
pub open spec fn fits(phase: Phase, event: Event<'_>) -> bool {
    ||| event is Failed && !(phase is Finished)
    ||| match phase {
        Phase::AwaitInitialize => event is Initialize,
        Phase::AwaitPorts => event is Ports,
        Phase::AwaitConnect => event is Connect,
        Phase::AwaitLookup => event is Lookup,
        Phase::AwaitSocket => event is Socket,
        Phase::Playing => event is Tick,
        Phase::Waiting => event is Command || event is Datagram || event is Tick,
        Phase::Finished => false,
    }
}

/// A client's session as plain values.
#[verifier::ext_equal]
pub struct ClientView {
    pub phase: Phase,
    pub session: SessionView,
}

/// What the server does about `event`, and where that leaves the client's session.
pub open spec fn follows(
    before: ClientView,
    event: Event<'_>,
    action: Action,
    after: ClientView,
) -> bool {
    match event {
        Event::Initialize(None) => {
            &&& action is Close
            &&& action->stop_all_on_exit
            &&& after.phase is Finished
            &&& after.session == before.session
        },
        Event::Initialize(Some(request)) => {
            &&& request.version == PROTOCOL_VERSION ==> {
                &&& action matches Action::OpenOutput { client_name }
                &&& client_name == request.client_name
                &&& after.phase is AwaitPorts
            }
            &&& request.version != PROTOCOL_VERSION ==> {
                &&& action matches Action::Fail(
                    SessionError::UnsupportedVersion { version, client_name },
                )
                &&& version == request.version
                &&& client_name == request.client_name
                &&& after.phase is Finished
            }
            &&& after.session == before.session
        },
        Event::Ports(found) => {
            &&& action matches Action::SendPorts(response)
            &&& crate::ports::port_views(response.ports@) == crate::ports::listing(found@)
            &&& after.phase is AwaitConnect
            &&& after.session == before.session
        },
        Event::Connect(None) => {
            &&& action is Close
            &&& action->stop_all_on_exit
            &&& after.phase is Finished
            &&& after.session == before.session
        },
        Event::Connect(Some(request)) => {
            &&& action matches Action::FindPort(id)
            &&& id == request.id
            &&& after.phase is AwaitLookup
            &&& after.session == before.session
        },
        Event::Lookup(found) => {
            &&& found ==> action is OpenPort && after.phase is AwaitSocket
            &&& !found ==> {
                &&& action matches Action::Fail(SessionError::PortNotFound)
                &&& after.phase is Finished
            }
            &&& after.session == before.session
        },
        Event::Socket(udp_port) => {
            &&& action matches Action::SendConnected(response)
            &&& response.udp_port == udp_port
            &&& after.phase is Playing
            &&& after.session == before.session
        },
        Event::Command(command) => {
            &&& action is Close
            &&& action->stop_all_on_exit == (command is None)
            &&& after.phase is Finished
            &&& after.session == before.session
        },
        Event::Datagram(contents, now) => {
            match crate::data_packet::parsed(contents@) {
                None => {
                    &&& action is Skip
                    &&& after.phase is Playing
                    &&& after.session == before.session
                },
                Some(packet) => if before.session.accepts(packet.seqnum) {
                    &&& action matches Action::Accept(accepted)
                    &&& crate::midi::raw(accepted.messages@) == before.session.instant_messages(packet)
                    &&& accepted.ack.ack == packet.seqnum
                    &&& after.phase is Playing
                    &&& after.session == before.session.received(
                        packet,
                        now as nat,
                    )
                } else {
                    &&& action matches Action::Fail(
                        SessionError::UnexpectedSeqnum { seqnum, expected },
                    )
                    &&& seqnum == packet.seqnum
                    &&& expected == before.session.expected
                    &&& after.phase is Finished
                    &&& after.session == before.session
                },
            }
        },
        Event::Tick(now) => {
            &&& action matches Action::Play(due)
            &&& crate::midi::raw(due.messages@) == before.session.due_messages(
                now as nat,
            )
            &&& match (due.wake, after.session.next_due()) {
                (None, None) => true,
                (Some(wake), Some(next)) => wake == next,
                _ => false,
            }
            &&& after.phase is Waiting
            &&& after.session == before.session.played(now as nat)
        },
        Event::Failed => {
            &&& action is Abort
            &&& after.phase is Finished
            &&& after.session == before.session
        },
    }
}

/// A client's session.
pub struct Client {
    phase: Phase,
    session: Session,
}

impl View for Client {
    type V = ClientView;

    closed spec fn view(&self) -> ClientView {
        ClientView { phase: self.phase, session: self.session@ }
    }
}

impl Client {
    /// The established part is in order.
    pub closed spec fn wf(&self) -> bool {
        self.session.wf()
    }

    /// Where the established part is in order, it is so as plain values, too.
    pub proof fn lemma_wf(&self)
        requires
            self.wf(),
        ensures
            self@.session.wf(),
    {
        self.session.lemma_wf();
    }

    /// A client that has just connected.
    pub fn new() -> (client: Self)
        ensures
            client.wf(),
            client@ == (ClientView {
                phase: Phase::AwaitInitialize,
                session: SessionView::clear(0),
            }),
    {
        Self { phase: Phase::AwaitInitialize, session: Session::new() }
    }

    /// Whether a datagram can be received without a counter running over.
    pub fn has_room(&self, contents: &[u8]) -> (room: bool)
        requires
            self.wf(),
        ensures
            room == self@.session.has_room(contents@),
    {
        self.session.has_room(contents)
    }

    /// Takes an event that the server waited for, and says what to do next.
    pub fn step(&mut self, event: Event<'_>) -> (action: Action)
        requires
            old(self).wf(),
            fits(old(self)@.phase, event),
            event matches Event::Datagram(contents, _) ==> old(self)@.session.has_room(contents@),
        ensures
            final(self).wf(),
            follows(old(self)@, event, action, final(self)@),
    {
        match event {
            Event::Initialize(None) => {
                self.phase = Phase::Finished;
                Action::Close { stop_all_on_exit: true }
            },
            Event::Initialize(Some(request)) => {
                if request.version != PROTOCOL_VERSION {
                    self.phase = Phase::Finished;
                    Action::Fail(
                        SessionError::UnsupportedVersion {
                            version: request.version,
                            client_name: request.client_name,
                        },
                    )
                } else {
                    self.phase = Phase::AwaitPorts;
                    Action::OpenOutput { client_name: request.client_name }
                }
            },
            Event::Ports(found) => {
                self.phase = Phase::AwaitConnect;
                Action::SendPorts(InitializeResponse { ports: get_ports(&found) })
            },
            Event::Connect(None) => {
                self.phase = Phase::Finished;
                Action::Close { stop_all_on_exit: true }
            },
            Event::Connect(Some(request)) => {
                self.phase = Phase::AwaitLookup;
                Action::FindPort(request.id)
            },
            Event::Lookup(found) => {
                if found {
                    self.phase = Phase::AwaitSocket;
                    Action::OpenPort
                } else {
                    self.phase = Phase::Finished;
                    Action::Fail(SessionError::PortNotFound)
                }
            },
            Event::Socket(udp_port) => {
                self.phase = Phase::Playing;
                Action::SendConnected(ConnectResponse { udp_port })
            },
            Event::Command(command) => {
                self.phase = Phase::Finished;
                match command {
                    Some(EstablishedCommand::ShutdownWithoutStop) => Action::Close {
                        stop_all_on_exit: false,
                    },
                    None => Action::Close { stop_all_on_exit: true },
                }
            },
            Event::Datagram(contents, now) => {
                self.phase = Phase::Playing;
                match self.session.receive(contents, now) {
                    Ok(None) => Action::Skip,
                    Ok(Some(accepted)) => Action::Accept(accepted),
                    Err(error) => {
                        self.phase = Phase::Finished;
                        Action::Fail(error)
                    },
                }
            },
            Event::Tick(now) => {
                self.phase = Phase::Waiting;
                Action::Play(self.session.play_due(now))
            },
            Event::Failed => {
                self.phase = Phase::Finished;
                Action::Abort
            },
        }
    }

    /// Takes note that what the server did, or waited for, failed: the session is over.
    pub fn failed(&mut self) -> (action: Action)
        requires
            old(self).wf(),
            !(old(self)@.phase is Finished),
        ensures
            final(self).wf(),
            final(self)@.phase is Finished,
            final(self)@.session == old(self)@.session,
            action is Abort,
            action.ends_notes(),
    {
        self.step(Event::Failed)
    }
}

/// What the server waits for in each phase, apart from a failure, which can come in all but the
/// last.
pub proof fn law_waits_for(phase: Phase, event: Event<'_>)
    ensures
        event is Failed ==> (fits(phase, event) <==> !(phase is Finished)),
        event is Initialize ==> (fits(phase, event) <==> phase is AwaitInitialize),
        event is Ports ==> (fits(phase, event) <==> phase is AwaitPorts),
        event is Connect ==> (fits(phase, event) <==> phase is AwaitConnect),
        event is Lookup ==> (fits(phase, event) <==> phase is AwaitLookup),
        event is Socket ==> (fits(phase, event) <==> phase is AwaitSocket),
        event is Command ==> (fits(phase, event) <==> phase is Waiting),
        event is Datagram ==> (fits(phase, event) <==> phase is Waiting),
        event is Tick ==> (fits(phase, event) <==> phase is Playing || phase is Waiting),
{
}

/// How a client gets to an established session. A client of version 0 is shown the ports that there
/// are and told the socket of the one that it chose, by the name and the id that it gave; one of
/// another version, or with a port that is not there, is told so. What is under way stays as it
/// was.
pub proof fn law_handshake(before: ClientView, event: Event<'_>, action: Action, after: ClientView)
    requires
        follows(before, event, action, after),
        !(event is Datagram),
        !(event is Tick),
    ensures
        after.session == before.session,
        event matches Event::Initialize(Some(request)) ==> {
            &&& request.version == 0 ==> {
                &&& action == (Action::OpenOutput { client_name: request.client_name })
                &&& after.phase is AwaitPorts
            }
            &&& request.version != 0 ==> {
                &&& action == Action::Fail(
                    SessionError::UnsupportedVersion {
                        version: request.version,
                        client_name: request.client_name,
                    },
                )
                &&& after.phase is Finished
            }
        },
        event matches Event::Ports(found) ==> {
            &&& action matches Action::SendPorts(response)
            &&& response.ports@.len() == crate::ports::listing(found@).len()
            &&& forall|i: int|
                0 <= i < response.ports@.len() ==> {
                    let listed = crate::ports::listing(found@)[i];
                    let port = #[trigger] response.ports@[i];
                    &&& port.id.0@ == listed.id
                    &&& port.name is Some <==> listed.name is Some
                    &&& port.name matches Some(name) ==> listed.name == Some(name@)
                }
            &&& after.phase is AwaitConnect
        },
        event matches Event::Connect(Some(request)) ==> {
            &&& action == Action::FindPort(request.id)
            &&& after.phase is AwaitLookup
        },
        event matches Event::Lookup(found) ==> {
            &&& found ==> action is OpenPort && after.phase is AwaitSocket
            &&& !found ==> action == Action::Fail(SessionError::PortNotFound)
            &&& !found ==> after.phase is Finished
        },
        event matches Event::Socket(udp_port) ==> {
            &&& action == Action::SendConnected(ConnectResponse { udp_port })
            &&& after.phase is Playing
        },
        event matches Event::Command(command) ==> {
            &&& command is Some ==> action == (Action::Close { stop_all_on_exit: false })
            &&& command is None ==> action == (Action::Close { stop_all_on_exit: true })
            &&& after.phase is Finished
        },
        event is Initialize && event->Initialize_0 is None || event is Connect
            && event->Connect_0 is None ==> {
            &&& action == (Action::Close { stop_all_on_exit: true })
            &&& after.phase is Finished
        },
        event is Failed ==> action is Abort && after.phase is Finished,
{
    if let Event::Ports(found) = event {
        if let Action::SendPorts(response) = action {
            let values = crate::ports::port_views(response.ports@);
            crate::ports::law_port_values(response.ports@);
            assert forall|i: int| 0 <= i < response.ports@.len() implies {
                let listed = crate::ports::listing(found@)[i];
                let port = #[trigger] response.ports@[i];
                &&& port.id.0@ == listed.id
                &&& port.name is Some <==> listed.name is Some
                &&& port.name matches Some(name) ==> listed.name == Some(name@)
            } by {
                assert(values[i].id == response.ports@[i].id.0@);
            }
        }
    }
}

/// A datagram of the next number, or of the test number, is taken and acknowledged with its number:
/// an instant packet then plays every message that its payload completes behind what was held, or
/// behind nothing after a reset, and a queue packet none. One without a header is passed over, and
/// one of another number ends the session.
pub proof fn law_datagram_answered(
    before: ClientView,
    contents: &[u8],
    now: u64,
    action: Action,
    after: ClientView,
)
    requires
        follows(before, Event::Datagram(contents, now), action, after),
    ensures
        match crate::data_packet::parsed(contents@) {
            None => action is Skip && after.session == before.session && after.phase is Playing,
            Some(packet) => if packet.seqnum == before.session.expected || packet.seqnum
                == 0xDEAD_BEEF {
                let held = if packet.kind == (Kind::Instant { reset_queue: true }) {
                    Seq::empty()
                } else {
                    before.session.held
                };
                let messages = if packet.kind is Queue {
                    Seq::empty()
                } else {
                    crate::midi::fed(held, packet.data).messages
                };
                &&& action matches Action::Accept(accepted)
                &&& accepted.ack.ack == packet.seqnum
                &&& accepted.messages@.len() == messages.len()
                &&& forall|i: int|
                    0 <= i < accepted.messages@.len() ==> (#[trigger] accepted.messages@[i])@
                        == messages[i]
                &&& after.phase is Playing
            } else {
                &&& action matches Action::Fail(
                    SessionError::UnexpectedSeqnum { seqnum, expected },
                )
                &&& seqnum == packet.seqnum
                &&& expected == before.session.expected
                &&& after.session == before.session
                &&& after.phase is Finished
            },
        },
{
    if let Some(packet) = crate::data_packet::parsed(contents@) {
        crate::session::law_received(before.session, packet, now as nat);
        if let Action::Accept(accepted) = action {
            let raw = crate::midi::raw(accepted.messages@);
            crate::midi::law_raw_of_each(accepted.messages@);
            assert forall|i: int| 0 <= i < accepted.messages@.len() implies (
            #[trigger] accepted.messages@[i])@ == raw[i] by {}
        }
    }
}

/// What a datagram that is taken leaves behind in the client's session. The numbering goes on by one
/// where it had the next number, whatever its kind, and else stays; a reset forgets the rest; an
/// instant packet touches nothing but the message under way, and a queue packet nothing but the
/// records, the timeline and, where it is the first, its start.
pub proof fn law_datagram_taken(
    before: ClientView,
    contents: &[u8],
    now: u64,
    accepted: Accepted,
    after: ClientView,
)
    requires
        follows(before, Event::Datagram(contents, now), Action::Accept(accepted), after),
    ensures
        crate::data_packet::parsed(contents@) matches Some(packet) && {
            &&& packet.seqnum == before.session.expected ==> after.session.expected
                == before.session.expected + 1
            &&& packet.seqnum != before.session.expected ==> after.session.expected
                == before.session.expected && packet.seqnum == 0xDEAD_BEEF
            &&& packet.kind == (Kind::Instant { reset_queue: false }) ==> {
                &&& after.session.held == crate::midi::fed(before.session.held, packet.data).held
                &&& after.session.t0 == before.session.t0
                &&& after.session.record == before.session.record
                &&& after.session.timeline == before.session.timeline
            }
            &&& packet.kind == (Kind::Instant { reset_queue: true }) ==> {
                &&& after.session.held == crate::midi::fed(Seq::empty(), packet.data).held
                &&& after.session.t0 is None
                &&& after.session.record.len() == 0
                &&& after.session.timeline.pending.len() == 0
                &&& after.session.timeline.end == 0
            }
            &&& packet.kind is Queue ==> {
                let read = (Parsing {
                    record: before.session.record,
                    timeline: before.session.timeline,
                }).with_bytes(packet.data);
                &&& after.session.held == before.session.held
                &&& before.session.t0 is None ==> after.session.t0 == Some(now as nat)
                &&& before.session.t0 is Some ==> after.session.t0 == before.session.t0
                &&& after.session.record == read.record
                &&& after.session.timeline == read.timeline
            }
        },
{
    if let Some(packet) = crate::data_packet::parsed(contents@) {
        crate::session::law_received(before.session, packet, now as nat);
    }
}

/// A look through the queue plays each message that waits exactly where as many million nanoseconds
/// have passed since the start of the timeline as its time has milliseconds, in order and as it was
/// queued, and leaves the others; sleep lasts to the time of the first of those.
pub proof fn law_tick_answered(before: ClientView, now: u64, action: Action, after: ClientView)
    requires
        before.session.wf(),
        follows(before, Event::Tick(now), action, after),
    ensures
        action matches Action::Play(due) && {
            let waiting = before.session.timeline.pending;
            let left = after.session.timeline.pending;
            let count = due.messages@.len();
            &&& count + left.len() == waiting.len()
            &&& before.session.t0 is None ==> count == 0 && due.wake is None
            &&& before.session.t0 matches Some(t0) ==> {
                &&& forall|i: int|
                    0 <= i < waiting.len() ==> {
                        let message = #[trigger] waiting[i];
                        &&& now >= t0 ==> (i < count <==> now - t0 >= message.timestamp * 1_000_000)
                        &&& now < t0 ==> (i < count <==> message.timestamp == 0)
                        &&& i < count ==> due.messages@[i]@ == message.bytes
                        &&& i >= count ==> left[i - count] == message
                    }
                &&& left.len() == 0 ==> due.wake is None
                &&& left.len() > 0 ==> {
                    &&& due.wake matches Some(wake)
                    &&& wake == t0 + left[0].timestamp * 1_000_000
                }
            }
            &&& after.session.timeline.end == before.session.timeline.end
            &&& after.session.expected == before.session.expected
            &&& after.session.t0 == before.session.t0
            &&& after.session.held == before.session.held
            &&& after.session.record == before.session.record
            &&& after.phase is Waiting
        },
{
    crate::session::law_due_in_nanos(before.session, now as nat);
    crate::session::law_next_due_in_nanos(after.session);
    if let Action::Play(due) = action {
        let raw = crate::midi::raw(due.messages@);
        crate::midi::law_raw_of_each(due.messages@);
        assert forall|i: int| 0 <= i < due.messages@.len() implies (#[trigger] due.messages@[i])@
            == raw[i] by {}
    }
}

/// How many of `events` are datagrams.
pub open spec fn datagrams(events: Seq<Event<'_>>) -> nat
    decreases events.len(),
{
    if events.len() == 0 {
        0
    } else {
        datagrams(events.drop_last()) + if events.last() is Datagram {
            1nat
        } else {
            0nat
        }
    }
}

/// Datagrams that are numbered on from the next number, of whatever kinds, are taken throughout,
/// each acknowledged with its number, however the looks through the queue lie between them.
pub proof fn law_numbered_throughout(
    views: Seq<ClientView>,
    events: Seq<Event<'_>>,
    actions: Seq<Action>,
    first: nat,
)
    requires
        views.len() == events.len() + 1,
        actions.len() == events.len(),
        views[0].session.expected == first,
        views[0].session.wf(),
        forall|i: int|
            0 <= i < events.len() ==> #[trigger] follows(
                views[i],
                events[i],
                actions[i],
                views[i + 1],
            ),
        forall|i: int|
            0 <= i < events.len() ==> {
                ||| #[trigger] events[i] is Tick
                ||| events[i] matches Event::Datagram(contents, _)
                    && crate::data_packet::parsed(contents@) matches Some(packet) && packet.seqnum
                    == first + datagrams(events.take(i))
            },
        first + datagrams(events) <= u32::MAX,
    ensures
        views.last().session.expected == first + datagrams(events),
        views.last().session.wf(),
        forall|i: int|
            0 <= i < events.len() && events[i] is Datagram ==> {
                &&& #[trigger] actions[i] matches Action::Accept(accepted)
                &&& accepted.ack.ack == first + datagrams(events.take(i))
            },
    decreases events.len(),
{
    if events.len() > 0 {
        let last = events.len() - 1;
        let part = events.drop_last();
        assert(events.take(last) =~= part);
        assert forall|i: int| 0 <= i < part.len() implies {
            &&& part[i] == #[trigger] events[i]
            &&& part.take(i) == events.take(i)
        } by {
            assert(part.take(i) =~= events.take(i));
        }
        assert forall|i: int| 0 <= i < part.len() implies {
            ||| #[trigger] part[i] is Tick
            ||| part[i] matches Event::Datagram(contents, _)
                && crate::data_packet::parsed(contents@) matches Some(packet) && packet.seqnum
                == first + datagrams(part.take(i))
        } by {
            assert(part[i] == events[i]);
        }
        let before = views[last];
        assert forall|i: int| 0 <= i < part.len() implies #[trigger] follows(
            views.drop_last()[i],
            part[i],
            actions.drop_last()[i],
            views.drop_last()[i + 1],
        ) by {
            assert(follows(views[i], events[i], actions[i], views[i + 1]));
        }
        law_numbered_throughout(views.drop_last(), part, actions.drop_last(), first);
        assert(follows(before, events[last], actions[last], views[last + 1]));
        if let Event::Tick(now) = events[last] {
            law_tick_answered(before, now, actions[last], views[last + 1]);
            crate::session::lemma_played_in_order(before.session, now as nat);
        }
        if let Event::Datagram(contents, now) = events[last] {
            let packet = crate::data_packet::parsed(contents@)->0;
            law_datagram_answered(before, contents, now, actions[last], views[last + 1]);
            crate::session::law_session_stays_in_order(before.session, packet, now as nat);
        }
        assert forall|i: int| 0 <= i < events.len() && events[i] is Datagram implies {
            &&& #[trigger] actions[i] matches Action::Accept(accepted)
            &&& accepted.ack.ack == first + datagrams(events.take(i))
        } by {
            if i < last {
                assert(actions.drop_last()[i] == actions[i]);
                assert(part[i] == events[i]);
            }
        }
    }
}

/// A session ends exactly where the server closes it or tells the client of an error, and once
/// it has ended nothing more is expected.
pub proof fn law_end(before: ClientView, event: Event<'_>, action: Action, after: ClientView)
    requires
        fits(before.phase, event),
        follows(before, event, action, after),
    ensures
        after.phase is Finished <==> action is Close || action.tells_error(),
        forall|next: Event<'_>| after.phase is Finished ==> !fits(after.phase, next),
{
}

/// A failure can come at any time until the session is over, whatever the server was doing.
pub proof fn law_failure_any_time(before: ClientView, action: Action, after: ClientView)
    requires
        !(before.phase is Finished),
        follows(before, Event::Failed, action, after),
    ensures
        fits(before.phase, Event::Failed),
        action.tells_error(),
        after.phase is Finished,
{
}

/// Every error is handled in the same way, whether the client made it or the server met it: the
/// client is told, the session is over as it stood, and sounding notes are ended. The server tells
/// of a failure of its own exactly where it met one.
pub proof fn law_errors_alike(
    before: ClientView,
    event: Event<'_>,
    action: Action,
    after: ClientView,
)
    requires
        fits(before.phase, event),
        follows(before, event, action, after),
    ensures
        action.tells_error() ==> {
            &&& after.phase is Finished
            &&& after.session == before.session
            &&& action.ends_notes()
        },
        action is Abort <==> event is Failed,
{
}

/// A client can close the stream whenever it is to say something, and the session then ends
/// without an error and with every sounding note ended.
pub proof fn law_close_any_time(
    before: ClientView,
    event: Event<'_>,
    action: Action,
    after: ClientView,
)
    requires
        fits(before.phase, event),
        follows(before, event, action, after),
        event is Initialize && event->Initialize_0 is None || event is Connect
            && event->Connect_0 is None || event is Command && event->Command_0 is None,
    ensures
        action matches Action::Close { stop_all_on_exit: true },
        after.phase is Finished,
{
}

/// Sounding notes are left alone exactly where the client asked for that: whatever else ends a
/// session, an error above all, ends them.
pub proof fn law_stop_unless_asked(
    before: ClientView,
    event: Event<'_>,
    action: Action,
    after: ClientView,
)
    requires
        fits(before.phase, event),
        follows(before, event, action, after),
    ensures
        action.ends_notes() <==> !(event matches Event::Command(
            Some(EstablishedCommand::ShutdownWithoutStop),
        )),
{
}

/// After every datagram, and before the server waits for anything else, the queue is looked
/// through, unless the server fails first; so it is when the session has just been established.
pub proof fn law_queue_looked_through(
    before: ClientView,
    event: Event<'_>,
    action: Action,
    after: ClientView,
    next: Event<'_>,
)
    requires
        fits(before.phase, event),
        follows(before, event, action, after),
        event is Datagram || event is Socket,
        fits(after.phase, next),
    ensures
        next is Tick || next is Failed,
{
}

/// Whatever a client sends, every message that is played stands on its own: complete, and with
/// its status byte.
pub proof fn law_normalized(
    before: ClientView,
    event: Event<'_>,
    action: Action,
    after: ClientView,
)
    requires
        fits(before.phase, event),
        follows(before, event, action, after),
        before.session.wf(),
    ensures
        action matches Action::Play(due) ==> crate::midi::all_standalone(
            crate::midi::raw(due.messages@),
        ),
        action matches Action::Accept(accepted) ==> crate::midi::all_standalone(
            crate::midi::raw(accepted.messages@),
        ),
{
    if let Event::Tick(now) = event {
        crate::session::law_due_standalone(before.session, now as nat);
    }
    if let Event::Datagram(contents, _) = event {
        if let Some(packet) = crate::data_packet::parsed(contents@) {
            crate::session::law_instant_standalone(before.session, packet);
        }
    }
}

/// Nothing is played, and no datagram is acknowledged, before the session is established; what is
/// under way changes only then.
pub proof fn law_quiet_until_established(
    before: ClientView,
    event: Event<'_>,
    action: Action,
    after: ClientView,
)
    requires
        fits(before.phase, event),
        follows(before, event, action, after),
        !before.phase.established(),
    ensures
        !(action is Play),
        !(action is Accept),
        after.session == before.session,
{
}

/// A datagram is acknowledged exactly where it was taken, with its own number; one that is
/// refused ends the session and leaves everything as it was.
pub proof fn law_ack(
    before: ClientView,
    contents: &[u8],
    now: u64,
    action: Action,
    after: ClientView,
)
    requires
        fits(before.phase, Event::Datagram(contents, now)),
        follows(before, Event::Datagram(contents, now), action, after),
    ensures
        action is Accept <==> (crate::data_packet::parsed(contents@) matches Some(packet)
            && before.session.accepts(packet.seqnum)),
        action matches Action::Accept(accepted) ==> Some(accepted.ack.ack as nat) == (
        match crate::data_packet::parsed(contents@) {
            Some(packet) => Some(packet.seqnum),
            None => None,
        }),
        action is Fail ==> after.session == before.session && after.phase is Finished,
{
}

} // verus!
