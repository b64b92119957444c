//! The messages of the control connection.

use vstd::prelude::*;

use crate::text::copy_from;

verus! {

/// By what name a port is asked for.
#[derive(Debug, Clone, PartialEq, Eq)]
pub struct PortId(pub String);

/// A MIDI port that a client can play on.
#[derive(Debug, Clone)]
pub struct Port {
    pub id: PortId,
    pub name: Option<String>,
}

/// The client's first message.
#[derive(Debug, Clone)]
pub struct InitializeRequest {
    pub version: u8,
    pub client_name: String,
}

/// The answer to the first message: the ports that there are.
#[derive(Debug, Clone)]
pub struct InitializeResponse {
    pub ports: Vec<Port>,
}

/// The client's choice of a port.
#[derive(Debug, Clone)]
pub struct ConnectRequest {
    pub id: PortId,
}

/// The answer to the choice: where to send datagrams.
#[derive(Debug, Clone)]
pub struct ConnectResponse {
    pub udp_port: u16,
}

/// What a client can ask for once it is connected.
#[derive(Debug, Clone)]
pub enum EstablishedCommand {
    /// Close, and leave sounding notes alone.
    ShutdownWithoutStop,
}

/// A datagram was taken.
#[derive(Debug, Clone)]
pub struct Ack {
    pub ack: u32,
}

/// The last message to a client whose session failed.
#[derive(Debug, Clone)]
pub struct ErrorResponse {
    pub error: String,
    pub context: Vec<String>,
    pub ansi: String,
}

/// What went wrong: the message of each error, from the outermost to the root cause, and the
/// whole rendered for a terminal.
#[derive(Debug, Clone)]
pub struct Report {
    pub messages: Vec<String>,
    pub rendered: String,
}

impl Report {
    /// There is at least one error.
    pub open spec fn wf(self) -> bool {
        self.messages@.len() > 0
    }
}

impl ErrorResponse {
    /// Whether this is how `report` is told to a client: the outermost message as the error, the
    /// others as its context.
    pub open spec fn tells(self, report: Report) -> bool {
        &&& self.error@ == report.messages@[0]@
        &&& crate::text::texts(self.context@) == crate::text::texts(report.messages@).skip(1)
        &&& self.ansi@ == report.rendered@
    }

    /// A client is told the outermost message as the error, every other message as the context, in
    /// order, and the report as it was rendered.
    pub proof fn law_told(self, report: Report)
        requires
            report.wf(),
            self.tells(report),
        ensures
            self.error@ == report.messages@[0]@,
            self.context@.len() == report.messages@.len() - 1,
            forall|i: int|
                0 <= i < self.context@.len() ==> (#[trigger] self.context@[i])@
                    == report.messages@[i + 1]@,
            self.ansi@ == report.rendered@,
    {
        let context = crate::text::texts(self.context@);
        assert(context.len() == self.context@.len());
        assert forall|i: int| 0 <= i < self.context@.len() implies (#[trigger] self.context@[i])@
            == report.messages@[i + 1]@ by {
            assert(context[i] == crate::text::texts(report.messages@)[i + 1]);
        }
    }

    /// How a report is told to a client.
    pub fn of_report(report: &Report) -> (response: Self)
        requires
            report.wf(),
        ensures
            response.tells(*report),
    {
        Self {
            error: report.messages[0].clone(),
            context: copy_from(&report.messages, 1),
            ansi: report.rendered.clone(),
        }
    }

    /// The last message of a session: a failure is told to the client, a normal end is not.
    pub fn of_outcome(outcome: &Result<(), Report>) -> (response: Option<Self>)
        requires
            outcome matches Err(report) ==> report.wf(),
        ensures
            match (*outcome, response) {
                (Ok(()), None) => true,
                (Err(report), Some(response)) => response.tells(report),
                _ => false,
            },
    {
        match outcome {
            Ok(()) => None,
            Err(report) => Some(Self::of_report(report)),
        }
    }
}

} // verus!
