//! What a client can do wrong.

use vstd::prelude::*;
use vstd::string::*;

use crate::text::{number_text, quoted};

verus! {

/// Why the server ends a session on its own.
#[derive(Debug)]
pub enum SessionError {
    /// The client speaks a version of the protocol that the server does not.
    UnsupportedVersion { version: u8, client_name: String },
    /// The client chose a port that is not there.
    PortNotFound,
    /// A datagram was lost, or came out of order.
    UnexpectedSeqnum { seqnum: u32, expected: u32 },
}

impl SessionError {
    /// The error in words.
    pub open spec fn text(self) -> Seq<char> {
        match self {
            SessionError::UnsupportedVersion { version, client_name } => {
                "Unsupported version "@ + crate::text::decimal(version as nat) + " (client="@
                    + crate::text::debug_text(client_name@) + ")"@
            },
            SessionError::PortNotFound => "port id not found"@,
            SessionError::UnexpectedSeqnum { seqnum, expected } => {
                "Unexpected seqnum "@ + crate::text::decimal(seqnum as nat) + "; expected "@
                    + crate::text::decimal(expected as nat)
            },
        }
    }

    /// What each error says: the version or the numbers in decimal, and the client's name in quotes.
    pub proof fn law_text(version: u8, client_name: String, seqnum: u32, expected: u32)
        ensures
            (SessionError::UnsupportedVersion { version, client_name }).text()
                == "Unsupported version "@ + crate::text::decimal(version as nat) + " (client="@
                + crate::text::debug_text(client_name@) + ")"@,
            SessionError::PortNotFound.text() == "port id not found"@,
            (SessionError::UnexpectedSeqnum { seqnum, expected }).text() == "Unexpected seqnum "@
                + crate::text::decimal(seqnum as nat) + "; expected "@ + crate::text::decimal(
                expected as nat,
            ),
    {
    }

    /// Puts the error in words.
    pub fn message(&self) -> (message: String)
        ensures
            message@ == self.text(),
    {
        match self {
            SessionError::UnsupportedVersion { version, client_name } => {
                let mut message = "Unsupported version ".to_owned();
                message.append(number_text(*version as u32).as_str());
                message.append(" (client=");
                message.append(quoted(client_name.as_str()).as_str());
                message.append(")");
                message
            },
            SessionError::PortNotFound => "port id not found".to_owned(),
            SessionError::UnexpectedSeqnum { seqnum, expected } => {
                let mut message = "Unexpected seqnum ".to_owned();
                message.append(number_text(*seqnum).as_str());
                message.append("; expected ");
                message.append(number_text(*expected).as_str());
                message
            },
        }
    }
}

} // verus!
