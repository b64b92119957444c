//! A small network MIDI protocol: packets, message queue and session rules.

pub mod client;
pub mod connection;
pub mod data_packet;
pub mod error;
pub mod json_lines;
pub mod message_queue;
pub mod midi;
pub mod ports;
pub mod protocol;
pub mod session;
pub mod text;
