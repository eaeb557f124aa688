//! Relay core that bridges many device connections to one shared chat account.
//!
//! Every device speaks a length-prefixed binary protocol; the relay decodes the
//! frames, turns their payloads into chat-ready content, and routes chat
//! commands back to the devices bound to a channel. This crate holds the
//! decisions of that relay as verified functions on plain values. Sockets, the
//! chat client and the clock belong to the program around it.
//!
//! From the wire upwards:
//!
//! - [`frame`] cuts the byte stream of a connection into frames;
//! - [`wire`], [`fields`] and [`schema`] read and write the numbers and
//!   fields that messages are made of, and [`messages`], [`embed`],
//!   [`request`] and [`response`] the messages themselves;
//! - [`embedbuilder`] and [`mentions`] turn a response into pieces that the
//!   chat platform takes in one send each;
//! - [`session`] and [`registry`] hold the live sessions, and [`router`]
//!   picks the sessions that a chat message goes to;
//! - [`dispatch`], [`inbound`] and [`connection`] decide what follows from a
//!   frame, from a chat message and from an error;
//! - [`presence`] and [`stats`] throttle the status line and format the
//!   report on the sessions; [`server`] ties registry and throttle together.
//!
//! Every module states what its functions compute over mathematical views of
//! the data (`Seq`, `int`), and the laws that relate them are proof functions
//! next to the functions they speak of.

pub mod chunks;
pub mod connection;
pub mod dispatch;
pub mod embed;
pub mod embedbuilder;
pub mod fields;
pub mod frame;
pub mod inbound;
pub mod mentions;
pub mod messages;
pub mod presence;
pub mod registry;
pub mod request;
pub mod response;
pub mod router;
pub mod schema;
pub mod server;
pub mod session;
pub mod stats;
pub mod text;
pub mod wire;
