//! A federated chat broker: proof-of-work admission, sequenced client
//! envelopes, bounded mailboxes, route aggregation between servers and the
//! binary wire format that ties the pieces together.
//!
//! `broker` holds the broker as a state machine over mathematical values
//! and the interface of a message server, `laws` what holds of that state
//! machine, `server` the broker in memory, and `frames` what a server
//! does with one frame. `netproto` is the wire format, over the
//! little-endian integers of `bytes`; `workproof` is the proof of work,
//! `client` the client's sequence counter, `messages` the values that
//! travel. `inputbox` and `selection` serve a terminal client: a line
//! under edit and a selection in a list.

pub mod broker;
pub mod bytes;
pub mod client;
pub mod frames;
pub mod inputbox;
pub mod laws;
pub mod messages;
pub mod netproto;
pub mod selection;
pub mod server;
pub mod workproof;
