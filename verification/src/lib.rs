//! Session broker for a SockJS-style messaging protocol.
//!
//! A logical session outlives the physical connections that serve it. The
//! [`manager::Registry`] owns every session's [`manager::Record`] and hands it
//! to at most one transport at a time; the transport
//! ([`transports::websocket::Websocket`]) replays the record's backlog, then
//! forwards live frames, and gives the record back when its connection ends.
//!
//! Every handler is a pure step: it reads an event, updates the transport and
//! appends [`transports::Command`]s to a [`transports::Connection`]. The caller
//! performs the commands against the real socket and the real registry.

pub mod guarantees;
pub mod json;
pub mod manager;
pub mod protocol;
pub mod session;
pub mod transports;
