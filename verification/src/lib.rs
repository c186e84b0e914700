//! Verified core of a real-time state synchronisation server.
//!
//! Clients report their own position and rotation; the server keeps the
//! latest report of each and periodically hands every connected client a
//! snapshot of all the others. This crate holds the data structures and the
//! decisions; sockets, tasks, locks and the wire encoding live with the caller.
//!
//! - [`ids`]: the allocator of connection identifiers.
//! - [`message`]: the messages between clients and server.
//! - [`registry`]: who is connected, and the handle of each outbound channel.
//! - [`store`]: the last report of every connection.
//! - [`handler`]: the life of one connection as a state machine.
//! - [`broadcast`]: what is sent to whom, in an update round or an announcement.
//! - [`frame`]: which transport frames carry a message at all.
//! - [`client`]: the client's picture of the session.
//! - [`system`]: the parts together, and what holds of every run.
//!
//! No function here sends anything. Those that decide what is to be sent hand
//! back a list of deliveries, and the caller puts each on its channel.

pub mod broadcast;
pub mod client;
pub mod frame;
pub mod handler;
pub mod ids;
pub mod message;
pub mod registry;
pub mod store;
pub mod system;
