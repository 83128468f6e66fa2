//! A node of a simulated cluster: message envelopes, the initialisation
//! handshake, and node state machines that turn one inbound message into the
//! messages to send.
pub mod message;
pub mod gossip;
pub mod laws;
pub mod echo;
pub mod unique;
