//! A node of Maelstrom's echo and broadcast workloads, as a verified state machine.
//!
//! A node takes one message at a time and answers by putting envelopes in its outbox;
//! reading and writing the JSON lines around it is left to the program that drives it.

pub mod broadcast;
pub mod echo;
pub mod handlers;
pub mod laws;
pub mod message;
pub mod node;
mod seal;
