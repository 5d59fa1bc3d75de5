//! The session driver: what runs behind every commissioner handle.
//!
//! One task owns the connection to the border agent and runs a loop over
//! handle commands, received datagrams, and timers (retransmissions, exchange
//! deadlines, and keep-alives). [`machine::Driver`] decides; its caller does
//! the waiting, the sending and the handshakes, and reports back how they
//! ended. [`parts`] holds what passes between the two, [`model`] says what
//! each step leads to. [`laws`] accounts for the replies that a session owes,
//! [`consistency`] says what holds of every session, [`promises`] what those
//! who use one can rely on, and [`history`] what it keeps over many calls.
//! [`traffic`] says what goes over the wire, [`replies`] what follows what came
//! of it, and [`conversations`] what whole exchanges come to.

pub mod consistency;
pub mod conversations;
pub mod history;
pub mod laws;
pub mod machine;
pub mod model;
pub mod parts;
pub mod promises;
pub mod replies;
pub mod traffic;
