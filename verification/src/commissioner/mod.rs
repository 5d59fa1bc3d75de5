//! The commissioner: MeshCoP messages, the session driver, and joiner
//! sessions.

pub mod coap;
pub mod config;
pub mod dataset;
pub mod driver;
pub mod duplicates;
pub mod error;
pub mod events;
pub mod exchange;
pub mod flags;
pub mod joiner;
pub mod joiner_handler;
pub mod joiner_laws;
pub mod joiner_reports;
pub mod joiner_sessions;
pub mod messages;
pub mod requests;
pub mod tlv;
pub mod types;
pub mod wire_laws;
