//! The Thread DTLS profile: record and handshake framing, anti-replay,
//! record protection, flights, and the client and server handshake flows.

pub mod client;
pub mod error;
pub mod flight;
pub mod handshake;
pub mod handshake_laws;
pub mod loopback;
pub mod protection;
pub mod record;
pub mod replay;
pub mod retransmit;
pub mod server;
pub mod session;
pub mod wire_laws;
