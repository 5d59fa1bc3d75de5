//! A Thread MeshCoP commissioner core: the DTLS record layer and handshake
//! flow, the CoAP exchange driver, joiner sessions and the command front end.

pub mod bytes;
pub mod cli;
pub mod commissioner;
pub mod dtls;
pub mod secret;
pub mod text;
