//! Core of an interactive TLS-intercepting HTTP proxy.
//!
//! The crate covers the interception engine itself: loading the signing
//! authority, minting per-host leaf certificates, the CONNECT handshake
//! state machine, raw HTTP/1.1 framing, the ordered flow-capture log, the
//! sequential script-transformation pipeline, and the decision logic of the
//! forwarder and of the auxiliary sweep workers.  Socket, file and TLS
//! plumbing live outside the library and hand it plain values.

pub mod authority;
pub mod codec;
pub mod connect;
pub mod errors;
pub mod flow;
pub mod forward;
pub mod gate;
pub mod script;
pub mod session;
pub mod sweep;
pub mod text;
