//! A real-time text broadcast service: clients declare a display name and
//! every message one client sends is relayed verbatim to all currently
//! connected clients. This crate holds the verified core: the wire-message
//! conventions, the client registry with its broadcast fan-out, and the
//! per-connection session state machine.

pub mod protocol;
pub mod registry;
pub mod session;
