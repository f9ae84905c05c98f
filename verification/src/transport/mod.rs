//! The DH signalling protocol and the PTCP transport.
pub mod course_laws;
pub mod direct;
pub mod format_laws;
pub mod handshake;
pub mod handshake_laws;
pub mod message_laws;
pub mod ptcp;
pub mod ptcp_laws;
pub mod release;
pub mod release_laws;
pub mod request;
pub mod response;
pub mod retry;
pub mod step_laws;
pub mod wire_laws;
pub mod xml;
pub mod xml_laws;
