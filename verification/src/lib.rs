//! Verified core of the HarmonyDesk remote-desktop controller: the RustDesk
//! wire format, message builders and parsers, the session bookkeeping that
//! the native bridge drives, and the legacy protocol/video helpers.

pub mod base64;
pub mod connect;
pub mod crypto;
pub mod endpoint;
pub mod log_collector;
pub mod messages;
pub mod protocol;
pub mod rendezvous;
pub mod rustdesk;
pub mod session;
pub mod text;
pub mod video;
pub mod wire;
