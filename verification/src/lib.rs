//! Broadcast session hub for a single-channel chat service.
//!
//! The hub owns the session registry and the channel store, dispatches
//! inbound events (join, message, disconnect) to them, and produces the
//! addressed response envelopes that the transport layer fans out to the
//! connected clients.

pub mod channel;
mod external;
pub mod holo_api;
pub mod holocaster;
pub mod laws;
pub mod message;
pub mod registry;
pub mod session;
pub mod wire;

pub use channel::Channel;
pub use holocaster::{Holocaster, HolocasterConfig};
pub use message::Message;
pub use registry::SessionRegistry;
pub use session::Session;
