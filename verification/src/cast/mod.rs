//! Google Cast CASTV2: messages, framing, sessions and discovery.

pub mod channel;
pub mod client;
pub mod discovery;
pub mod proto;
