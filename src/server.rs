//! The proxy and worker sides of the protocol.

pub mod channel;
pub mod proxy;
pub mod worker;
