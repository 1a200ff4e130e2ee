//! Protocol engine of a speech-to-text dispatcher: the frame codec, the
//! proxy's worker roster, the per-worker mailbox, and the worker and client
//! session state machines.

pub mod protocol;
pub mod server;
pub mod client;
pub mod endpoint;
pub mod text;
