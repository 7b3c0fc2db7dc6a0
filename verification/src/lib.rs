//! Verified core of a TLV-over-socket client/server networking library.
//!
//! The library keeps every decision the networking layer makes in plain,
//! verified functions: configuration, the framing of the incoming byte
//! stream, the batching and chunking of outgoing writes, the forwarding of
//! per-connection events, the reconnect back-off and the outcome of
//! server-side sends and broadcasts.  The sockets, tasks and channels that
//! drive these decisions live outside this crate.

pub mod backoff;
pub mod chunks;
pub mod config;
pub mod frame;
pub mod message;
pub mod server;
pub mod writer;

pub use config::{RapidClientConfig, RapidServerConfig, SocketType};
pub use message::{ClientEvent, ServerEvent};
pub use server::ServerError;
