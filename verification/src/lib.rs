//! Peer-to-peer networking core of the Chroma node: the wire protocol, peer management, chain
//! sync, the mempool, and the decisions of a connection.
//!
//! Nothing here reads a clock, a file or a socket: callers hand in the time, what was read and
//! what the chain answered, and carry out what comes back.

pub mod addr;
pub mod bans;
pub mod bytes;
pub mod chain;
pub mod config;
pub mod connect;
pub mod connect_laws;
pub mod discovery;
pub mod dispatch;
pub mod error;
pub mod event;
pub mod frame;
pub mod handshake;
pub mod hash;
pub mod identity;
pub mod lifecycle;
pub mod mempool;
pub mod mempool_laws;
pub mod miner;
pub mod noise_transport;
pub mod nonce;
pub mod peer;
pub mod peer_laws;
pub mod peer_rules;
pub mod relay;
pub mod relay_laws;
pub mod session;
pub mod session_laws;
pub mod stats;
pub mod sync;
pub mod sync_laws;
pub mod sync_requests;
pub mod table;
pub mod text;
pub mod time;
pub mod wire;
pub mod wire_laws;
pub mod wire_layout;

pub use crate::config::{NetworkConfig, NodeConfig, PROTOCOL_VERSION, SERVICES};
pub use crate::error::P2pError;
pub use crate::event::NodeEvent;
pub use crate::nonce::rand_u64;
pub use crate::stats::{RelaySnapshot, RelayStats};
