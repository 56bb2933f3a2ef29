//! Core logic of an encrypted forwarding proxy speaking the Trojan wire
//! protocol: address codec, resumable inbound parsers (SOCKS5 and
//! HTTP-CONNECT), handshake framing, server-side authentication decisions,
//! configuration merging, and the state machines behind the relay and the
//! WebSocket byte-stream adapter.

use vstd::prelude::*;

pub mod address;
pub mod auth;
pub mod config;
pub mod error;
pub mod handshake;
pub mod http;
pub mod password;
pub mod relay;
pub mod socks5;
pub mod ws;

pub use config::into_local_addr;
pub use config::into_u16;
pub use config::parse_connection_mode;
pub use config::parse_log_level;
pub use config::Config;
pub use config::ConnectionMode;
pub use config::LogLevel;
pub use config::Opt;
pub use config::SocketAddress;
pub use config::TlsConfig;
pub use config::WebsocketConfig;

pub use address::AddrModel;
pub use address::MixAddrType;
pub use error::ParserError;
pub use password::password_to_hash;
pub use password::password_to_hash_bytes;

verus! {

/// Length in bytes of the hex-encoded SHA-224 credential on the wire.
pub const HASH_LEN: usize = 56;

} // verus!
