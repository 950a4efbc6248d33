//! TCP and UDP sockets inside a network namespace, reached through a TAP
//! proxy and a userspace TCP/IP stack.
//!
//! This crate is the verified part: addresses, the wire protocol, the socket
//! stack and the decisions of the relays. Whatever opens descriptors, awaits
//! or prints is left to the program around it.

pub mod addr;
pub mod bytes;
pub mod cli;
pub mod config;
pub mod error;
pub mod ether;
pub mod ip_text;
pub mod locate;
pub mod namespace;
pub mod procnet;
pub mod protocol;
pub mod relay;
pub mod socket;
pub mod stack;
pub mod stats;
pub mod tap;
pub mod text;
pub mod transfer;
pub mod tunnel;
pub mod udp_message;

pub use addr::IpWithPrefix;
pub use config::TapConfig;
pub use stats::{TunnelStats, TunnelStatsSnapshot};
