//! Verified core of a local-development reverse proxy: a registry of
//! domain-to-port bindings with persistence, the control-channel protocol
//! and its wire codec, host-based routing decisions, and TLS material
//! planning. All I/O lives outside this crate; these modules hold the
//! logic and its proofs.

pub mod client;
pub mod codec;
pub mod config;
pub mod daemon;
pub mod detect;
pub mod process;
pub mod proxy;
pub mod strutil;
pub mod tls;
pub mod types;
