//! The decision logic of a QUIC proxy: source whitelisting, UDP-over-QUIC context
//! bookkeeping, SOCKS5 negotiation and framing.
//!
//! Everything here is synchronous and works on plain values; sockets, timers, tasks and
//! locks belong to the program that drives it.

pub mod addr;
pub mod buffer;
pub mod error;
pub mod manager;
pub mod msgs;
pub mod session;
pub mod socks;
pub mod squic;
pub mod sunnyquic;
pub mod text;
pub mod utils;
pub mod white;
