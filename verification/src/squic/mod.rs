//! Proxying of UDP over a QUIC connection.

pub mod addr_map;
pub mod auth;
pub mod id_store;
pub mod notify;
pub mod udp;
