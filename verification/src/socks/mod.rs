//! SOCKS5: UDP packets and the client.

pub mod outbound;
pub mod udp;
