//! The messages of the protocols and their wire formats. Numbers are big-endian.

pub mod number;
pub mod socks5;
pub mod squic;
