//! The QUIC endpoint that `gm_quic` provides.

pub mod endpoint;
pub mod params;
