//! Sockets of the platform.

pub mod platform;
