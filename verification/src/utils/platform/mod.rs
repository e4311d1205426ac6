//! What platforms do differently.

pub mod fallback;
