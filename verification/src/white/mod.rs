//! Source whitelisting: which peers may connect.
//!
//! Peers are checked against a rule file in the Clash/Mihomo rule-provider payload format. A
//! missing file disables filtering; an existing file that is empty, unreadable or invalid
//! denies every source. When the file changes, connections whose source is no longer listed
//! are closed.

pub mod connections;
pub mod mask;
pub mod policy;
pub mod rules;
pub mod watcher;
pub mod yaml;
