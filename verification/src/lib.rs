//! A publish/subscribe registry: parties register interest in events under a
//! case-insensitive category, and a notifier builds one status-update payload
//! per registered subscriber so that a caller can deliver each independently.

pub mod casing;
pub mod subscriber;
pub mod registry;
pub mod notification;
