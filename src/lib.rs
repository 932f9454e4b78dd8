//! A background safety net for uncommitted work: the verified core of a daemon
//! that snapshots watched working trees onto dedicated backup references.

pub mod config;
pub mod database;
pub mod debounce;
pub mod display;
pub mod locator;
pub mod snapshot;
pub mod status;
pub mod text;
