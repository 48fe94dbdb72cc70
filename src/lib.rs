//! Reading and rewriting the network settings of a host's configuration file.

pub mod error;
pub mod address;
pub mod section;
pub mod ini_store;
pub mod systemd;
pub mod ubuntu;
pub mod loader;
