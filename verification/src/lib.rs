//! Replication engine of a shared clipboard: a versioned clipboard log, a
//! vector clock per host, and the decisions of the gossip and anti-entropy
//! paths that keep the logs of a small mesh of hosts consistent.

pub mod clock;
pub mod control_plane;
pub mod daemon;
pub mod db;
pub mod http_server;
pub mod key;
pub mod log;
pub mod text;
