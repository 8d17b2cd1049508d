//! Liveness tracking for a directory of proxy-routed peers: the peer registry,
//! the health monitor's decisions, and the framing of ping/pong messages.

pub mod clock;
pub mod commands;
pub mod liveness;
pub mod mempool;
pub mod monitor;
pub mod monitor_laws;
pub mod record;
pub mod registry;
pub mod wire;
