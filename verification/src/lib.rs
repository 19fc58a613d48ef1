//! Fleet bridge between a local message bus and NATS: the decisions, checked.

pub mod bridge;
pub mod config;
pub mod dispatch;
pub mod forward;
pub mod hub_status;
pub mod hub_watcher;
pub mod json;
pub mod load;
pub mod nats_config;
pub mod selftest;
pub mod status;
pub mod text;
