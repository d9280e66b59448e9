//! Agent-side logic: path confinement, host evidence, the executor's
//! decisions and the nginx publishing rules.

pub mod config;
pub mod containers;
pub mod deploy_flow;
pub mod docker;
pub mod executor;
pub mod file_system;
pub mod files;
pub mod heartbeat;
pub mod host;
pub mod inventory;
pub mod logs;
pub mod register;
pub mod tasks;
pub mod traffic;
pub mod vhost;
