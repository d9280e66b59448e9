//! Controller-side logic: validation of operator requests, the deployment
//! state machine and the decisions taken around database work.

pub mod agent_version;
pub mod error;
pub mod lifecycle;
pub mod volumes;
pub mod deployments;
pub mod deployment_targets;
pub mod local_admins;
pub mod servers;
pub mod inventory;
pub mod adoption;
pub mod gpu_groups;
pub mod files;
pub mod deployment_queries;
pub mod users;
pub mod login;
pub mod cookies;
pub mod logs;
pub mod gitlab;
pub mod instances;
pub mod traffic;
pub mod audit;
pub mod cli;
pub mod config;
pub mod crypto;
pub mod registry;
pub mod tasks;
