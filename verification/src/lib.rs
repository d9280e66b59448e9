//! Verified core of the Foundry GPU-fleet controller and agent: input
//! validation, parsers, the deployment state machine and the decisions the
//! agent and controller take between their I/O steps.

pub mod text;
pub mod shared;
pub mod encoding;
pub mod seqs;
pub mod sorting;
pub mod ids;
pub mod controller;
pub mod agent;
