//! The logic of HermesOS, the desktop shell around the Hermes agent: how its configuration, its
//! variables, its profiles, its skills and its sessions are read and changed, what is told of them
//! to the forms, and how the sidecar that runs the agent is started, listened to and ended.
//!
//! Every function states what it returns. Files, processes and the database are left to the
//! caller: a function takes what was read, and gives what is to be written, run or asked for.
pub mod analytics;
pub mod config;
pub mod env_vars;
pub mod fts;
mod fts_proof;
pub mod ipc;
pub mod log_rotator;
pub mod logs;
pub mod models;
pub mod paths;
pub mod profiles;
pub mod sessions;
pub mod sidecar;
pub mod skills;
pub mod status;
pub mod text;
pub mod updater;
pub mod value;
