//! Verified core of a supervisor for a project's development processes.
pub mod commands;
pub mod config;
pub mod config_loader;
pub mod error;
pub mod git_info;
pub mod ordered_map;
pub mod session;
pub mod supervisor;
pub mod text;
pub mod url;
