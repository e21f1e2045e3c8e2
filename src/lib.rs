//! Named Git identity profiles: the profile store, the SSH client config
//! reader, the origin URL reader, and the decisions of the commands that
//! switch a repository from one identity to another.
pub mod text;
pub mod git;
pub mod ssh_config;
pub mod config;
pub mod error;
pub mod utils;
pub mod commands;
