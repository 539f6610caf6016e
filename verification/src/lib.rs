//! Per-user virtual directories over a real filesystem: path normalisation,
//! mount lookup and confinement of resolved paths to their mount.

pub mod auth;
pub mod default_config;
pub mod digest;
pub mod handler;
pub mod path;
pub mod table;
pub mod text;
pub mod user;
