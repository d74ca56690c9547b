pub mod commands;
pub mod config;
pub mod secrets;
pub mod secrets_sources;
pub mod system;
pub mod utils;
