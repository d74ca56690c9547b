//! Secrets Machine: injects secrets from several sources into the
//! environment of a command.
pub mod library;
pub mod models;
