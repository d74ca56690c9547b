pub mod commands_config;
pub mod config;
pub mod full_config;
pub mod general_settings;
pub mod project_config;
pub mod secret_source;
pub mod user_config;
