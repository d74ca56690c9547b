pub mod text;
pub mod str_map;
pub mod env_vars;
pub mod updater;
