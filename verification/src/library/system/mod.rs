pub mod full_config;
