pub mod config;
pub mod plugin;
