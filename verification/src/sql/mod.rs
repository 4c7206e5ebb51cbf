pub mod connection;
pub mod input;
pub mod plugins;
pub mod transform;
pub mod reading;
pub mod config;
pub mod results;
