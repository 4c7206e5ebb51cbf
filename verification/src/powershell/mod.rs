pub mod config;
pub mod input;
pub mod table;
