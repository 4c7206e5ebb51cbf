pub mod counters;
pub mod config;
pub mod input;
pub mod dcom;
