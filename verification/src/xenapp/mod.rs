pub mod plugin;
pub mod response;
