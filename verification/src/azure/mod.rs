pub mod definitions;
pub mod input;
pub mod metrics;
pub mod schema;
pub mod listing;
pub mod chunks;
