pub mod config;
pub mod oid;
pub mod oidmap;
pub mod error;
pub mod get;
pub mod query;
pub mod walk;
pub mod bulk;
pub mod scalar;
pub mod counters;
pub mod input;
pub mod index;
pub mod rows;
pub mod table;
pub mod plan;
pub mod single;
