pub mod data;
pub mod regex;
pub mod search;
pub mod text;
pub mod strmap;
pub mod time;
pub mod json;
