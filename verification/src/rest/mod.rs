pub mod http;
pub mod template;
pub mod validation;
pub mod login;
