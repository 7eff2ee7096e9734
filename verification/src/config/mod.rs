//! The configuration file's sections and the rules on their values.
pub mod config_laws;
pub mod connections;
pub mod enums;
pub mod proxy;
pub mod rate_limits;
pub mod settings;
pub mod timeouts;
