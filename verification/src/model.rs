//! The module definitions: what a `module.toml` declares, once validated.
pub mod mode;
pub mod validations;
pub mod platform_filter;
pub mod block;
pub mod command;
pub mod dir;
pub mod env;
pub mod file;
pub mod package;
pub mod module;
pub mod modules;
pub mod modules_laws;
pub mod load;
