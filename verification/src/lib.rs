//! Module planner and applicator for dotfile environments: the verified core.
pub mod checkout;
pub mod cli;
pub mod config;
pub mod error;
pub mod exec;
pub mod install_command;
pub mod lines;
pub mod model;
pub mod os_release;
pub mod path;
pub mod plan;
pub mod platform;
pub mod report;
pub mod split;
pub mod steps;
pub mod text;
pub mod upgrade;
pub mod util;
