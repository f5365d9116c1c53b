//! The command line's decisions: settings, broker selection, commands.

pub mod broker;
pub mod commands;
pub mod settings;
