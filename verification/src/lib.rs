//! A plugin execution engine: discovers script-bundle plugins, indexes them by
//! the file extensions they claim, projects a per-plugin view of the project
//! configuration, runs each plugin's validate/generate protocol inside an
//! isolated Lua interpreter, and applies the generated files with per-plugin
//! failure isolation.

pub mod config;
pub mod engine;
pub mod logs;
pub mod plugin;
pub mod registry;
pub mod sandbox;
