//! Configuration, plugins and themes of a desktop customization tool.
//!
//! The crate holds the rules and no input or output: configuration documents
//! with layered imports and `${name}` variables, a plugin registry that
//! enables and disables plugins along their dependencies, and a store of
//! named themes with one active theme. Its callers read the files and run
//! the scripts, and hand the library what they found.

pub mod text;
pub mod paths;
pub mod name_map;
pub mod placeholder;
pub mod resolver;
pub mod config;
pub mod version;
pub mod plugin;
pub mod loader;
pub mod dispatch;
pub mod registry;
pub mod plugin_manager;
pub mod theme;
pub mod theme_loader;
pub mod theme_manager;
