//! Configurable outer-terminal title for herdr: a template engine with
//! optional sections, a session-wide agent-state indicator, and the pure
//! decision logic of the title monitor.

pub mod config;
pub mod text;
pub mod indicator;
pub mod json;
pub mod monitor;
pub mod render;
pub mod snapshot;
pub mod template;
pub mod toml_table;
