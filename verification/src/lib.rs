//! norma: validates source code against registered ast-grep rules
//! (patterns), applies their fixes, and keeps the decisions of its pattern
//! registry, command line and MCP tools, all verified with Verus.

pub mod ast_grep;
pub mod cli;
pub mod default_patterns;
pub mod error;
pub mod fixes;
pub mod mcp;
pub mod models;
pub mod pattern_engine;
pub mod pattern_store;
pub mod stdlib;
pub mod text;
pub mod timestamps;
