//! The logic of a command-line chat assistant: roles and agents, sessions,
//! messages, tool calls and script-backed tools.

pub mod activation;
pub mod agent;
pub mod closure;
pub mod config;
pub mod dispatch;
pub mod doc_comment;
pub mod error;
pub mod function;
pub mod harness;
pub mod input;
pub mod json;
pub mod keeping;
pub mod lua_run;
pub mod lua_tool;
pub mod lua_value;
pub mod message;
pub mod model;
pub mod prompt;
pub mod render;
pub mod role;
pub mod session;
pub mod settings;
pub mod table;
pub mod text;
