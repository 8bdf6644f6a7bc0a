//! The logic of a coding agent for the terminal: chat history, sessions and dialogs, channels to
//! sandboxed working directories, and configuration.

pub mod app;
pub mod channel;
pub mod chat;
pub mod config;
pub mod editor;
pub mod json;
pub mod llm;
pub mod perm;
pub mod table;
pub mod text;
