//! The state of the program: sessions, lists, dialogs and the models to choose from.

pub mod branch;
pub mod builder;
pub mod close;
pub mod commands;
pub mod dialogs;
pub mod input;
pub mod keys;
pub mod list;
pub mod make;
pub mod models;
pub mod picker;
pub mod session;
pub mod state;
pub mod types;
pub mod view;
pub mod worker;
