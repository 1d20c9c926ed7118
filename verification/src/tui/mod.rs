//! The logic of the terminal interface: its state, components, views,
//! handlers and run-loop events.

pub mod state;
pub mod components;
pub mod views;
pub mod handlers;
pub mod app;
pub mod listing;
pub mod file_ops;
pub mod clipboard;
pub mod app_state;
