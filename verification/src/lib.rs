//! AIBundle: bundle files and folders into XML, Markdown, JSON or an
//! LLM-oriented Markdown report, with the selection, search and ignore
//! logic of its terminal user interface.

pub mod text;
pub mod paths;
pub mod models;
pub mod pattern;
pub mod fs;
pub mod gitignore;
pub mod output;
pub mod cli;
pub mod tui;
pub mod utils;
