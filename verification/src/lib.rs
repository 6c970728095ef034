//! A terminal note manager's core: the note store, its search and tag
//! matching, the dashboard's navigation state, and the small text rules
//! that the command line and the dashboard share.
pub mod cli;
pub mod color;
pub mod config;
pub mod dashboard;
pub mod fts;
pub mod laws;
pub mod laws_dashboard;
pub mod laws_text;
pub mod model;
pub mod order;
pub mod saved;
pub mod stats;
pub mod store;
pub mod text;
