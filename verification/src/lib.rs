//! Task capture library: the quick-add grammar, the task list and its rules,
//! CSV import and export, reminders, deep links and configuration.

pub mod clock;
pub mod config;
pub mod csv;
pub mod deeplink;
pub mod ids;
pub mod laws;
pub mod lexer;
pub mod models;
pub mod panel;
pub mod parser;
pub mod reminder;
pub mod store;
pub mod text;
