//! Shell history recording, import and search, with the parsing, framing,
//! formatting and reconciliation logic verified.

pub mod encoding;
pub mod text;
pub mod error;
pub mod path;
pub mod execution;
pub mod command;
pub mod record;
pub mod lines;
pub mod zsh;
pub mod parser;
pub mod ids;
pub mod identity;
pub mod candidate;
pub mod sql;
pub mod diff;
pub mod database;
pub mod importer;
pub mod progress;
pub mod search;
pub mod backup;
