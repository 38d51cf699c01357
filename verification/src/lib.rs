//! Agent skill management: skill files, selection, disclosure, enforcement.

pub mod cli;
pub mod disclose;
pub mod embed;
pub mod enforce;
pub mod error;
pub mod learn;
pub mod llm;
pub mod parser;
pub mod rank;
pub mod pattern;
pub mod registry;
pub mod schema;
pub mod select;
pub mod strmap;
pub mod text;
pub mod validator;
pub mod watcher;
