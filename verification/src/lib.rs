//! A compiler from a small scripting language to shell script text.
//!
//! The crate covers the compilation pipeline (tokenize, parse, translate)
//! and the rules by which one source file imports the exported
//! declarations of another.

pub mod cli;
pub mod compiler;
pub mod error;
pub mod flags;
pub mod history;
pub mod import;
pub mod laws;
pub mod memory;
pub mod paths;
pub mod source;
pub mod state;
pub mod statement;
pub mod syntax;
pub mod text;
pub mod token;
pub mod translate;
