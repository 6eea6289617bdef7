//! Verified core of a P4 language server.
pub mod ast;
pub mod builtins;
pub mod compile;
pub mod completion;
pub mod config;
pub mod definition;
pub mod diagnostics;
pub mod highlight;
pub mod hover;
pub mod includes;
pub mod lexical;
pub mod project;
pub mod protocol;
pub mod scope;
pub mod semantic;
pub mod server;
pub mod standalone;
pub mod state;
pub mod strings;
pub mod text;
pub mod unit;
pub mod words;
