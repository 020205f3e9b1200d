//! A small interactive shell: line editing, tokenizing, expansion, parsing
//! and the decisions of the evaluation loop, each stated and proved.

pub mod text;
pub mod tokenizer;
pub mod expand;
pub mod expression;
pub mod prompt;
pub mod history;
pub mod cmdoutput;
pub mod error;
pub mod eval;
pub mod builtins;
pub mod redirections;
pub mod config;
pub mod state;
pub mod autocomplete;
pub mod readloop;
pub mod promptscript;
pub mod columns;
