//! Core of a small line-oriented command interpreter: quoting-aware
//! tokenizing, redirection parsing, builtin dispatch, search-path lookup and
//! the tab-completion state machine. Everything here is pure computation;
//! the terminal, the file system and process spawning are left to callers.
pub mod text;
pub mod tokenizer;
pub mod redirect;
pub mod order;
pub mod builtins;
pub mod completion;
pub mod search_path;
pub mod commands;
