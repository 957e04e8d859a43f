//! Postar: rule-based filtering of e-mail.
//!
//! The library holds the rule language (lexer, parser and name resolution),
//! the evaluation of rules against messages, and the pure parts of the
//! configuration. Talking to mail servers, the file system and the terminal
//! is left to the program that uses it.

/// Lexing, parsing and resolving rule files.
pub mod dsl;
/// Character-level helpers on strings.
pub mod text;
/// Folders, messages and the operations of an inbox.
pub mod inbox;
/// Matchers, actions and rules applied to messages.
pub mod process;
/// The program's configuration.
pub mod config;
/// Command-line arguments and the dry run.
pub mod cli;
