//! updSH, a Linux shell with a package manager: its command-line parser,
//! built-ins, job table, aliases, history, completion, prompt, configuration
//! and package-manager decisions, each with a contract proved by Verus.
//! Reading and writing files, processes and the terminal is left to the
//! caller.
pub mod text;
pub mod num;
pub mod order;
pub mod parser;
pub mod job;
pub mod alias;
pub mod history;
pub mod config;
pub mod prompt;
pub mod builtins;
pub mod pkg;
pub mod recipes;
pub mod installer;
pub mod completer;
pub mod executor;
pub mod session;
