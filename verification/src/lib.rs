//! The core of a small interactive shell: everything between the line
//! editor and the command interpreter that can be stated and proved.
//!
//! A session keeps a configuration of aliases, functions, exported
//! variables, a prompt and lifecycle hooks. The configuration is loaded from
//! the lines of a run-control file, and changed by the built-ins that the
//! dispatcher knows. The dispatcher turns each submitted line into an action
//! for its caller: the caller reads files, runs commands and prints; this
//! library decides what is to be read, run and printed. Completion works the
//! same way: the caller lists a directory, the library picks the word, the
//! directory and the candidates.
//!
//! Strings are specified through their view as sequences of characters. Each
//! executable function has a specification function beside it that says what
//! it computes, and the properties that connect several functions are proved
//! as lemmas in the module of the function they are about.
//!
//! - [`text`]: trimming, splitting and comparing strings
//! - [`bindings`]: the mapping from names to strings
//! - [`config`]: the configuration of a session
//! - [`paths`]: tilde expansion
//! - [`loader`]: the run-control grammar and loading
//! - [`alias`]: alias expansion
//! - [`dispatch`]: the built-ins and the dispatcher
//! - [`listing`]: what `alias` and `set` print
//! - [`policy`]: the search path of delegated commands
//! - [`completion`]: directory completion

pub mod alias;
pub mod bindings;
pub mod completion;
pub mod config;
pub mod dispatch;
pub mod listing;
pub mod loader;
pub mod paths;
pub mod policy;
pub mod text;
