//! The command-processing core of a terminal-styled page: a parser that turns
//! a submitted line into a typed command or a structured parse error, a
//! colorizer that splits ANSI-colored text into styled segments, and an
//! append-only history of submitted lines.

pub mod ansi;
pub mod command;
pub mod history;
pub mod shell;
pub mod text;
