//! A line-oriented command interpreter front-end: raw input text is split
//! into command segments, each segment is tokenized with shell-style quoting
//! and escaping rules, and the tokens are resolved into a typed command
//! representation (name, flags, positional arguments) with exact error
//! reporting.

pub mod command;
pub mod errors;
pub mod laws;
pub mod parser;
pub mod text;

pub use command::Command;
pub use command::CommandModel;
pub use command::CommandType;
pub use command::Commands;
pub use command::Flag;
pub use errors::ParseError;
pub use parser::parse;
pub use parser::parse_flags_and_args;
pub use parser::split_commands;
pub use parser::tokenize;
