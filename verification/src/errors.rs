//! The parse-time error taxonomy. Every failure aborts the whole input line;
//! each variant renders to a single human-readable message line.

use vstd::prelude::*;
use vstd::string::*;

use crate::text::chars_to_string;
use crate::text::str_to_chars;

verus! {

/// Why a line of input was rejected.
#[derive(Debug, Clone, PartialEq, Eq)]
pub enum ParseError {
    /// The line, or the line after separator splitting, holds no command.
    EmptyInput,
    /// A quote was opened in a segment and never closed.
    UnclosedQuote,
    /// Reserved for structural errors beyond the other variants; the parser
    /// itself never raises it.
    InvalidSyntax(String),
    /// A clustered short-flag token holds the given unrecognized character.
    InvalidFlag(char),
    /// The leading token of a segment, given here with its case preserved,
    /// names no known command.
    UnknownCommand(String),
}

impl ParseError {
    /// The message line that renders this error.
    pub open spec fn message_spec(&self) -> Seq<char> {
        match self {
            ParseError::EmptyInput => "Empty command"@,
            ParseError::UnclosedQuote => "Unclosed quote"@,
            ParseError::InvalidSyntax(msg) => "Invalid syntax: "@ + msg@,
            ParseError::InvalidFlag(c) => "Invalid flag: -"@.push(*c),
            ParseError::UnknownCommand(cmd) => "Command '"@ + cmd@ + "' not found"@,
        }
    }

    /// Renders this error as a single human-readable line.
    pub fn message(&self) -> (r: String)
        ensures
            r@ == self.message_spec(),
    {
        match self {
            ParseError::EmptyInput => String::from_str("Empty command"),
            ParseError::UnclosedQuote => String::from_str("Unclosed quote"),
            ParseError::InvalidSyntax(msg) => {
                let mut r = String::from_str("Invalid syntax: ");
                r.append(msg.as_str());
                r
            },
            ParseError::InvalidFlag(c) => {
                let mut v = str_to_chars("Invalid flag: -");
                v.push(*c);
                chars_to_string(&v)
            },
            ParseError::UnknownCommand(cmd) => {
                let mut r = String::from_str("Command '");
                r.append(cmd.as_str());
                r.append("' not found");
                r
            },
        }
    }
}

} // verus!
