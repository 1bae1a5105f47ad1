//! Errors of every stage: lexing, parsing and running a story.
use vstd::prelude::*;
use crate::text::{decimal, push_decimal, push_str};

verus! {

/// An error of the lexer, the parser or the runtime.
#[derive(Debug, Clone)]
pub enum PslError {
    LexError { line: usize, col: usize, message: String },
    ParseError { line: usize, col: usize, message: String },
    RuntimeError(String),
    TypeError(String),
    NameError(String),
    AccessError(String),
}

/// The mathematical value of a `PslError`.
pub enum ErrorV {
    Lex { line: nat, col: nat, message: Seq<char> },
    Parse { line: nat, col: nat, message: Seq<char> },
    Runtime(Seq<char>),
    Type(Seq<char>),
    Name(Seq<char>),
    Access(Seq<char>),
}

impl View for PslError {
    type V = ErrorV;

    open spec fn view(&self) -> ErrorV {
        match self {
            PslError::LexError { line, col, message } => ErrorV::Lex {
                line: *line as nat,
                col: *col as nat,
                message: message@,
            },
            PslError::ParseError { line, col, message } => ErrorV::Parse {
                line: *line as nat,
                col: *col as nat,
                message: message@,
            },
            PslError::RuntimeError(m) => ErrorV::Runtime(m@),
            PslError::TypeError(m) => ErrorV::Type(m@),
            PslError::NameError(m) => ErrorV::Name(m@),
            PslError::AccessError(m) => ErrorV::Access(m@),
        }
    }
}

/// The text that describes an error to a reader.
pub open spec fn error_text(e: ErrorV) -> Seq<char> {
    match e {
        ErrorV::Lex { line, col, message } => "Lexer error at line "@ + decimal(line) + ", col "@
            + decimal(col) + ": "@ + message,
        ErrorV::Parse { line, col, message } => "Parser error at line "@ + decimal(line)
            + ", col "@ + decimal(col) + ": "@ + message,
        ErrorV::Runtime(m) => "Runtime error: "@ + m,
        ErrorV::Type(m) => "Type error: "@ + m,
        ErrorV::Name(m) => "Name error: "@ + m,
        ErrorV::Access(m) => "Access error: "@ + m,
    }
}

impl PslError {
    /// Describes the error to a reader, naming its stage and, for the lexer
    /// and the parser, its line and column.
    pub fn to_message(&self) -> (r: String)
        ensures
            r@ == error_text(self@),
    {
        let mut s = String::new();
        match self {
            PslError::LexError { line, col, message } => {
                push_str(&mut s, "Lexer error at line ");
                push_decimal(&mut s, *line);
                push_str(&mut s, ", col ");
                push_decimal(&mut s, *col);
                push_str(&mut s, ": ");
                push_str(&mut s, message.as_str());
            },
            PslError::ParseError { line, col, message } => {
                push_str(&mut s, "Parser error at line ");
                push_decimal(&mut s, *line);
                push_str(&mut s, ", col ");
                push_decimal(&mut s, *col);
                push_str(&mut s, ": ");
                push_str(&mut s, message.as_str());
            },
            PslError::RuntimeError(m) => {
                push_str(&mut s, "Runtime error: ");
                push_str(&mut s, m.as_str());
            },
            PslError::TypeError(m) => {
                push_str(&mut s, "Type error: ");
                push_str(&mut s, m.as_str());
            },
            PslError::NameError(m) => {
                push_str(&mut s, "Name error: ");
                push_str(&mut s, m.as_str());
            },
            PslError::AccessError(m) => {
                push_str(&mut s, "Access error: ");
                push_str(&mut s, m.as_str());
            },
        }
        assert(s@ =~= error_text(self@));
        s
    }

    /// A copy of the error.
    pub fn duplicate(&self) -> (r: PslError)
        ensures
            r@ == self@,
    {
        match self {
            PslError::LexError { line, col, message } => PslError::LexError {
                line: *line,
                col: *col,
                message: message.clone(),
            },
            PslError::ParseError { line, col, message } => PslError::ParseError {
                line: *line,
                col: *col,
                message: message.clone(),
            },
            PslError::RuntimeError(m) => PslError::RuntimeError(m.clone()),
            PslError::TypeError(m) => PslError::TypeError(m.clone()),
            PslError::NameError(m) => PslError::NameError(m.clone()),
            PslError::AccessError(m) => PslError::AccessError(m.clone()),
        }
    }
}

} // verus!
