// The errors of the language: a kind, a message, and the place in the source
// that the error points at.

use crate::text::{decimal, push_decimal, push_str};
use vstd::prelude::*;

verus! {

/// What went wrong while a program ran.
#[derive(Clone, Copy, Debug, PartialEq, Eq, Structural)]
pub enum RuntimeKind {
    /// A failure that belongs to none of the other kinds.
    Other,
    /// An operand or an argument of the wrong type.
    TypeError,
    /// A call with the wrong number of arguments.
    ArityError,
    /// A name that no scope and no native function defines.
    UnboundName,
    /// A division whose divisor is zero.
    DivisionByZero,
    /// An argument outside the domain of a mathematical function.
    DomainError,
    /// An index outside a collection.
    IndexError,
    /// A feature that is declared but does nothing yet.
    NotImplemented,
}

/// The stage that reported an error.
#[derive(Clone, Copy, Debug, PartialEq, Eq, Structural)]
pub enum ErrorKind {
    Lexer,
    Parser,
    Runtime(RuntimeKind),
    Generic,
}

/// An error of the language: where it was found, what it says, and the line
/// and column it points at. A generic error points nowhere.
#[derive(Debug, Clone)]
pub enum KyaroError {
    LexerError { message: String, line: usize, column: usize },
    ParserError { message: String, line: usize, column: usize },
    RuntimeError { kind: RuntimeKind, message: String, line: usize, column: usize },
    GenericError { message: String },
}

/// An error as a mathematical value. A generic error has no position; its
/// line and column are zero here.
pub struct ErrorView {
    pub kind: ErrorKind,
    pub message: Seq<char>,
    pub line: nat,
    pub column: nat,
}

impl View for KyaroError {
    type V = ErrorView;

    open spec fn view(&self) -> ErrorView {
        match self {
            KyaroError::LexerError { message, line, column } => ErrorView {
                kind: ErrorKind::Lexer,
                message: message@,
                line: *line as nat,
                column: *column as nat,
            },
            KyaroError::ParserError { message, line, column } => ErrorView {
                kind: ErrorKind::Parser,
                message: message@,
                line: *line as nat,
                column: *column as nat,
            },
            KyaroError::RuntimeError { kind, message, line, column } => ErrorView {
                kind: ErrorKind::Runtime(*kind),
                message: message@,
                line: *line as nat,
                column: *column as nat,
            },
            KyaroError::GenericError { message } => ErrorView {
                kind: ErrorKind::Generic,
                message: message@,
                line: 0,
                column: 0,
            },
        }
    }
}

/// The text shown to the user for an error.
pub open spec fn error_text(e: ErrorView) -> Seq<char> {
    match e.kind {
        ErrorKind::Generic => "Error: "@ + e.message,
        _ => (match e.kind {
            ErrorKind::Lexer => "Lexer"@,
            ErrorKind::Parser => "Parser"@,
            _ => "Runtime"@,
        }) + " error at line "@ + decimal(e.line) + ", column "@ + decimal(e.column) + ": "@
            + e.message,
    }
}

impl KyaroError {
    /// An error of the lexer.
    pub fn lexer_error(message: String, line: usize, column: usize) -> (e: Self)
        ensures
            e@ == (ErrorView {
                kind: ErrorKind::Lexer,
                message: message@,
                line: line as nat,
                column: column as nat,
            }),
    {
        KyaroError::LexerError { message, line, column }
    }

    /// An error of the parser.
    pub fn parser_error(message: String, line: usize, column: usize) -> (e: Self)
        ensures
            e@ == (ErrorView {
                kind: ErrorKind::Parser,
                message: message@,
                line: line as nat,
                column: column as nat,
            }),
    {
        KyaroError::ParserError { message, line, column }
    }

    /// A runtime error of no particular kind.
    pub fn runtime_error(message: String, line: usize, column: usize) -> (e: Self)
        ensures
            e@ == (ErrorView {
                kind: ErrorKind::Runtime(RuntimeKind::Other),
                message: message@,
                line: line as nat,
                column: column as nat,
            }),
    {
        KyaroError::RuntimeError { kind: RuntimeKind::Other, message, line, column }
    }

    /// A runtime error of the given kind.
    pub fn runtime(kind: RuntimeKind, message: String, line: usize, column: usize) -> (e: Self)
        ensures
            e@ == (ErrorView {
                kind: ErrorKind::Runtime(kind),
                message: message@,
                line: line as nat,
                column: column as nat,
            }),
    {
        KyaroError::RuntimeError { kind, message, line, column }
    }

    /// An error of no stage and no place.
    pub fn generic_error(message: String) -> (e: Self)
        ensures
            e@ == (ErrorView { kind: ErrorKind::Generic, message: message@, line: 0, column: 0 }),
    {
        KyaroError::GenericError { message }
    }

    /// The stage that reported this error.
    pub fn kind(&self) -> (k: ErrorKind)
        ensures
            k == self@.kind,
    {
        match self {
            KyaroError::LexerError { .. } => ErrorKind::Lexer,
            KyaroError::ParserError { .. } => ErrorKind::Parser,
            KyaroError::RuntimeError { kind, .. } => ErrorKind::Runtime(*kind),
            KyaroError::GenericError { .. } => ErrorKind::Generic,
        }
    }

    /// The line the error points at, zero where it has none.
    pub fn line(&self) -> (n: usize)
        ensures
            n == self@.line,
    {
        match self {
            KyaroError::LexerError { line, .. } => *line,
            KyaroError::ParserError { line, .. } => *line,
            KyaroError::RuntimeError { line, .. } => *line,
            KyaroError::GenericError { .. } => 0,
        }
    }

    /// The column the error points at, zero where it has none.
    pub fn column(&self) -> (n: usize)
        ensures
            n == self@.column,
    {
        match self {
            KyaroError::LexerError { column, .. } => *column,
            KyaroError::ParserError { column, .. } => *column,
            KyaroError::RuntimeError { column, .. } => *column,
            KyaroError::GenericError { .. } => 0,
        }
    }

    /// The message without kind and position.
    pub fn message(&self) -> (m: &String)
        ensures
            m@ == self@.message,
    {
        match self {
            KyaroError::LexerError { message, .. } => message,
            KyaroError::ParserError { message, .. } => message,
            KyaroError::RuntimeError { message, .. } => message,
            KyaroError::GenericError { message } => message,
        }
    }

    /// The text shown to the user.
    pub fn to_string(&self) -> (s: String)
        ensures
            s@ == error_text(self@),
    {
        let mut s = String::new();
        match self.kind() {
            ErrorKind::Generic => {
                push_str(&mut s, "Error: ");
                push_str(&mut s, self.message().as_str());
                assert(s@ =~= error_text(self@));
            },
            k => {
                match k {
                    ErrorKind::Lexer => push_str(&mut s, "Lexer"),
                    ErrorKind::Parser => push_str(&mut s, "Parser"),
                    _ => push_str(&mut s, "Runtime"),
                }
                push_str(&mut s, " error at line ");
                push_decimal(&mut s, self.line() as u64);
                push_str(&mut s, ", column ");
                push_decimal(&mut s, self.column() as u64);
                push_str(&mut s, ": ");
                push_str(&mut s, self.message().as_str());
                assert(s@ =~= error_text(self@));
            },
        }
        s
    }
}

} // verus!
