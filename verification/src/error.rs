//! Errors reported by the streaming parser, with the position at which they
//! were detected.
use vstd::prelude::*;
use crate::text::{decimal_chars, hex_upper_chars, push_decimal, push_hex_upper, push_str, string_push};

verus! {

/// What went wrong in the input.
#[derive(Debug, Clone, Copy, PartialEq, Eq)]
pub enum SyntaxError {
    /// A character that cannot appear at this position.
    InvalidCharacter(char),
    /// A non-hexadecimal character inside a `\u` escape.
    InvalidUnicodeEscapeChar(char),
    /// A `\u` escape that does not denote a Unicode scalar value.
    InvalidUnicodeEscapeSequence(u32),
    /// Any other syntax error, with its description.
    SyntaxError(&'static str),
    /// The input ended inside a value.
    UnexpectedEndOfInput,
}

/// The rendering of a syntax error.
pub open spec fn syntax_message(e: SyntaxError) -> Seq<char> {
    match e {
        SyntaxError::InvalidCharacter(c) => "invalid character '"@ + seq![c] + "'"@,
        SyntaxError::InvalidUnicodeEscapeChar(c) => "invalid unicode escape sequence at character: '"@
            + seq![c] + "'"@,
        SyntaxError::InvalidUnicodeEscapeSequence(code) => "invalid unicode escape sequence \\u"@
            + hex_upper_chars(code as nat),
        SyntaxError::SyntaxError(msg) => msg@,
        SyntaxError::UnexpectedEndOfInput => "unexpected end of input"@,
    }
}

impl SyntaxError {
    /// The human-readable description of the error.
    pub fn message(&self) -> (r: String)
        ensures
            r@ == syntax_message(*self),
    {
        let mut s = String::new();
        match self {
            SyntaxError::InvalidCharacter(c) => {
                push_str(&mut s, "invalid character '");
                string_push(&mut s, *c);
                push_str(&mut s, "'");
            },
            SyntaxError::InvalidUnicodeEscapeChar(c) => {
                push_str(&mut s, "invalid unicode escape sequence at character: '");
                string_push(&mut s, *c);
                push_str(&mut s, "'");
            },
            SyntaxError::InvalidUnicodeEscapeSequence(code) => {
                push_str(&mut s, "invalid unicode escape sequence \\u");
                push_hex_upper(&mut s, *code);
            },
            SyntaxError::SyntaxError(msg) => {
                push_str(&mut s, msg);
            },
            SyntaxError::UnexpectedEndOfInput => {
                push_str(&mut s, "unexpected end of input");
            },
        }
        proof {
            assert(Seq::<char>::empty() + syntax_message(*self) == syntax_message(*self));
        }
        s
    }
}

/// The origin of a parser error.
#[derive(Debug, Clone, Copy, PartialEq, Eq)]
pub enum ErrorSource {
    /// The input is not valid JSON.
    SyntaxError(SyntaxError),
}

/// The rendering of an error source.
pub open spec fn source_message(e: ErrorSource) -> Seq<char> {
    match e {
        ErrorSource::SyntaxError(s) => "syntax error: "@ + syntax_message(s),
    }
}

impl ErrorSource {
    /// The human-readable description of the error source.
    pub fn message(&self) -> (r: String)
        ensures
            r@ == source_message(*self),
    {
        match self {
            ErrorSource::SyntaxError(e) => {
                let mut s = String::new();
                push_str(&mut s, "syntax error: ");
                let m = e.message();
                push_str(&mut s, m.as_str());
                s
            },
        }
    }
}

/// An error of the streaming parser: what went wrong, and the line and
/// column (both counted from 1) at which it was detected.
#[derive(Debug, Clone, Copy, PartialEq, Eq)]
pub struct ParserError {
    pub source: ErrorSource,
    pub line: usize,
    pub column: usize,
}

/// The rendering of a parser error: `"<source> at <line>:<column>"`.
pub open spec fn error_message(e: ParserError) -> Seq<char> {
    source_message(e.source) + " at "@ + decimal_chars(e.line as nat) + ":"@ + decimal_chars(
        e.column as nat,
    )
}

impl ParserError {
    /// A syntax error at the given position.
    pub fn new(err: SyntaxError, line: usize, column: usize) -> (r: Self)
        ensures
            r == (ParserError { source: ErrorSource::SyntaxError(err), line, column }),
    {
        ParserError { source: ErrorSource::SyntaxError(err), line, column }
    }

    /// The line (from 1) at which the error was detected.
    pub fn line(&self) -> (r: usize)
        ensures
            r == self.line,
    {
        self.line
    }

    /// The column (from 1) at which the error was detected.
    pub fn column(&self) -> (r: usize)
        ensures
            r == self.column,
    {
        self.column
    }

    /// The human-readable rendering of the error.
    pub fn message(&self) -> (r: String)
        ensures
            r@ == error_message(*self),
    {
        let mut s = self.source.message();
        push_str(&mut s, " at ");
        push_decimal(&mut s, self.line as u64);
        push_str(&mut s, ":");
        push_decimal(&mut s, self.column as u64);
        s
    }
}

} // verus!
