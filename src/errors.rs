use vstd::prelude::*;
use vstd::string::StringExecFns;
use vstd::string::StrSliceExecFns;
use crate::text::{decimal, decimal_digits, find_line_end, line_end, line_of, line_start, line_text, locate, lemma_end_after, lemma_line_bounds};

verus! {

/// What can go wrong while scanning source text.
#[derive(Debug, Clone, Copy, PartialEq, Eq, Structural)]
pub enum LexError {
    UnterminatedString,
    InvalidNumber,
    UnterminatedComment,
}

/// What can go wrong while building the syntax tree.
#[derive(Debug, Clone, Copy, PartialEq, Eq, Structural)]
pub enum ParseError {
    UnexpectedTermination,
    NoToken,
    InvalidType,
    UnexpectedToken,
    InvalidIdentifier,
}

/// Reserved for the semantic stage that follows parsing.
#[derive(Debug, Clone, Copy, PartialEq, Eq, Structural)]
pub struct TypeError;

/// A broken invariant of the front end itself, never a fault of its input.
#[derive(Debug, Clone, Copy, PartialEq, Eq, Structural)]
pub struct Ice;

/// The kind of a diagnostic.
#[derive(Debug, Clone, Copy, PartialEq, Eq, Structural)]
pub enum Error {
    LexError(LexError),
    ParseError(ParseError),
    TypeError(TypeError),
    ICE(Ice),
}

/// The sentence that a diagnostic of kind `e` shows.
pub open spec fn message_text(e: Error) -> Seq<char> {
    match e {
        Error::LexError(LexError::UnterminatedString) => "unterminated string literal"@,
        Error::LexError(LexError::InvalidNumber) => "invalid number literal"@,
        Error::LexError(LexError::UnterminatedComment) => "unterminated doc comment"@,
        Error::ParseError(ParseError::UnexpectedTermination) => "unexpected end of input"@,
        Error::ParseError(ParseError::NoToken) => "missing token"@,
        Error::ParseError(ParseError::InvalidType) => "invalid literal"@,
        Error::ParseError(ParseError::UnexpectedToken) => "unexpected token"@,
        Error::ParseError(ParseError::InvalidIdentifier) => "expected an identifier"@,
        Error::TypeError(_) => "type error"@,
        Error::ICE(_) => "internal compiler error"@,
    }
}

impl Error {
    /// Whether this diagnostic reports a defect of the front end rather than of its input.
    pub fn is_internal(&self) -> (r: bool)
        ensures
            r == (*self is ICE),
    {
        match self {
            Error::ICE(_) => true,
            _ => false,
        }
    }

    /// The sentence that describes this kind of error.
    pub fn describe(&self) -> (r: String)
        ensures
            r@ == message_text(*self),
    {
        let s = match self {
            Error::LexError(LexError::UnterminatedString) => "unterminated string literal",
            Error::LexError(LexError::InvalidNumber) => "invalid number literal",
            Error::LexError(LexError::UnterminatedComment) => "unterminated doc comment",
            Error::ParseError(ParseError::UnexpectedTermination) => "unexpected end of input",
            Error::ParseError(ParseError::NoToken) => "missing token",
            Error::ParseError(ParseError::InvalidType) => "invalid literal",
            Error::ParseError(ParseError::UnexpectedToken) => "unexpected token",
            Error::ParseError(ParseError::InvalidIdentifier) => "expected an identifier",
            Error::TypeError(_) => "type error",
            Error::ICE(_) => "internal compiler error",
        };
        String::from_str(s)
    }
}

/// A located diagnostic: where in the source it points, the line it points into, and its kind.
#[derive(Debug, Clone)]
pub struct ErrorMessage {
    /// line of the offending text, counted from zero
    pub line: usize,
    /// column of the offending text on its line, counted from zero
    pub column: usize,
    /// length from column to end of error
    pub len: usize,
    /// the source line that holds the offending text
    pub source_text: String,
    pub message: Error,
}

/// `e` points at offset `off` of `s`, spans `len` characters there, and has kind `m`.
pub open spec fn located(e: ErrorMessage, s: Seq<char>, off: int, len: int, m: Error) -> bool {
    &&& e.line == line_of(s, off)
    &&& e.column == off - line_start(s, off)
    &&& e.len == len
    &&& e.source_text@ == line_text(s, off)
    &&& e.message == m
}

/// Two diagnostics say the same thing at the same place.
pub open spec fn same_diagnostic(a: ErrorMessage, b: ErrorMessage) -> bool {
    &&& a.line == b.line
    &&& a.column == b.column
    &&& a.len == b.len
    &&& a.source_text@ == b.source_text@
    &&& a.message == b.message
}

/// The three lines that show diagnostic `e`.
pub open spec fn rendered(e: ErrorMessage) -> Seq<char> {
    "line "@ + decimal_digits(e.line as nat) + ":"@ + decimal_digits(e.column as nat) + "\n"@
        + e.source_text@ + "\n"@ + message_text(e.message)
}

impl ErrorMessage {
    /// A diagnostic with the given place, extent, source line and kind.
    pub fn new(line: usize, column: usize, len: usize, source: &str, message: Error) -> (r:
        ErrorMessage)
        ensures
            r.line == line,
            r.column == column,
            r.len == len,
            r.source_text@ == source@,
            r.message == message,
    {
        ErrorMessage { line, column, len, source_text: String::from_str(source), message }
    }

    /// The diagnostic of kind `message` for the `len` characters at offset `off` of `source`,
    /// whose characters are `chars`.
    pub fn at(source: &str, chars: &Vec<char>, off: usize, len: usize, message: Error) -> (r:
        ErrorMessage)
        requires
            chars@ == source@,
            off <= chars@.len(),
        ensures
            located(r, source@, off as int, len as int, message),
    {
        proof {
            lemma_line_bounds(chars@, off as int);
        }
        let p = locate(chars, off);
        let ls = off - p.col;
        let le = find_line_end(chars, ls);
        let excerpt = source.substring_char(ls, le);
        ErrorMessage::new(p.line, p.col, len, excerpt, message)
    }

    /// Shows the diagnostic as `line L:C`, then the source line, then the message.
    pub fn render(&self) -> (r: String)
        ensures
            r@ == rendered(*self),
    {
        let mut r = String::from_str("line ");
        r.append(decimal(self.line).as_str());
        r.append(":");
        r.append(decimal(self.column).as_str());
        r.append("\n");
        r.append(self.source_text.as_str());
        r.append("\n");
        r.append(self.message.describe().as_str());
        r
    }
}

/// Each diagnostic points into its source: its column falls within the line it quotes, and
/// the quoted line shows the offending character at that column.
pub proof fn lemma_diagnostic_in_source(e: ErrorMessage, s: Seq<char>, off: int, len: int, m: Error)
    requires
        0 <= off <= s.len(),
        located(e, s, off, len, m),
    ensures
        e.line <= line_of(s, s.len() as int),
        e.column <= e.source_text@.len(),
        off < s.len() && s[off] != '\n' ==> e.source_text@[e.column as int] == s[off],
{
    lemma_line_bounds(s, off);
    lemma_line_of_grows(s, off, s.len() as int);
    if off < s.len() && s[off] != '\n' {
        lemma_end_past(s, line_start(s, off), off);
    }
}

/// Line numbers do not fall as the offset grows.
proof fn lemma_line_of_grows(s: Seq<char>, a: int, b: int)
    requires
        0 <= a <= b,
    ensures
        line_of(s, a) <= line_of(s, b),
    decreases b - a,
{
    if a < b {
        lemma_line_of_grows(s, a, b - 1);
    }
}

/// A line that has no break up to and including `off` ends after `off`.
proof fn lemma_end_past(s: Seq<char>, from: int, off: int)
    requires
        0 <= from <= off < s.len(),
        forall|k: int| from <= k <= off ==> s[k] != '\n',
    ensures
        off < line_end(s, from),
    decreases off - from,
{
    if from < off {
        lemma_end_past(s, from + 1, off);
    } else {
        lemma_end_after(s, off + 1);
    }
}

} // verus!
