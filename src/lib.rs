//! Front end of a small interpreted language: a lexer that turns source text into tokens and a
//! recursive-descent parser that turns tokens into a syntax tree, both reporting located
//! diagnostics.

pub mod errors;
pub mod expr;
pub mod lex;
pub mod parse;
pub mod text;
pub mod tokens;

pub use errors::{Error, ErrorMessage, Ice, LexError, ParseError, TypeError};
pub use expr::{Node, Op, Var};
pub use lex::{tokenise, Lexer};
pub use parse::{parse, Parser};
pub use text::Position;
pub use tokens::{Token, TokenType};
