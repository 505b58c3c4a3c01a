//! Front end of a small declaration language: a pull-based tokenizer and a
//! recursive-descent parser that turns `name: func(params): type { body }`
//! declarations into a syntax tree.
//!
//! Design choices where the language leaves room:
//! - characters that start no token are passed over without a token;
//! - a body is a sequence of `return` statements, each ended by `;`;
//! - a declaration other than `func`, and a generic argument that is itself
//!   generic, are structural errors.
use vstd::prelude::*;

pub mod codegen;
pub mod lexer;
pub mod pair;
pub mod parser;

pub use lexer::{Lexer, Token, TokenType};
pub use pair::Pair;
pub use parser::{ErrorKind, ParseError, Parser, Type, AST};

verus! {

} // verus!
