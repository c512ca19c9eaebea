//! A small interpreter for a language of integer variables and arithmetic.
//!
//! Source text passes through three stages: [`lexer`] cuts it into tokens,
//! [`parser`] builds a syntax tree from them, and [`script`] walks the tree
//! against a table of variables. What each stage computes is stated by a
//! specification function ([`lexer::scan`], [`grammar::program`],
//! [`script::eval`]) and proved of the code that runs. [`laws`] holds what
//! follows from those functions for every program.
pub mod token;
pub mod reader;
pub mod lexer;
pub mod ast;
pub mod error;
pub mod grammar;
pub mod parser;
pub mod numeral;
pub mod script;
pub mod laws;

pub use crate::ast::{ASTNode, ASTNodeType, Ast, SimpleASTNode};
pub use crate::error::{invalid_input_err, ErrorKind, ErrorView, ScriptError};
pub use crate::lexer::SimpleLexer;
pub use crate::parser::SimpleParser;
pub use crate::reader::{SimpleTokenReader, TokenReader};
pub use crate::script::{SimpleScript, TraceEvent};
pub use crate::token::{SimpleToken, Token, TokenType, TokenView};
