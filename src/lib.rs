//! An arithmetic expression engine: a tokenizer, an operator-precedence
//! (shunting-yard) reducer to postfix order, a postfix evaluator and a binder
//! for one-argument functions.
//!
//! The engine is generic in the number type it carries: the tokenizer keeps
//! each numeric literal as its text, and evaluation builds the expression tree
//! that a host folds with its own arithmetic.
pub mod token;
pub mod lexer;
pub mod parser;
pub mod eval;
pub mod session;

pub use token::{Op, Token, Error, ErrorView, precedence};
pub use lexer::{Lexeme, tokenize, check_reset_num_buffer, is_number_literal};
pub use parser::to_postfix;
pub use eval::{Expr, evaluate, bind};
pub use session::{Command, parse_command};
