//! A tree-walking interpreter for a small dynamically typed scripting
//! language: scanner, recursive-descent parser, syntax tree, scope chain and
//! an evaluator that runs one transition at a time.
//!
//! Numbers are IEEE-754 doubles carried as their 64-bit patterns. Everything
//! that needs floating-point hardware (decoding a numeric literal, the four
//! arithmetic operations, writing a number in decimal) and everything that
//! touches the outside world (native functions, reading an imported file) is
//! requested from the embedding program through [`interpreter::Action`].
//!
//! The contracts are stated over the mathematical forms of `model`:
//! `scanner::lex` says what a scan yields, `parser::program` what a parse
//! yields, `machine::step` what one transition of the evaluator does.
//! `meaning` gives the value of expressions and the effect of statements
//! directly and proves that the machine computes them; `laws` holds what
//! is true of every run; `reading` proves that tokens which spell a tree
//! as `render` writes it are parsed to that tree.

pub mod text;
mod shared;
pub mod token_type;
pub mod number;
pub mod err;
pub mod lox_type;
pub mod callable;
pub mod fun;
pub mod token;
pub mod expr;
pub mod statements;
pub mod model;
pub mod environment;
pub mod render;
pub mod scanner;
pub mod parser;
pub mod machine;
pub mod interpreter;
pub mod lox_std;
pub mod laws;
pub mod meaning;
pub mod reading;

pub use token_type::TokenType;
pub use number::Number;
pub use err::LoxError;
pub use lox_type::LoxType;
pub use callable::{Callable, Native};
pub use fun::LoxFun;
pub use token::Token;
pub use expr::Expr;
pub use statements::Statement;
pub use environment::Environment;
pub use lox_std::Clock;
