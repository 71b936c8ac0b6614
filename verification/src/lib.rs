//! A parser for single-variable arithmetic expressions and equations.
//!
//! Text is turned into a binary expression tree whose leaves are terms: a
//! number, a function application, or a number multiplying a function
//! application. Every parsing routine is proved to compute exactly what the
//! grammar in [`grammar`] prescribes.

pub mod expressions;
pub mod grammar;
pub mod lexical;
pub mod parser;
pub mod laws;
pub mod numerals;

pub use expressions::{
    Connective, Equation, ErrorKind, ExpressionNode, Function, Number, ParseError, Term,
};
pub use parser::{parse_equation, parse_expression};
