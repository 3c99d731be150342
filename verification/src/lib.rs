//! A small Lisp.
//!
//! A line of text is parsed into a syntax tree ([`parser`]), the tree is
//! read as a value ([`reader`]), the value is evaluated ([`eval`], with the
//! builtins of [`builtins`]) and the result is printed ([`print`]).
//! [`repl`] puts the steps together for one line of input.
//!
//! A value ([`value::LispValue`]) is a number, an error, a symbol, or a list
//! of values: an S-expression, which evaluation reduces, or a Q-expression,
//! which it leaves alone. Errors are values: nothing in this library fails
//! in another way. Numbers are signed 64-bit integers, and arithmetic that
//! leaves their range wraps round ([`arith`]).
//!
//! Every function states what it returns over a mathematical model of its
//! arguments: [`value::Term`] for values and [`reader::Syntax`] for syntax
//! trees. [`laws`] holds what follows for the language as a whole.

pub mod arith;
pub mod builtins;
pub mod eval;
pub mod laws;
pub mod numeral;
pub mod parser;
pub mod print;
pub mod reader;
pub mod repl;
pub mod text;
pub mod value;
