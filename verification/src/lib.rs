//! A verified interpreter for a tiny assignment language.
//!
//! A program is an ordered list of lines of the form `symbol=expression`,
//! where a symbol is a single lowercase ASCII letter and an expression is
//! either a single operand (an unsigned 32-bit decimal literal or a symbol),
//! a sum of two or more operands joined by `+`, or a product of two or more
//! operands joined by `*`; the two operators never mix in one expression.
//! Statements execute in order against a mutable symbol table, one statement
//! per step, and every error is reported as a value. Sums and products
//! combine their operands left to right with wrapping 32-bit arithmetic.
//!
//! Alongside the interpreter the crate holds a few small verified pieces of
//! the same family: a standalone parser for signed assignment lines, a cons
//! list convertible to and from a vector, and vector helpers.

pub mod assign;
pub mod expr;
pub mod interp;
pub mod list;
pub mod stmt;
pub mod symtab;
pub mod text;
pub mod vecs;
