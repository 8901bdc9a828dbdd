//! A toolchain for the Idem language: lexer, parser, validator and interpreter.
//!
//! A program is a list of function definitions; the body of a function is one expression:
//! a number, a parameter, a call or a branch. The stages are
//!
//! - [`lexing`]: a character stream becomes located tokens;
//! - [`parsing`]: tokens become an abstract syntax tree ([`ast`]), or the first syntax error;
//! - [`validation`]: a tree gives a list of diagnostics;
//! - [`interpretation`]: a tree is run, by the rules of the [`native`] functions;
//! - [`formatting`] and [`visualization`]: a tree is written back as source text, or drawn
//!   as the [`graph`] of its calls.
//!
//! Each stage is verified against a mathematical description of what it computes: the
//! scanner against a step function on characters, the parser against the grammar, the
//! validator against the reports that each part of a program gives, the interpreter
//! against the value of an expression. On these descriptions rest the laws of
//! [`round_trip`] and [`guarantees`].

pub mod ast;
pub mod formatting;
pub mod graph;
pub mod guarantees;
pub mod interpretation;
pub mod lexing;
pub mod names;
pub mod native;
pub mod parsing;
pub mod reading;
pub mod round_trip;
pub mod text;
pub mod tracing;
pub mod validation;
pub mod visualization;
