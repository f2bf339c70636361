//! A small Lisp: a reader that turns text into expressions and an evaluator
//! with lexical scope, closures, macros and quasiquotation.
//!
//! The evaluator is a function from a context to a context. What it computes
//! is laid down in `semantics`; the executable evaluator in `eval` is proved
//! to compute exactly that, and `laws`, `depth`, `known`, `asks` and
//! `roundtrip` hold what follows for every program. Doubles are carried as
//! bit patterns; what the evaluator needs to know about them comes from a
//! table of facts (see `float`) that a unit of the embedding program fills
//! in on request (see `unit`).

pub mod asks;
pub mod capture;
pub mod context;
pub mod depth;
pub mod equal;
pub mod eval;
pub mod expr;
pub mod fault;
pub mod float;
pub mod form;
pub mod known;
pub mod laws;
pub mod lexer;
pub mod list;
pub mod number;
pub mod prim;
pub mod print;
pub mod read;
pub mod roundtrip;
pub mod semantics;
pub mod text;
pub mod unit;
