//! Truth tables for propositional-logic expressions.
//!
//! An expression is lexed into a token stream ([`tokenizer`], [`grammar`]),
//! checked for balanced brackets ([`structure`]) and evaluated with an
//! operator-precedence machine ([`evaluator`], [`machine`]) that names every
//! sub-expression it resolves. Enumerating all assignments of the
//! identifiers ([`enumeration`]) yields the truth table
//! ([`evaluator_result`]). What holds of every evaluation and every table is
//! proved in [`laws`] and [`groups`]; the ordered maps that hold assignments
//! and rows come from the `indexmap` crate ([`ordered`]).

pub mod enumeration;
pub mod error;
pub mod evaluator;
pub mod evaluator_result;
pub mod grammar;
pub mod groups;
pub mod laws;
pub mod machine;
pub mod ordered;
pub mod strings;
pub mod structure;
pub mod tokenizer;
