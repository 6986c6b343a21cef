//! Deciding whether a constant that is used in a type can be evaluated, and
//! whether two such constants are the same.
//!
//! A generic constant is turned into a graph of symbolic operations
//! ([`builder`]); graphs are compared by structure, each under its own
//! substitution of generic parameters ([`unify`]); and a constant is accepted
//! where its graph is found in the graph of a constant that the environment
//! assumes to be evaluatable, or where it evaluates to a value
//! ([`evaluatable`]).
pub mod abstract_const;
pub mod builder;
pub mod context;
pub mod cycles;
pub mod evaluatable;
pub mod mir;
pub mod path;
pub mod reachability;
pub mod target;
pub mod ty;
pub mod unify;
pub mod walk;
