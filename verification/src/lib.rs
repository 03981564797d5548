//! A matching engine for contract tests: an expected HTTP interaction is
//! compiled once into an executable plan (a small tree-structured program),
//! and the plan is then interpreted against any number of actual documents,
//! producing an annotated copy of the tree that records every outcome.

pub mod builders;
pub mod context;
pub mod foreign;
pub mod interpreter;
pub mod json;
pub mod laws;
pub mod matching;
pub mod path;
pub mod plan;
pub mod resolver;
pub mod rules;
pub mod strutil;
pub mod value;
pub mod xml;


use vstd::prelude::*;

verus! {

/// How far a traversal over an executed plan tree should descend.
#[derive(Copy, Clone, Debug, PartialEq, Eq)]
pub enum Terminator {
    /// No termination
    ALL,
    /// Terminate at containers
    CONTAINERS,
}

} // verus!
