//! Parts of the zin scripting language, verified: the hand-over from the
//! lexer to the grammar, the compiler of expressions and statements, the
//! machine that runs compiled code, and the strings, vectors, scopes,
//! constant pools, numbers, JSON and command line they work with.
use vstd::prelude::*;

pub mod ops;
pub mod stringify;
pub mod error;
pub mod executor;
pub mod number;
pub mod value;
pub mod function;
pub mod obj;
pub mod access;
pub mod json;
pub mod refrence;
pub mod cli;
pub mod machine;
pub mod token;
pub mod printing;
pub mod compile;
pub mod signed;

verus! {

/// The version of the language.
pub const VERSION: &'static str = "0.1.0";

} // verus!
