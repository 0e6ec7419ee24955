//! A verified kernel for KLambda, the small Lisp underneath Shen: a reader,
//! symbol sanitisation, tail-call analysis, a value model with identity-bearing
//! vectors, the primitive library and a fuel-bounded evaluator.
pub mod text;
pub mod symbols;
pub mod token;
pub mod value;
pub mod prims;
pub mod runtime;
pub mod eval;
pub mod semantics;
pub mod reader;
pub mod printer;
