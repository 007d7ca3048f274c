//! Middle end of a parsing-expression-grammar compiler: semantic validation
//! and model construction. Given a syntactically parsed grammar (a name, an
//! ordered list of rule definitions, and raw attribute lists), it validates
//! the attributes against a declarative per-scope schema, detects duplicate
//! rule names without aborting early, and assembles a validated `Grammar`
//! model, or reports failure after emitting every diagnostic the pass found.

pub mod source;
pub mod diagnostics;
pub mod model;
pub mod expression;
pub mod raw;
pub mod checker;
pub mod grammar;
