//! Raw, unchecked input from the front end: a parsed grammar whose attributes
//! have not been validated and whose rule names have not been checked for
//! collisions. Consumed (moved) into the grammar builder exactly once.

use vstd::prelude::*;
use crate::source::{Ident, Span, SpannedIdent};
use crate::model::AttributeValue;
use crate::expression::Expression;

verus! {

/// One user-supplied annotation, not yet checked against any model: it may
/// name an unknown attribute, carry a value of the wrong shape, or repeat a
/// name already given in the same list.
#[derive(Clone, Copy, PartialEq, Eq, Structural, Debug)]
pub struct RawAttribute {
    pub name: Ident,
    pub value: AttributeValue,
    pub span: Span,
}

/// One parsed rule definition: its name with location, its raw attribute
/// list, and its exclusively-owned expression tree.
#[derive(PartialEq, Eq, Debug)]
pub struct RawRule {
    pub name: SpannedIdent,
    pub attributes: Vec<RawAttribute>,
    pub def: Box<Expression>,
}

/// A parsed grammar: its name, its rule definitions in source order, and its
/// grammar-level raw attribute list.
#[derive(PartialEq, Eq, Debug)]
pub struct RawGrammar {
    pub name: Ident,
    pub rules: Vec<RawRule>,
    pub attributes: Vec<RawAttribute>,
}

} // verus!
