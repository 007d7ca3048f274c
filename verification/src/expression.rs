//! Parsing-expression trees, as the front end builds them. The middle end
//! assumes they are structurally valid and carries each rule's tree over
//! unchanged; it never rewrites or re-validates them.

use vstd::prelude::*;
use crate::source::Ident;

verus! {

/// An inclusive range of characters inside a character class.
#[derive(Clone, Copy, PartialEq, Eq, Structural, Debug)]
pub struct CharacterInterval {
    pub lo: char,
    pub hi: char,
}

/// A parsing expression. Each variant exclusively owns its sub-expressions;
/// no sharing or cycles.
#[derive(PartialEq, Eq, Debug)]
pub enum Expression {
    /// Match this literal text.
    StrLiteral(String),
    /// Match any single character.
    AnySingleChar,
    /// Invoke another rule by name.
    NonTerminalSymbol(Ident),
    /// Match each sub-expression in order.
    Sequence(Vec<Expression>),
    /// Try each alternative in order, committing to the first that matches.
    Choice(Vec<Expression>),
    /// Match the sub-expression any number of times, greedily.
    ZeroOrMore(Box<Expression>),
    /// Match the sub-expression at least once, greedily.
    OneOrMore(Box<Expression>),
    /// Match the sub-expression or nothing.
    Optional(Box<Expression>),
    /// Succeed only where the sub-expression fails; consumes nothing.
    NotPredicate(Box<Expression>),
    /// Succeed only where the sub-expression matches; consumes nothing.
    AndPredicate(Box<Expression>),
    /// Match one character inside any of the intervals.
    CharacterClass(Vec<CharacterInterval>),
}

} // verus!
