//! Source locations and interned identifiers, as the front end hands them in.

use vstd::prelude::*;

verus! {

/// An identifier, interned by the front end as an index into its symbol table.
/// Two identifiers denote the same name exactly when the indices are equal.
pub type Ident = u64;

/// A region of the source text, kept so diagnostics can point at the
/// offending construct. Byte offsets of its first and one-past-last position.
#[derive(Clone, Copy, PartialEq, Eq, Structural, Debug)]
pub struct Span {
    pub lo: usize,
    pub hi: usize,
}

/// An identifier together with the location where it was written.
#[derive(Clone, Copy, PartialEq, Eq, Structural, Debug)]
pub struct SpannedIdent {
    pub node: Ident,
    pub span: Span,
}

} // verus!
