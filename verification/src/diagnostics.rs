//! The diagnostic sink: the reporting capability handed to the attribute
//! checker and the grammar builder. It records every reported defect in
//! emission order; the caller decides afterwards what the accumulated
//! diagnostics mean for the build as a whole.

use vstd::prelude::*;
use crate::source::Span;

verus! {

/// Severity of a diagnostic: a defect, or context attached to one.
#[derive(Clone, Copy, PartialEq, Eq, Structural, Debug)]
pub enum Level {
    Error,
    Note,
}

/// The defect (or contextual remark) a diagnostic reports.
#[derive(Clone, Copy, PartialEq, Eq, Structural, Debug)]
pub enum DiagnosticKind {
    /// An attribute name the scope's model does not declare.
    UnknownAttribute,
    /// An attribute name supplied twice in one attribute list.
    DuplicateAttribute,
    /// A recognized attribute whose value has the wrong shape.
    MalformedAttributeValue,
    /// A rule name colliding with an already-inserted rule.
    DuplicateRule,
    /// Context for a duplicate rule: where the original was declared.
    PreviousRuleDeclaration,
}

/// One reported diagnostic: severity, location, and what went wrong.
#[derive(Clone, Copy, PartialEq, Eq, Structural, Debug)]
pub struct Diagnostic {
    pub level: Level,
    pub span: Span,
    pub kind: DiagnosticKind,
}

/// The diagnostic an error report produces.
pub open spec fn error_at(span: Span, kind: DiagnosticKind) -> Diagnostic {
    Diagnostic { level: Level::Error, span, kind }
}

/// The diagnostic a contextual note produces.
pub open spec fn note_at(span: Span, kind: DiagnosticKind) -> Diagnostic {
    Diagnostic { level: Level::Note, span, kind }
}

impl DiagnosticKind {
    /// The human-readable message rendered for this kind of defect.
    pub fn message(&self) -> (r: &'static str)
        ensures
            r@ == match *self {
                DiagnosticKind::UnknownAttribute => "Unknown attribute."@,
                DiagnosticKind::DuplicateAttribute => "Duplicate attribute."@,
                DiagnosticKind::MalformedAttributeValue => "Malformed attribute value."@,
                DiagnosticKind::DuplicateRule => "Duplicate rule definition."@,
                DiagnosticKind::PreviousRuleDeclaration => "Previous declaration here."@,
            },
    {
        match self {
            DiagnosticKind::UnknownAttribute => "Unknown attribute.",
            DiagnosticKind::DuplicateAttribute => "Duplicate attribute.",
            DiagnosticKind::MalformedAttributeValue => "Malformed attribute value.",
            DiagnosticKind::DuplicateRule => "Duplicate rule definition.",
            DiagnosticKind::PreviousRuleDeclaration => "Previous declaration here.",
        }
    }
}

/// Collects diagnostics in emission order. Injected into the checker and the
/// builder rather than kept as ambient state, so each validation pass can be
/// observed in isolation.
pub struct DiagnosticSink {
    entries: Vec<Diagnostic>,
}

impl View for DiagnosticSink {
    type V = Seq<Diagnostic>;

    closed spec fn view(&self) -> Seq<Diagnostic> {
        self.entries@
    }
}

impl DiagnosticSink {
    /// A sink with nothing reported yet.
    pub fn new() -> (s: Self)
        ensures
            s@ == Seq::<Diagnostic>::empty(),
    {
        DiagnosticSink { entries: Vec::new() }
    }

    /// Report an error at a location.
    pub fn span_err(&mut self, span: Span, kind: DiagnosticKind)
        ensures
            final(self)@ == old(self)@.push(error_at(span, kind)),
    {
        self.entries.push(Diagnostic { level: Level::Error, span, kind });
    }

    /// Attach a contextual note at a location.
    pub fn span_note(&mut self, span: Span, kind: DiagnosticKind)
        ensures
            final(self)@ == old(self)@.push(note_at(span, kind)),
    {
        self.entries.push(Diagnostic { level: Level::Note, span, kind });
    }

    /// How many diagnostics have been reported.
    pub fn len(&self) -> (n: usize)
        ensures
            n == self@.len(),
    {
        self.entries.len()
    }

    /// The diagnostic reported at position `i`, in emission order.
    pub fn get(&self, i: usize) -> (d: Diagnostic)
        requires
            i < self@.len(),
        ensures
            d == self@[i as int],
    {
        self.entries[i]
    }
}

} // verus!
