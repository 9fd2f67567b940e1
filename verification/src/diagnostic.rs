//! Diagnostics that the declarative region reports.
use crate::ast::{Designator, SrcPos};
use vstd::prelude::*;

verus! {

/// How serious a diagnostic is.
#[derive(Clone, Copy, Debug, PartialEq, Eq, Hash, Structural)]
pub enum Severity {
    Hint,
    Info,
    Warning,
    Error,
}

/// What a diagnostic says. Each variant stands for one message text; the
/// designator, where there is one, is the name quoted in it.
#[derive(Clone, Copy, Debug, PartialEq, Eq, Hash, Structural)]
pub enum Message {
    /// "Duplicate declaration of '{designator}'"
    DuplicateDeclaration(Designator),
    /// "Deferred constant '{designator}' lacks corresponding full constant
    /// declaration in package body"
    DeferredConstantWithoutFullDeclaration(Designator),
    /// "Deferred constants are only allowed in package declarations (not body)"
    DeferredConstantOutsidePackage,
    /// "Full declaration of deferred constant is only allowed in a package body"
    FullDeclarationOutsidePackageBody,
    /// "Missing body for protected type '{designator}'"
    MissingProtectedBody(Designator),
    /// "No declaration of '{designator}'"
    NoDeclaration(Designator),
    /// "Name '{designator}' is hidden by conflicting use clause"
    HiddenByUseClause(Designator),
}

/// A diagnostic at a source position, with at most one related position
/// ("Previously defined here").
#[derive(Clone, Copy, Debug, PartialEq, Eq, Hash, Structural)]
pub struct Diagnostic {
    pub pos: SrcPos,
    pub message: Message,
    pub severity: Severity,
    pub related: Option<SrcPos>,
}

/// The error diagnostic at `pos` with `message` and nothing related.
pub open spec fn error_diagnostic(pos: SrcPos, message: Message) -> Diagnostic {
    Diagnostic { pos, message, severity: Severity::Error, related: None }
}

impl Diagnostic {
    /// An error at `pos`.
    pub fn error(pos: &SrcPos, message: Message) -> (d: Diagnostic)
        ensures
            d == error_diagnostic(*pos, message),
    {
        Diagnostic { pos: *pos, message, severity: Severity::Error, related: None }
    }

    /// Points the diagnostic at a related earlier position.
    pub fn add_related(&mut self, pos: &SrcPos)
        ensures
            *final(self) == (Diagnostic { related: Some(*pos), ..*old(self) }),
    {
        self.related = Some(*pos);
    }
}

} // verus!
