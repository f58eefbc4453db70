//! Diagnostics as values: every validation failure or warning is a collected
//! report carrying a severity, a message, and one or more labeled source
//! spans, never an exception or an abort.

use vstd::prelude::*;

verus! {

/// A half-open range of character offsets into the source text.
#[derive(Clone, Copy, Debug, PartialEq, Eq, Structural)]
pub struct Span {
    pub start: usize,
    pub end: usize,
}

impl Span {
    /// The span `start..end`.
    pub fn new(start: usize, end: usize) -> (r: Span)
        ensures
            r == (Span { start, end }),
    {
        Span { start, end }
    }
}

/// How bad a diagnostic is: errors suppress the machine-code output, warnings
/// do not.
#[derive(Clone, Copy, Debug, PartialEq, Eq, Structural)]
pub enum Severity {
    Error,
    Warning,
}

/// What kind of problem a diagnostic reports.
#[derive(Clone, Copy, Debug, PartialEq, Eq, Structural)]
pub enum DiagKind {
    /// A token the lexer rejected reached the encoder.
    UnrecognizedToken,
    /// A destination register is written while a conflicting dereferenced
    /// register is read.
    RegisterHazard,
    /// An operator was given the wrong number of operands.
    WrongArity,
    /// An immediate value was loaded into a register other than `A`.
    InvalidImmediateDestination,
    /// A name was declared twice.
    DuplicateDeclaration,
    /// A referenced name was never declared.
    UnresolvedIdentifier,
    /// A declared name was never referenced.
    UnusedDeclaration,
    /// No instruction form matches the tokens at this point.
    UnrecognizedShape,
}

/// The severity each kind of diagnostic carries: an unused declaration does
/// not corrupt the emitted program, everything else does.
pub open spec fn severity_of(kind: DiagKind) -> Severity {
    match kind {
        DiagKind::UnusedDeclaration => Severity::Warning,
        _ => Severity::Error,
    }
}

/// One collected report: a kind, its severity, a human-readable message, one
/// or more labeled source spans, and an optional remediation hint.
#[derive(Debug)]
pub struct Diagnostic {
    pub kind: DiagKind,
    pub severity: Severity,
    pub message: String,
    pub labels: Vec<(Span, String)>,
    pub help: Option<String>,
}

impl Diagnostic {
    /// The spans of this diagnostic's labels, in order.
    pub open spec fn label_spans(&self) -> Seq<Span> {
        self.labels@.map(|k: int, l: (Span, String)| l.0)
    }

    /// The shape of the diagnostic that contracts pin down: its kind and its
    /// labeled spans; the message wording is free.
    pub open spec fn model(&self) -> (DiagKind, Seq<Span>) {
        (self.kind, self.label_spans())
    }

    /// Every diagnostic carries the severity of its kind.
    pub open spec fn wf(&self) -> bool {
        self.severity == severity_of(self.kind)
    }

    /// Builds a diagnostic; the severity follows from the kind.
    pub fn build(kind: DiagKind, message: String, labels: Vec<(Span, String)>, help: Option<
        String,
    >) -> (r: Diagnostic)
        ensures
            r.kind == kind,
            r.labels == labels,
            r.wf(),
    {
        let severity = match kind {
            DiagKind::UnusedDeclaration => Severity::Warning,
            _ => Severity::Error,
        };
        Diagnostic { kind, severity, message, labels, help }
    }
}

/// The models of a sequence of diagnostics, in order.
pub open spec fn diags_view(ds: Seq<Diagnostic>) -> Seq<(DiagKind, Seq<Span>)> {
    ds.map(|k: int, d: Diagnostic| d.model())
}

} // verus!
