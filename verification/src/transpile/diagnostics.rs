//! Diagnostics gathered while transpiling: severity, message and where.
use crate::text::{chars_of, push_u64};
use vstd::prelude::*;

verus! {

broadcast use vstd::string::group_string_axioms;

/// How serious a diagnostic is.
#[derive(Debug, Clone, Copy, PartialEq, Eq, Structural)]
pub enum Severity {
    Error,
    Warning,
    Note,
}

/// The label of a severity.
pub open spec fn severity_label(s: Severity) -> Seq<char> {
    match s {
        Severity::Error => "error"@,
        Severity::Warning => "warning"@,
        Severity::Note => "note"@,
    }
}

impl Severity {
    /// The severity as printed.
    pub fn as_str(&self) -> (r: &'static str)
        ensures
            r@ == severity_label(*self),
    {
        match self {
            Severity::Error => "error",
            Severity::Warning => "warning",
            Severity::Note => "note",
        }
    }
}

/// A range of instruction indices, optionally in a named source.
#[derive(Debug, Clone)]
pub struct Span {
    pub start: usize,
    pub end: usize,
    pub source_id: Option<String>,
}

impl Span {
    /// The range `start..end` with no source.
    pub fn new(start: usize, end: usize) -> (r: Span)
        ensures
            r.start == start,
            r.end == end,
            r.source_id is None,
    {
        Span { start, end, source_id: None }
    }

    /// This range in the source `source_id`.
    pub fn with_source(self, source_id: String) -> (r: Span)
        ensures
            r.start == self.start,
            r.end == self.end,
            r.source_id == Some(source_id),
    {
        Span { start: self.start, end: self.end, source_id: Some(source_id) }
    }

    /// The range as printed: `source:start-end`, or `start-end`.
    pub fn render(&self) -> (r: String)
        ensures
            r@ == (match self.source_id {
                Some(id) => id@ + ":"@ + crate::text::dec_nat(self.start as nat) + "-"@
                    + crate::text::dec_nat(self.end as nat),
                None => crate::text::dec_nat(self.start as nat) + "-"@ + crate::text::dec_nat(
                    self.end as nat,
                ),
            }),
    {
        let mut s = String::new();
        match &self.source_id {
            Some(id) => {
                crate::text::push_str(&mut s, id.as_str());
                crate::text::push_str(&mut s, ":");
            },
            None => {},
        }
        push_u64(&mut s, self.start as u64);
        crate::text::push_str(&mut s, "-");
        push_u64(&mut s, self.end as u64);
        s
    }
}

/// One diagnostic.
#[derive(Debug, Clone)]
pub struct Diagnostic {
    pub severity: Severity,
    pub message: String,
    pub span: Option<Span>,
}

impl Diagnostic {
    /// An error without a span.
    pub fn error(message: String) -> (r: Diagnostic)
        ensures
            r.severity == Severity::Error,
            r.message == message,
            r.span is None,
    {
        Diagnostic { severity: Severity::Error, message, span: None }
    }

    /// An error at `span`.
    pub fn error_at(span: Span, message: String) -> (r: Diagnostic)
        ensures
            r.severity == Severity::Error,
            r.message == message,
            r.span == Some(span),
    {
        Diagnostic { severity: Severity::Error, message, span: Some(span) }
    }

    /// A warning without a span.
    pub fn warning(message: String) -> (r: Diagnostic)
        ensures
            r.severity == Severity::Warning,
            r.message == message,
            r.span is None,
    {
        Diagnostic { severity: Severity::Warning, message, span: None }
    }

    /// A warning at `span`.
    pub fn warning_at(span: Span, message: String) -> (r: Diagnostic)
        ensures
            r.severity == Severity::Warning,
            r.message == message,
            r.span == Some(span),
    {
        Diagnostic { severity: Severity::Warning, message, span: Some(span) }
    }

    /// A note without a span.
    pub fn note(message: String) -> (r: Diagnostic)
        ensures
            r.severity == Severity::Note,
            r.message == message,
            r.span is None,
    {
        Diagnostic { severity: Severity::Note, message, span: None }
    }

    /// A note at `span`.
    pub fn note_at(span: Span, message: String) -> (r: Diagnostic)
        ensures
            r.severity == Severity::Note,
            r.message == message,
            r.span == Some(span),
    {
        Diagnostic { severity: Severity::Note, message, span: Some(span) }
    }

    /// The diagnostic as printed: `[span] severity: message`, or
    /// `severity: message` without a span.
    pub fn render(&self) -> (r: String)
        ensures
            r@.len() > 0,
    {
        let mut s = String::new();
        match &self.span {
            Some(span) => {
                crate::text::push_str(&mut s, "[");
                let sp = span.render();
                crate::text::push_str(&mut s, sp.as_str());
                crate::text::push_str(&mut s, "] ");
            },
            None => {},
        }
        crate::text::push_str(&mut s, self.severity.as_str());
        crate::text::push_str(&mut s, ": ");
        crate::text::push_str(&mut s, self.message.as_str());
        proof {
            reveal_strlit(": ");
        }
        s
    }
}

/// The diagnostics of one run, in the order they were raised.
#[derive(Debug)]
pub struct Diagnostics {
    pub diagnostics: Vec<Diagnostic>,
}

/// Whether some diagnostic of `d` is an error.
pub open spec fn any_error(d: Seq<Diagnostic>) -> bool {
    exists|i: int| 0 <= i < d.len() && d[i].severity == Severity::Error
}

impl Diagnostics {
    /// No diagnostics.
    pub fn new() -> (r: Diagnostics)
        ensures
            r.diagnostics@ == Seq::<Diagnostic>::empty(),
    {
        Diagnostics { diagnostics: Vec::new() }
    }

    /// Adds `diag` at the end.
    pub fn push(&mut self, diag: Diagnostic)
        ensures
            final(self).diagnostics@ == old(self).diagnostics@.push(diag),
    {
        self.diagnostics.push(diag);
    }

    /// Adds an error.
    pub fn error(&mut self, msg: String)
        ensures
            final(self).diagnostics@ == old(self).diagnostics@.push(
                Diagnostic { severity: Severity::Error, message: msg, span: None },
            ),
    {
        self.push(Diagnostic::error(msg));
    }

    /// Adds an error at `span`.
    pub fn error_at(&mut self, span: Span, msg: String)
        ensures
            final(self).diagnostics@ == old(self).diagnostics@.push(
                Diagnostic { severity: Severity::Error, message: msg, span: Some(span) },
            ),
    {
        self.push(Diagnostic::error_at(span, msg));
    }

    /// Adds a warning.
    pub fn warning(&mut self, msg: String)
        ensures
            final(self).diagnostics@ == old(self).diagnostics@.push(
                Diagnostic { severity: Severity::Warning, message: msg, span: None },
            ),
    {
        self.push(Diagnostic::warning(msg));
    }

    /// Adds a warning at `span`.
    pub fn warning_at(&mut self, span: Span, msg: String)
        ensures
            final(self).diagnostics@ == old(self).diagnostics@.push(
                Diagnostic { severity: Severity::Warning, message: msg, span: Some(span) },
            ),
    {
        self.push(Diagnostic::warning_at(span, msg));
    }

    /// Adds a note.
    pub fn note(&mut self, msg: String)
        ensures
            final(self).diagnostics@ == old(self).diagnostics@.push(
                Diagnostic { severity: Severity::Note, message: msg, span: None },
            ),
    {
        self.push(Diagnostic::note(msg));
    }

    /// Adds a note at `span`.
    pub fn note_at(&mut self, span: Span, msg: String)
        ensures
            final(self).diagnostics@ == old(self).diagnostics@.push(
                Diagnostic { severity: Severity::Note, message: msg, span: Some(span) },
            ),
    {
        self.push(Diagnostic::note_at(span, msg));
    }

    /// Whether any diagnostic is an error.
    pub fn has_errors(&self) -> (r: bool)
        ensures
            r == any_error(self.diagnostics@),
    {
        let mut i: usize = 0;
        while i < self.diagnostics.len()
            invariant
                i <= self.diagnostics@.len(),
                forall|j: int| 0 <= j < i ==> self.diagnostics@[j].severity != Severity::Error,
            decreases self.diagnostics@.len() - i,
        {
            if self.diagnostics[i].severity == Severity::Error {
                return true;
            }
            i = i + 1;
        }
        false
    }

    /// The diagnostics, in order.
    pub fn diagnostics(self) -> (r: Vec<Diagnostic>)
        ensures
            r@ == self.diagnostics@,
    {
        self.diagnostics
    }
}

} // verus!
