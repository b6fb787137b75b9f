//! Diagnostics reported by validation and electrical-rule checks.

use crate::text::{decimal, push_decimal, push_str, seq_to_string, str_to_chars};
use vstd::prelude::*;

verus! {

/// How serious a diagnostic is.
#[derive(Debug, Clone, Copy, PartialEq, Eq, Structural)]
pub enum Severity {
    Warning,
    Error,
}

/// What kind of problem a diagnostic describes.
#[derive(Debug, Clone, PartialEq, Eq)]
pub enum DiagnosticKind {
    Generic,
    Validation,
    Expecting { expected: String },
    Unexpected { found: String },
}

/// A byte range of the source text: start inclusive, end exclusive.
#[derive(Debug, Clone, Copy, PartialEq, Eq, Structural)]
pub struct SourceSpan {
    pub start: usize,
    pub end: usize,
}

/// A diagnostic: severity, rule code, kind, message and where it applies (file path,
/// byte span, line and column).
#[derive(Debug, Clone, PartialEq, Eq)]
pub struct Diagnostic {
    pub severity: Severity,
    pub code: &'static str,
    pub kind: DiagnosticKind,
    pub message: String,
    pub path: Option<String>,
    pub span: Option<SourceSpan>,
    pub line: Option<usize>,
    pub column: Option<usize>,
}

/// A diagnostic of the given severity, code, kind and message, not yet placed.
pub open spec fn unplaced(d: Diagnostic, severity: Severity, code: &'static str, kind: DiagnosticKind, message: Seq<char>) -> bool {
    &&& d.severity == severity
    &&& d.code == code
    &&& d.kind == kind
    &&& d.message@ == message
    &&& d.path is None
    &&& d.span is None
    &&& d.line is None
    &&& d.column is None
}

/// The location suffix of a rendered diagnostic: `:line:column` where both are known,
/// else `:start..end` where only the span is known, else nothing.
pub open spec fn span_suffix(line: Option<usize>, column: Option<usize>, span: Option<SourceSpan>) -> Seq<char> {
    match (line, column, span) {
        (Some(l), Some(c), _) => seq![':'] + decimal(l as nat) + seq![':'] + decimal(c as nat),
        (None, None, Some(s)) => seq![':'] + decimal(s.start as nat) + seq!['.', '.'] + decimal(s.end as nat),
        _ => Seq::empty(),
    }
}

impl Diagnostic {
    /// A generic error.
    pub fn error(code: &'static str, message: String) -> (r: Self)
        ensures
            unplaced(r, Severity::Error, code, DiagnosticKind::Generic, message@),
    {
        Diagnostic {
            severity: Severity::Error,
            code,
            kind: DiagnosticKind::Generic,
            message,
            path: None,
            span: None,
            line: None,
            column: None,
        }
    }

    /// A validation error.
    pub fn validation(code: &'static str, message: String) -> (r: Self)
        ensures
            unplaced(r, Severity::Error, code, DiagnosticKind::Validation, message@),
    {
        Diagnostic {
            severity: Severity::Error,
            code,
            kind: DiagnosticKind::Validation,
            message,
            path: None,
            span: None,
            line: None,
            column: None,
        }
    }

    /// An error for a missing expected token; the message reads `expecting <expected>`.
    pub fn expecting(code: &'static str, expected: String) -> (r: Self)
        ensures
            r.kind matches DiagnosticKind::Expecting { expected: e } && e@ == expected@,
            unplaced(r, Severity::Error, code, r.kind, "expecting "@ + expected@),
    {
        let mut m: Vec<char> = Vec::new();
        push_str(&mut m, "expecting ");
        push_str(&mut m, expected.as_str());
        let message = seq_to_string(&m);
        let kept = expected.clone();
        Diagnostic {
            severity: Severity::Error,
            code,
            kind: DiagnosticKind::Expecting { expected: kept },
            message,
            path: None,
            span: None,
            line: None,
            column: None,
        }
    }

    /// An error for an unexpected token; the message reads `unexpected <found>`.
    pub fn unexpected(code: &'static str, found: String) -> (r: Self)
        ensures
            r.kind matches DiagnosticKind::Unexpected { found: f } && f@ == found@,
            unplaced(r, Severity::Error, code, r.kind, "unexpected "@ + found@),
    {
        let mut m: Vec<char> = Vec::new();
        push_str(&mut m, "unexpected ");
        push_str(&mut m, found.as_str());
        let message = seq_to_string(&m);
        let kept = found.clone();
        Diagnostic {
            severity: Severity::Error,
            code,
            kind: DiagnosticKind::Unexpected { found: kept },
            message,
            path: None,
            span: None,
            line: None,
            column: None,
        }
    }

    /// The same diagnostic, placed in a file.
    pub fn with_path(self, path: String) -> (r: Self)
        ensures
            r == (Diagnostic { path: Some(path), ..self }),
    {
        let mut d = self;
        d.path = Some(path);
        d
    }

    /// The same diagnostic, placed at a byte span.
    pub fn with_span(self, span: SourceSpan) -> (r: Self)
        ensures
            r == (Diagnostic { span: Some(span), ..self }),
    {
        let mut d = self;
        d.span = Some(span);
        d
    }

    /// The same diagnostic, placed at a line and column.
    pub fn with_position(self, line: usize, column: usize) -> (r: Self)
        ensures
            r == (Diagnostic { line: Some(line), column: Some(column), ..self }),
    {
        let mut d = self;
        d.line = Some(line);
        d.column = Some(column);
        d
    }

    /// The location suffix of the rendered diagnostic.
    pub fn display_span_suffix(&self) -> (r: String)
        ensures
            r@ == span_suffix(self.line, self.column, self.span),
    {
        let mut v: Vec<char> = Vec::new();
        match (self.line, self.column, self.span) {
            (Some(line), Some(column), _) => {
                v.push(':');
                push_decimal(&mut v, line as u64);
                v.push(':');
                push_decimal(&mut v, column as u64);
                assert(v@ =~= seq![':'] + decimal(line as nat) + seq![':'] + decimal(column as nat));
            },
            (None, None, Some(span)) => {
                v.push(':');
                push_decimal(&mut v, span.start as u64);
                v.push('.');
                v.push('.');
                push_decimal(&mut v, span.end as u64);
                assert(v@ =~= seq![':'] + decimal(span.start as nat) + seq!['.', '.'] + decimal(span.end as nat));
            },
            _ => {
                assert(v@ =~= Seq::<char>::empty());
            },
        }
        seq_to_string(&v)
    }
}

} // verus!
