//! Compiler diagnostics.
use vstd::prelude::*;

use crate::lexer::token::Span;
use crate::text::{append_decimal, decimal, push_char, string_of};

verus! {

#[derive(Debug, Clone, Copy, PartialEq, Eq, Structural)]
pub enum Severity {
    Error,
    Warning,
    Hint,
}

#[derive(Debug, Clone)]
pub struct CompileError {
    pub message: String,
    pub span: Span,
    pub severity: Severity,
    pub hint: Option<String>,
}

impl CompileError {
    pub fn error(message: String, span: Span) -> (r: Self)
        ensures
            r.message == message,
            r.span == span,
            r.severity == Severity::Error,
            r.hint is None,
    {
        Self { message, span, severity: Severity::Error, hint: None }
    }

    pub fn warning(message: String, span: Span) -> (r: Self)
        ensures
            r.message == message,
            r.span == span,
            r.severity == Severity::Warning,
            r.hint is None,
    {
        Self { message, span, severity: Severity::Warning, hint: None }
    }

    pub fn with_hint(self, hint: String) -> (r: Self)
        ensures
            r.message == self.message,
            r.span == self.span,
            r.severity == self.severity,
            r.hint == Some(hint),
    {
        let mut e = self;
        e.hint = Some(hint);
        e
    }

    /// `label at line L, column C: message`, where the label names the severity.
    pub fn to_display_string(&self) -> (r: String)
        ensures
            r@ == display_text(*self),
    {
        let mut s = string_of(severity_label_str(self.severity));
        s.append(" at line ");
        append_decimal(&mut s, self.span.line);
        s.append(", column ");
        append_decimal(&mut s, self.span.column);
        s.append(": ");
        s.append(self.message.as_str());
        s
    }
}

/// The word that names a severity.
pub open spec fn severity_label(s: Severity) -> Seq<char> {
    match s {
        Severity::Error => "error"@,
        Severity::Warning => "warning"@,
        Severity::Hint => "hint"@,
    }
}

fn severity_label_str(s: Severity) -> (r: &'static str)
    ensures
        r@ == severity_label(s),
{
    match s {
        Severity::Error => "error",
        Severity::Warning => "warning",
        Severity::Hint => "hint",
    }
}

/// The one-line rendering of a diagnostic.
pub open spec fn display_text(e: CompileError) -> Seq<char> {
    severity_label(e.severity) + " at line "@ + decimal(e.span.line as nat) + ", column "@
        + decimal(e.span.column as nat) + ": "@ + e.message@
}

/// Number of diagnostics of severity `sev` in `s`.
pub open spec fn count_severity(s: Seq<CompileError>, sev: Severity) -> nat
    decreases s.len(),
{
    if s.len() == 0 {
        0
    } else {
        count_severity(s.drop_last(), sev) + if s.last().severity == sev { 1nat } else { 0nat }
    }
}

/// Accumulates multiple diagnostics instead of stopping at the first error.
pub struct DiagnosticBag {
    pub errors: Vec<CompileError>,
}

impl DiagnosticBag {
    pub fn new() -> (r: Self)
        ensures
            r.errors@ == Seq::<CompileError>::empty(),
    {
        Self { errors: Vec::new() }
    }

    pub fn add(&mut self, error: CompileError)
        ensures
            final(self).errors@ == old(self).errors@.push(error),
    {
        self.errors.push(error);
    }

    pub fn has_errors(&self) -> (r: bool)
        ensures
            r == (count_severity(self.errors@, Severity::Error) > 0),
    {
        self.error_count() > 0
    }

    pub fn error_count(&self) -> (r: usize)
        ensures
            r == count_severity(self.errors@, Severity::Error),
    {
        self.count_of(Severity::Error)
    }

    pub fn warning_count(&self) -> (r: usize)
        ensures
            r == count_severity(self.errors@, Severity::Warning),
    {
        self.count_of(Severity::Warning)
    }

    fn count_of(&self, sev: Severity) -> (r: usize)
        ensures
            r == count_severity(self.errors@, sev),
    {
        let mut n: usize = 0;
        let mut i: usize = 0;
        while i < self.errors.len()
            invariant
                i <= self.errors@.len(),
                n == count_severity(self.errors@.take(i as int), sev),
                n <= i,
            decreases self.errors@.len() - i,
        {
            assert(self.errors@.take(i + 1).drop_last() =~= self.errors@.take(i as int));
            if self.errors[i].severity == sev {
                n = n + 1;
            }
            i = i + 1;
        }
        assert(self.errors@.take(i as int) =~= self.errors@);
        n
    }
}

/// Every diagnostic counts towards at most one severity, so the error and
/// warning counts never exceed the number of diagnostics.
pub proof fn law_counts_partition(s: Seq<CompileError>)
    ensures
        count_severity(s, Severity::Error) + count_severity(s, Severity::Warning)
            + count_severity(s, Severity::Hint) == s.len(),
    decreases s.len(),
{
    if s.len() > 0 {
        law_counts_partition(s.drop_last());
    }
}

/// Adding a diagnostic raises the count of its own severity by one and leaves
/// the other counts unchanged.
pub proof fn law_count_after_add(s: Seq<CompileError>, e: CompileError, sev: Severity)
    ensures
        count_severity(s.push(e), sev) == count_severity(s, sev) + if e.severity == sev {
            1nat
        } else {
            0nat
        },
{
    assert(s.push(e).drop_last() =~= s);
}

/// Width of the caret underline drawn under a diagnostic: the span's length,
/// cut at the end of the source line, and at least one column.
pub open spec fn underline_width(span: Span, line_len: nat) -> nat {
    let col: nat = if span.column >= 1 { (span.column - 1) as nat } else { 0 };
    let room: nat = if line_len >= col { (line_len - col) as nat } else { 0 };
    let w: nat = if span.end > span.start {
        let len = (span.end - span.start) as nat;
        if len < room { len } else { room }
    } else {
        1
    };
    if w >= 1 { w } else { 1 }
}

/// Executable form of `underline_width` for a source line of `line_len` bytes.
pub fn underline_len(span: &Span, line_len: usize) -> (r: usize)
    ensures
        r == underline_width(*span, line_len as nat),
{
    let col = if span.column >= 1 { span.column - 1 } else { 0 };
    let room = if line_len >= col { line_len - col } else { 0 };
    let w = if span.end > span.start {
        let len = span.end - span.start;
        if len < room { len } else { room }
    } else {
        1
    };
    if w >= 1 { w } else { 1 }
}

/// The closing summary line: `N error(s), M warning(s) emitted`, colored,
/// leaving out a zero count; no line when both counts are zero.
pub open spec fn summary_text(errors: nat, warnings: nat) -> Option<Seq<char>> {
    let e = "\x1b[1;31m"@ + decimal(errors) + " error"@ + (if errors == 1 { ""@ } else { "s"@ })
        + "\x1b[0m"@;
    let w = "\x1b[1;33m"@ + decimal(warnings) + " warning"@ + (if warnings == 1 {
        ""@
    } else {
        "s"@
    }) + "\x1b[0m"@;
    if errors > 0 && warnings > 0 {
        Some(e + ", "@ + w + " emitted"@)
    } else if errors > 0 {
        Some(e + " emitted"@)
    } else if warnings > 0 {
        Some(w + " emitted"@)
    } else {
        None
    }
}

/// Executable form of `summary_text`.
pub fn summary_line(errors: usize, warnings: usize) -> (r: Option<String>)
    ensures
        match r {
            Some(s) => summary_text(errors as nat, warnings as nat) == Some(s@),
            None => summary_text(errors as nat, warnings as nat) is None,
        },
{
    if errors == 0 && warnings == 0 {
        return None;
    }
    let mut s = String::new();
    if errors > 0 {
        s.append("\x1b[1;31m");
        append_decimal(&mut s, errors);
        s.append(" error");
        if errors != 1 {
            push_char(&mut s, 's');
        }
        s.append("\x1b[0m");
        if warnings > 0 {
            s.append(", ");
        }
    }
    if warnings > 0 {
        s.append("\x1b[1;33m");
        append_decimal(&mut s, warnings);
        s.append(" warning");
        if warnings != 1 {
            push_char(&mut s, 's');
        }
        s.append("\x1b[0m");
    }
    s.append(" emitted");
    proof {
        reveal_strlit("\x1b[1;31m");
        reveal_strlit("\x1b[1;33m");
        reveal_strlit(" error");
        reveal_strlit(" warning");
        reveal_strlit("s");
        reveal_strlit("");
        reveal_strlit("\x1b[0m");
        reveal_strlit(", ");
        reveal_strlit(" emitted");
        let t = summary_text(errors as nat, warnings as nat).unwrap();
        assert(s@ =~= t);
    }
    Some(s)
}

} // verus!
