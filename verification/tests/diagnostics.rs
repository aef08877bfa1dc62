use tscc::diagnostics::{summary_line, underline_len, CompileError, DiagnosticBag, Severity};
use tscc::lexer::token::Span;

#[test]
fn error_display() {
    let e = CompileError::error("boom".to_string(), Span::new(0, 4, 2, 3));
    assert_eq!(e.to_display_string(), "error at line 2, column 3: boom");
    let w = CompileError::warning("careful".to_string(), Span::new(1, 2, 10, 1));
    assert_eq!(w.to_display_string(), "warning at line 10, column 1: careful");
}

#[test]
fn with_hint_keeps_the_rest() {
    let e = CompileError::error("boom".to_string(), Span::new(0, 4, 2, 3)).with_hint("try this".to_string());
    assert_eq!(e.hint.as_deref(), Some("try this"));
    assert_eq!(e.message, "boom");
    assert!(matches!(e.severity, Severity::Error));
    assert_eq!(e.span, Span::new(0, 4, 2, 3));
}

#[test]
fn bag_counts() {
    let mut bag = DiagnosticBag::new();
    assert!(!bag.has_errors());
    assert_eq!(bag.error_count(), 0);
    bag.add(CompileError::warning("w".to_string(), Span::new(0, 1, 1, 1)));
    assert!(!bag.has_errors());
    assert_eq!(bag.warning_count(), 1);
    bag.add(CompileError::error("e1".to_string(), Span::new(0, 1, 1, 1)));
    bag.add(CompileError::error("e2".to_string(), Span::new(0, 1, 1, 1)));
    assert!(bag.has_errors());
    assert_eq!(bag.error_count(), 2);
    assert_eq!(bag.warning_count(), 1);
}

#[test]
fn underline_width() {
    // Two characters wide
    assert_eq!(underline_len(&Span::new(4, 6, 1, 5), 20), 2);
    // Cut at the end of the line
    assert_eq!(underline_len(&Span::new(4, 30, 1, 5), 10), 6);
    // Never narrower than one column
    assert_eq!(underline_len(&Span::new(4, 4, 1, 5), 20), 1);
    assert_eq!(underline_len(&Span::new(4, 8, 1, 40), 10), 1);
}

#[test]
fn summary() {
    assert_eq!(summary_line(0, 0), None);
    assert_eq!(
        summary_line(1, 0).as_deref(),
        Some("\x1b[1;31m1 error\x1b[0m emitted")
    );
    assert_eq!(
        summary_line(2, 3).as_deref(),
        Some("\x1b[1;31m2 errors\x1b[0m, \x1b[1;33m3 warnings\x1b[0m emitted")
    );
    assert_eq!(
        summary_line(0, 1).as_deref(),
        Some("\x1b[1;33m1 warning\x1b[0m emitted")
    );
}
