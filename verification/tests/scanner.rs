use tscc::lexer::scanner::Scanner;
use tscc::lexer::token::Token;

fn kinds(src: &str) -> Vec<String> {
    Scanner::new(src)
        .scan_tokens()
        .unwrap()
        .iter()
        .map(|t| format!("{:?}", t.token))
        .collect()
}

#[test]
fn scans_a_declaration() {
    assert_eq!(
        kinds("let x = 42;"),
        vec!["Let", "Identifier(\"x\")", "Assign", "Number(\"42\")", "Semicolon", "Eof"]
    );
}

#[test]
fn keywords_are_not_identifiers() {
    let toks = Scanner::new("async await throw try catch finally while").scan_tokens().unwrap();
    for t in &toks {
        assert!(!matches!(t.token, Token::Identifier(_)));
    }
    assert!(matches!(toks[0].token, Token::Async));
    assert!(matches!(toks[5].token, Token::Finally));
}

#[test]
fn numbers_keep_their_text() {
    let toks = Scanner::new("3.25 7").scan_tokens().unwrap();
    assert!(matches!(&toks[0].token, Token::Number(s) if s == "3.25"));
    assert!(matches!(&toks[1].token, Token::Number(s) if s == "7"));
}

#[test]
fn spans_count_lines_and_columns_from_one() {
    let toks = Scanner::new("a\n  bb").scan_tokens().unwrap();
    assert_eq!((toks[0].span.line, toks[0].span.column), (1, 1));
    assert_eq!((toks[1].span.line, toks[1].span.column), (2, 3));
    assert_eq!((toks[1].span.start, toks[1].span.end), (4, 6));
    // One end-of-input token, spanning the end of the source
    let last = toks.last().unwrap();
    assert!(matches!(last.token, Token::Eof));
    assert_eq!((last.span.start, last.span.end), (6, 6));
}

#[test]
fn comments_are_skipped() {
    assert_eq!(kinds("// c\n/* d */ x"), vec!["Identifier(\"x\")", "Eof"]);
}

#[test]
fn scanning_errors() {
    let e = Scanner::new("\"open").scan_tokens().unwrap_err();
    assert_eq!(e.message, "Unterminated string literal");
    let e = Scanner::new("/* never closed").scan_tokens().unwrap_err();
    assert_eq!(e.message, "Unterminated block comment");
    let e = Scanner::new("a @ b").scan_tokens().unwrap_err();
    assert_eq!(e.message, "Unexpected character '@'");
    assert_eq!(e.span.column, 3);
}

#[test]
fn identifiers_take_unicode_letters_and_digits() {
    let toks = Scanner::new("é1² _x$").scan_tokens().unwrap();
    assert!(matches!(&toks[0].token, Token::Identifier(s) if s == "é1²"));
    assert!(matches!(&toks[1].token, Token::Identifier(s) if s == "_x$"));
    let e = Scanner::new("a ¢").scan_tokens().unwrap_err();
    assert_eq!(e.message, "Unexpected character '¢'");
}

#[test]
fn template_without_expressions_is_one_string() {
    let toks = Scanner::new("`a\\tb`").scan_tokens().unwrap();
    assert_eq!(toks.len(), 2);
    assert!(matches!(&toks[0].token, Token::String(s) if s == "a\tb"));
    assert_eq!((toks[0].span.start, toks[0].span.end), (0, 1));
    assert_eq!((toks[1].span.start, toks[1].span.end), (6, 6));
}

#[test]
fn template_with_expressions_becomes_a_concatenation() {
    assert_eq!(
        kinds("`x${1+2}y`"),
        vec![
            "LeftParen",
            "String(\"x\")",
            "Plus",
            "LeftParen",
            "Number(\"1\")",
            "Plus",
            "Number(\"2\")",
            "RightParen",
            "Plus",
            "String(\"y\")",
            "RightParen",
            "Eof"
        ]
    );
    // Every token of the template carries the span of its backtick.
    let toks = Scanner::new("  `x${a}`").scan_tokens().unwrap();
    for t in &toks[..toks.len() - 1] {
        assert_eq!((t.span.start, t.span.end, t.span.line, t.span.column), (2, 3, 1, 3));
    }
}

#[test]
fn template_made_of_expressions_starts_with_an_empty_string() {
    assert_eq!(
        kinds("`${a}`"),
        vec![
            "LeftParen",
            "String(\"\")",
            "Plus",
            "LeftParen",
            "Identifier(\"a\")",
            "RightParen",
            "RightParen",
            "Eof"
        ]
    );
}

#[test]
fn template_expressions_may_hold_braces_and_strings() {
    assert_eq!(
        kinds("`${ {} }${'}'}`"),
        vec![
            "LeftParen",
            "String(\"\")",
            "Plus",
            "LeftParen",
            "LeftBrace",
            "RightBrace",
            "RightParen",
            "Plus",
            "LeftParen",
            "String(\"}\")",
            "RightParen",
            "RightParen",
            "Eof"
        ]
    );
}

#[test]
fn unterminated_templates() {
    let e = Scanner::new("`abc").scan_tokens().unwrap_err();
    assert_eq!(e.message, "Unterminated template literal");
    assert_eq!((e.span.start, e.span.end), (0, 4));
    let e = Scanner::new("`a${b").scan_tokens().unwrap_err();
    assert_eq!(e.message, "Unterminated template expression");
    // An error inside an embedded expression is reported as that expression's scan reports it.
    let e = Scanner::new("`${@}`").scan_tokens().unwrap_err();
    assert_eq!(e.message, "Unexpected character '@'");
    assert_eq!((e.span.start, e.span.end, e.span.line, e.span.column), (0, 1, 1, 1));
}

#[test]
fn block_comments_nest() {
    assert_eq!(kinds("/* a /* b */ c */ x"), vec!["Identifier(\"x\")", "Eof"]);
    let e = Scanner::new("/* a /* b */ c").scan_tokens().unwrap_err();
    assert_eq!(e.message, "Unterminated block comment");
}

#[test]
fn strings_read_escapes_and_count_their_newlines() {
    let toks = Scanner::new("'a\\'\\n\\q' \"b\nc\" d").scan_tokens().unwrap();
    assert!(matches!(&toks[0].token, Token::String(s) if s == "a'\n\\q"));
    assert!(matches!(&toks[1].token, Token::String(s) if s == "b\nc"));
    // The string's span starts where it starts and carries the line it ends on.
    assert_eq!((toks[1].span.start, toks[1].span.end, toks[1].span.line, toks[1].span.column), (10, 15, 2, 11));
    assert_eq!((toks[2].span.start, toks[2].span.line, toks[2].span.column), (16, 2, 5));
}

#[test]
fn operators_take_the_longest_match() {
    assert_eq!(
        kinds("a===b!==c=>d**e??f?.g...h%=i"),
        vec![
            "Identifier(\"a\")",
            "EqualEqualEqual",
            "Identifier(\"b\")",
            "BangEqualEqual",
            "Identifier(\"c\")",
            "Arrow",
            "Identifier(\"d\")",
            "StarStar",
            "Identifier(\"e\")",
            "QuestionQuestion",
            "Identifier(\"f\")",
            "QuestionDot",
            "Identifier(\"g\")",
            "Ellipsis",
            "Identifier(\"h\")",
            "PercentEqual",
            "Identifier(\"i\")",
            "Eof"
        ]
    );
    assert_eq!(kinds(".. ."), vec!["Dot", "Dot", "Dot", "Eof"]);
}
