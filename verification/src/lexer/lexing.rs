//! What scanning a source text yields, stated over its characters.
//!
//! `lex` describes the whole result: the tokens with their spans, ending in
//! `Eof`, or the first error. Positions count characters from zero; lines and
//! columns count from one, as the scanner tracks them.
use vstd::prelude::*;

use crate::diagnostics::CompileError;
use crate::lexer::scanner::{is_ascii_digit, is_ident_continue, is_ident_start, keyword_token};
use crate::lexer::token::{SpannedToken, Token};

verus! {

/// A token as the specification describes it: its kind (`Token::kind`), the
/// text it carries (`Token::payload`) and its span.
pub struct Lexeme {
    pub kind: nat,
    pub text: Seq<char>,
    pub start: int,
    pub end: int,
    pub line: int,
    pub column: int,
}

/// A scanning error as the specification describes it: its message and span.
pub struct LexError {
    pub message: Seq<char>,
    pub start: int,
    pub end: int,
    pub line: int,
    pub column: int,
}

/// What one scanning step yields: the tokens it emits and the position, line
/// and column it stops at; or an error.
pub type Step = Result<(Seq<Lexeme>, int, int, int), LexError>;

/// One element of a template literal: a run of text, or the source of an
/// embedded `${...}` expression.
pub struct TemplatePart {
    pub is_text: bool,
    pub text: Seq<char>,
    pub expr: Seq<char>,
}

/// Where the scan of a template literal is: in its text, inside an embedded
/// expression at brace depth `depth` that started at `start`, or inside a
/// quoted string within such an expression.
pub enum TemplateMode {
    Text,
    Expr { depth: nat, start: int },
    Quoted { depth: nat, start: int, quote: char },
}

pub open spec fn lexeme_of(t: SpannedToken) -> Lexeme {
    Lexeme {
        kind: t.token.kind(),
        text: t.token.payload(),
        start: t.span.start as int,
        end: t.span.end as int,
        line: t.span.line as int,
        column: t.span.column as int,
    }
}

pub open spec fn lexemes_of(ts: Seq<SpannedToken>) -> Seq<Lexeme> {
    ts.map_values(|t: SpannedToken| lexeme_of(t))
}

pub open spec fn lex_error_of(e: CompileError) -> LexError {
    LexError {
        message: e.message@,
        start: e.span.start as int,
        end: e.span.end as int,
        line: e.span.line as int,
        column: e.span.column as int,
    }
}

/// The character at `k`, or `'\0'` outside the text (what the scanner's
/// lookahead reads there).
pub open spec fn char_at(src: Seq<char>, k: int) -> char {
    if 0 <= k < src.len() {
        src[k]
    } else {
        '\0'
    }
}

/// The kinds of the tokens that carry text.
pub open spec fn number_kind() -> nat {
    0
}

pub open spec fn string_kind() -> nat {
    1
}

pub open spec fn identifier_kind() -> nat {
    6
}

/// A token without text.
pub open spec fn plain(t: Token, start: int, end: int, line: int, column: int) -> Lexeme {
    Lexeme { kind: t.kind(), text: Seq::empty(), start, end, line, column }
}

/// A step that emits the fixed token `t`, `width` characters long, at `i`.
pub open spec fn fixed(t: Token, i: int, line: int, column: int, width: int) -> Step {
    Ok((seq![plain(t, i, i + width, line, column)], i + width, line, column + width))
}

/// A step that emits nothing.
pub open spec fn skip(j: int, line: int, column: int) -> Step {
    Ok((Seq::empty(), j, line, column))
}

pub open spec fn scan_failure(message: Seq<char>, start: int, end: int, line: int, column: int) -> LexError {
    LexError { message, start, end, line, column }
}

/// The characters an escape `\e` stands for inside a quoted string.
pub open spec fn string_escape(e: char) -> Seq<char> {
    if e == 'n' {
        seq!['\n']
    } else if e == 't' {
        seq!['\t']
    } else if e == 'r' {
        seq!['\r']
    } else if e == '\\' {
        seq!['\\']
    } else if e == '\'' {
        seq!['\'']
    } else if e == '"' {
        seq!['"']
    } else if e == '0' {
        seq!['\0']
    } else {
        seq!['\\', e]
    }
}

/// The characters an escape `\e` stands for inside a template literal.
pub open spec fn template_escape(e: char) -> Seq<char> {
    if e == 'n' {
        seq!['\n']
    } else if e == 't' {
        seq!['\t']
    } else if e == 'r' {
        seq!['\r']
    } else if e == '\\' {
        seq!['\\']
    } else if e == '`' {
        seq!['`']
    } else if e == '$' {
        seq!['$']
    } else if e == '0' {
        seq!['\0']
    } else {
        seq!['\\', e]
    }
}

/// Inside a quoted string an escape stands for what it stands for inside a
/// template literal, for every character but the quotes and the template's
/// own `` ` `` and `$`: `\n`, `\t`, `\r`, `\\` and `\0` alike.
pub proof fn law_string_escapes_agree_with_templates(e: char)
    requires
        e != '\'' && e != '"' && e != '`' && e != '$',
    ensures
        string_escape(e) == template_escape(e),
{
}

/// The escapes of the letters `n`, `t`, `r` and the digit `0` in a quoted
/// string each stand for a single control character (code below 32), a
/// different one for each.
pub proof fn law_control_escapes(a: char, b: char)
    requires
        a == 'n' || a == 't' || a == 'r' || a == '0',
        b == 'n' || b == 't' || b == 'r' || b == '0',
    ensures
        string_escape(a).len() == 1,
        (string_escape(a)[0] as u32) < 32,
        a != b ==> string_escape(a) != string_escape(b),
{
    assert(string_escape(a).len() == 1);
    assert(string_escape(b).len() == 1);
    if a != b {
        assert(string_escape(a)[0] != string_escape(b)[0]);
    }
}

/// The body of a quoted string from `j` on: the position of the closing quote
/// (or the end of the text), the line and column there, and the value read.
pub open spec fn string_scan(
    src: Seq<char>,
    quote: char,
    j: int,
    line: int,
    column: int,
    value: Seq<char>,
) -> (int, int, int, Seq<char>)
    decreases src.len() - j,
{
    if 0 <= j < src.len() && src[j] != quote {
        if src[j] == '\\' {
            if j + 1 < src.len() {
                string_scan(src, quote, j + 2, line, column + 2, value + string_escape(src[j + 1]))
            } else {
                string_scan(src, quote, j + 1, line, column + 1, value + string_escape('\0'))
            }
        } else if src[j] == '\n' {
            string_scan(src, quote, j + 1, line + 1, 2, value.push('\n'))
        } else {
            string_scan(src, quote, j + 1, line, column + 1, value.push(src[j]))
        }
    } else {
        (j, line, column, value)
    }
}

/// The end of the run of ASCII digits that starts at `j`.
pub open spec fn digits_end(src: Seq<char>, j: int) -> int
    decreases src.len() - j,
{
    if 0 <= j < src.len() && is_ascii_digit(src[j]) {
        digits_end(src, j + 1)
    } else {
        j
    }
}

/// The end of the numeric literal whose first digit is at `i`: digits,
/// then `.` and digits if a digit follows the dot.
pub open spec fn number_end(src: Seq<char>, i: int) -> int {
    let d = digits_end(src, i + 1);
    if d < src.len() && src[d] == '.' && is_ascii_digit(char_at(src, d + 1)) {
        digits_end(src, d + 2)
    } else {
        d
    }
}

/// The end of the run of identifier characters that starts at `j`.
pub open spec fn ident_end(src: Seq<char>, j: int) -> int
    decreases src.len() - j,
{
    if 0 <= j < src.len() && is_ident_continue(src[j]) {
        ident_end(src, j + 1)
    } else {
        j
    }
}

/// The token for the word `text` at `start..end`: a keyword or an identifier.
pub open spec fn word(text: Seq<char>, start: int, end: int, line: int, column: int) -> Lexeme {
    match keyword_token(text) {
        Some(k) => Lexeme { kind: k.kind(), text: k.payload(), start, end, line, column },
        None => Lexeme { kind: identifier_kind(), text, start, end, line, column },
    }
}

/// The end of a line comment whose text starts at `j`: the next newline, or
/// the end of the text.
pub open spec fn line_comment_end(src: Seq<char>, j: int) -> int
    decreases src.len() - j,
{
    if 0 <= j < src.len() && src[j] != '\n' {
        line_comment_end(src, j + 1)
    } else {
        j
    }
}

/// A block comment from `j` on, at nesting depth `depth`: where the scan
/// stops, the depth left open there (zero when the comment was closed), and
/// the line and column.
pub open spec fn comment_scan(src: Seq<char>, j: int, depth: nat, line: int, column: int) -> (
    int,
    nat,
    int,
    int,
)
    decreases src.len() - j,
{
    if 0 <= j < src.len() && depth > 0 {
        if src[j] == '/' && char_at(src, j + 1) == '*' {
            comment_scan(src, j + 2, depth + 1, line, column + 2)
        } else if src[j] == '*' && char_at(src, j + 1) == '/' {
            comment_scan(src, j + 2, (depth - 1) as nat, line, column + 2)
        } else if src[j] == '\n' {
            comment_scan(src, j + 1, depth, line + 1, 2)
        } else {
            comment_scan(src, j + 1, depth, line, column + 1)
        }
    } else {
        (j, depth, line, column)
    }
}

/// A template literal that started at `i` (start column `c0`), from `j` on in
/// `mode`, with `text` the text read since the last part and `parts` the
/// parts so far: the position of the closing backtick with the line, column,
/// pending text and parts there; or the error for a template left open.
pub open spec fn template_scan(
    src: Seq<char>,
    i: int,
    c0: int,
    mode: TemplateMode,
    j: int,
    line: int,
    column: int,
    text: Seq<char>,
    parts: Seq<TemplatePart>,
) -> Result<(int, int, int, Seq<char>, Seq<TemplatePart>), LexError>
    decreases src.len() - j,
{
    if !(0 <= j < src.len()) {
        match mode {
            TemplateMode::Text => Err(
                scan_failure("Unterminated template literal"@, i, j, line, c0),
            ),
            _ => Err(scan_failure("Unterminated template expression"@, i, j, line, c0)),
        }
    } else {
        let ch = src[j];
        match mode {
            TemplateMode::Text => {
                if ch == '`' {
                    Ok((j, line, column, text, parts))
                } else if ch == '\\' {
                    if j + 1 < src.len() {
                        template_scan(src, i, c0, mode, j + 2, line, column + 2,
                            text + template_escape(src[j + 1]), parts)
                    } else {
                        template_scan(src, i, c0, mode, j + 1, line, column + 1,
                            text + template_escape('\0'), parts)
                    }
                } else if ch == '$' && char_at(src, j + 1) == '{' {
                    template_scan(src, i, c0, TemplateMode::Expr { depth: 1, start: j + 2 }, j + 2,
                        line, column + 2, Seq::empty(),
                        parts.push(TemplatePart { is_text: true, text, expr: Seq::empty() }))
                } else if ch == '\n' {
                    template_scan(src, i, c0, mode, j + 1, line + 1, 2, text.push(ch), parts)
                } else {
                    template_scan(src, i, c0, mode, j + 1, line, column + 1, text.push(ch), parts)
                }
            },
            TemplateMode::Expr { depth, start } => {
                if ch == '{' {
                    template_scan(src, i, c0, TemplateMode::Expr { depth: depth + 1, start }, j + 1,
                        line, column + 1, text, parts)
                } else if ch == '}' {
                    if depth <= 1 {
                        template_scan(src, i, c0, TemplateMode::Text, j + 1, line, column + 1, text,
                            parts.push(TemplatePart {
                                is_text: false,
                                text: Seq::empty(),
                                expr: src.subrange(start, j),
                            }))
                    } else {
                        template_scan(src, i, c0, TemplateMode::Expr { depth: (depth - 1) as nat, start },
                            j + 1, line, column + 1, text, parts)
                    }
                } else if ch == '\'' || ch == '"' {
                    template_scan(src, i, c0, TemplateMode::Quoted { depth, start, quote: ch }, j + 1,
                        line, column + 1, text, parts)
                } else if ch == '\n' {
                    template_scan(src, i, c0, mode, j + 1, line + 1, 2, text, parts)
                } else {
                    template_scan(src, i, c0, mode, j + 1, line, column + 1, text, parts)
                }
            },
            TemplateMode::Quoted { depth, start, quote } => {
                if ch == quote {
                    template_scan(src, i, c0, TemplateMode::Expr { depth, start }, j + 1, line,
                        column + 1, text, parts)
                } else if ch == '\\' && j + 1 < src.len() {
                    template_scan(src, i, c0, mode, j + 2, line, column + 2, text, parts)
                } else {
                    template_scan(src, i, c0, mode, j + 1, line, column + 1, text, parts)
                }
            },
        }
    }
}

/// The text parts of a template joined in order.
pub open spec fn joined_text(parts: Seq<TemplatePart>) -> Seq<char>
    decreases parts.len(),
{
    if parts.len() == 0 {
        Seq::empty()
    } else {
        joined_text(parts.drop_last()) + parts.last().text
    }
}

pub open spec fn has_expression(parts: Seq<TemplatePart>) -> bool {
    exists|k: int| 0 <= k < parts.len() && !(#[trigger] parts[k]).is_text
}

pub open spec fn has_nonempty_text(parts: Seq<TemplatePart>) -> bool {
    exists|k: int| 0 <= k < parts.len() && (#[trigger] parts[k]).is_text && parts[k].text.len() > 0
}

/// A token moved onto the span of the template literal it came from.
pub open spec fn at_template(l: Lexeme, i: int, line: int, column: int) -> Lexeme {
    Lexeme { kind: l.kind, text: l.text, start: i, end: i + 1, line, column }
}

pub open spec fn all_at_template(ls: Seq<Lexeme>, i: int, line: int, column: int) -> Seq<Lexeme> {
    ls.map_values(|l: Lexeme| at_template(l, i, line, column))
}

/// The tokens of a template with embedded expressions, from part `k` on,
/// after the tokens `acc`: each non-empty text part as a string, each
/// expression as its own tokens in parentheses, joined by `+`. All carry the
/// span of the template, which starts at `i` on `line` at `column`; `n`
/// bounds the length of the expressions.
pub open spec fn expand(
    parts: Seq<TemplatePart>,
    k: int,
    emitted: bool,
    n: int,
    i: int,
    line: int,
    column: int,
    acc: Seq<Lexeme>,
) -> Result<Seq<Lexeme>, LexError>
    decreases n, 0int, parts.len() - k,
{
    if !(0 <= k < parts.len()) {
        Ok(acc)
    } else {
        let p = parts[k];
        if p.is_text && p.text.len() == 0 {
            expand(parts, k + 1, emitted, n, i, line, column, acc)
        } else {
            let acc1 = if emitted {
                acc.push(plain(Token::Plus, i, i + 1, line, column))
            } else {
                acc
            };
            if p.is_text {
                expand(parts, k + 1, true, n, i, line, column,
                    acc1.push(Lexeme { kind: string_kind(), text: p.text, start: i, end: i + 1, line, column }))
            } else if p.expr.len() < n {
                match lex(p.expr, 0, 1, 1) {
                    Ok(ls) => expand(parts, k + 1, true, n, i, line, column,
                        acc1.push(plain(Token::LeftParen, i, i + 1, line, column))
                            + all_at_template(ls.drop_last(), i, line, column)
                            + seq![plain(Token::RightParen, i, i + 1, line, column)]),
                    Err(e) => Err(e),
                }
            } else {
                Ok(acc)
            }
        }
    }
}

/// The parts of a template whose closing backtick was reached with `text`
/// pending after `parts`.
pub open spec fn final_parts(text: Seq<char>, parts: Seq<TemplatePart>) -> Seq<TemplatePart> {
    if text.len() > 0 {
        parts.push(TemplatePart { is_text: true, text, expr: Seq::empty() })
    } else {
        parts
    }
}

/// The tokens of a template literal with the given parts, on the span of its
/// backtick at `i` (on `line` at `column`); `n` bounds the length of the
/// expressions. Without embedded expressions it is one string token;
/// otherwise its parts are joined into a parenthesised concatenation.
pub open spec fn template_tokens(parts: Seq<TemplatePart>, n: int, i: int, line: int, column: int) -> Result<
    Seq<Lexeme>,
    LexError,
>
    decreases n, 0int, parts.len() + 1,
{
    if !has_expression(parts) {
        Ok(seq![Lexeme { kind: string_kind(), text: joined_text(parts), start: i, end: i + 1, line, column }])
    } else {
        let open = if has_nonempty_text(parts) {
            seq![plain(Token::LeftParen, i, i + 1, line, column)]
        } else {
            seq![
                plain(Token::LeftParen, i, i + 1, line, column),
                Lexeme { kind: string_kind(), text: Seq::empty(), start: i, end: i + 1, line, column },
            ]
        };
        match expand(parts, 0, !has_nonempty_text(parts), n, i, line, column, open) {
            Ok(ls) => Ok(ls.push(plain(Token::RightParen, i, i + 1, line, column))),
            Err(e) => Err(e),
        }
    }
}

/// A template literal whose backtick is at `i`, on `line` at `column`.
pub open spec fn template(src: Seq<char>, i: int, line: int, column: int) -> Step
    decreases src.len(), src.len() - i, 0int,
{
    if !(0 <= i < src.len()) {
        skip(i, line, column)
    } else {
        match template_scan(src, i, column, TemplateMode::Text, i + 1, line, column + 1, Seq::empty(), Seq::empty()) {
            Err(e) => Err(e),
            Ok((j, l2, c2, text, parts)) => {
                match template_tokens(final_parts(text, parts), src.len() as int, i, line, column) {
                    Ok(ls) => Ok((ls, j + 1, l2, c2 + 1)),
                    Err(e) => Err(e),
                }
            },
        }
    }
}

/// A token that starts with `/`: a comment, `/=` or `/`.
pub open spec fn slash(src: Seq<char>, i: int, line: int, column: int) -> Step {
    let c1 = char_at(src, i + 1);
    if c1 == '/' {
        let e = line_comment_end(src, i + 2);
        skip(e, line, column + (e - i))
    } else if c1 == '*' {
        let (k, depth, l2, c2) = comment_scan(src, i + 2, 1, line, column + 2);
        if depth > 0 {
            Err(scan_failure("Unterminated block comment"@, i, k, l2, column))
        } else {
            skip(k, l2, c2)
        }
    } else if c1 == '=' {
        fixed(Token::SlashEqual, i, line, column, 2)
    } else {
        fixed(Token::Slash, i, line, column, 1)
    }
}

/// A token made of operator characters.
pub open spec fn operator(src: Seq<char>, i: int, line: int, column: int) -> Step {
    let ch = src[i];
    let c1 = char_at(src, i + 1);
    let c2 = char_at(src, i + 2);
    if ch == '%' {
        if c1 == '=' { fixed(Token::PercentEqual, i, line, column, 2) }
        else { fixed(Token::Percent, i, line, column, 1) }
    } else if ch == '*' {
        if c1 == '*' { fixed(Token::StarStar, i, line, column, 2) }
        else if c1 == '=' { fixed(Token::StarEqual, i, line, column, 2) }
        else { fixed(Token::Star, i, line, column, 1) }
    } else if ch == '?' {
        if c1 == '?' { fixed(Token::QuestionQuestion, i, line, column, 2) }
        else if c1 == '.' { fixed(Token::QuestionDot, i, line, column, 2) }
        else { fixed(Token::Question, i, line, column, 1) }
    } else if ch == '.' {
        if c1 == '.' && c2 == '.' { fixed(Token::Ellipsis, i, line, column, 3) }
        else { fixed(Token::Dot, i, line, column, 1) }
    } else if ch == '+' {
        if c1 == '+' { fixed(Token::PlusPlus, i, line, column, 2) }
        else if c1 == '=' { fixed(Token::PlusEqual, i, line, column, 2) }
        else { fixed(Token::Plus, i, line, column, 1) }
    } else if ch == '-' {
        if c1 == '-' { fixed(Token::MinusMinus, i, line, column, 2) }
        else if c1 == '=' { fixed(Token::MinusEqual, i, line, column, 2) }
        else { fixed(Token::Minus, i, line, column, 1) }
    } else if ch == '=' {
        if c1 == '>' { fixed(Token::Arrow, i, line, column, 2) }
        else if c1 == '=' && c2 == '=' { fixed(Token::EqualEqualEqual, i, line, column, 3) }
        else if c1 == '=' { fixed(Token::EqualEqual, i, line, column, 2) }
        else { fixed(Token::Assign, i, line, column, 1) }
    } else if ch == '!' {
        if c1 == '=' && c2 == '=' { fixed(Token::BangEqualEqual, i, line, column, 3) }
        else if c1 == '=' { fixed(Token::BangEqual, i, line, column, 2) }
        else { fixed(Token::Bang, i, line, column, 1) }
    } else if ch == '<' {
        if c1 == '=' { fixed(Token::LessEqual, i, line, column, 2) }
        else { fixed(Token::Less, i, line, column, 1) }
    } else if ch == '>' {
        if c1 == '=' { fixed(Token::GreaterEqual, i, line, column, 2) }
        else { fixed(Token::Greater, i, line, column, 1) }
    } else if ch == '&' {
        if c1 == '&' { fixed(Token::AmpersandAmpersand, i, line, column, 2) }
        else { fixed(Token::Ampersand, i, line, column, 1) }
    } else {
        if c1 == '|' { fixed(Token::PipePipe, i, line, column, 2) }
        else { fixed(Token::Pipe, i, line, column, 1) }
    }
}

pub open spec fn is_operator_start(ch: char) -> bool {
    ch == '%' || ch == '*' || ch == '?' || ch == '.' || ch == '+' || ch == '-' || ch == '='
        || ch == '!' || ch == '<' || ch == '>' || ch == '&' || ch == '|'
}

/// The single-character punctuation tokens.
pub open spec fn punctuation(ch: char) -> Option<Token> {
    if ch == '(' { Some(Token::LeftParen) }
    else if ch == ')' { Some(Token::RightParen) }
    else if ch == '{' { Some(Token::LeftBrace) }
    else if ch == '}' { Some(Token::RightBrace) }
    else if ch == '[' { Some(Token::LeftBracket) }
    else if ch == ']' { Some(Token::RightBracket) }
    else if ch == ':' { Some(Token::Colon) }
    else if ch == ';' { Some(Token::Semicolon) }
    else if ch == ',' { Some(Token::Comma) }
    else { None }
}

/// One scanning step at `i`, on `line` at `column`.
pub open spec fn step(src: Seq<char>, i: int, line: int, column: int) -> Step
    decreases src.len(), src.len() - i, 1int,
{
    if !(0 <= i < src.len()) {
        skip(i, line, column)
    } else {
        let ch = src[i];
        if punctuation(ch) is Some {
            fixed(punctuation(ch)->0, i, line, column, 1)
        } else if is_operator_start(ch) {
            operator(src, i, line, column)
        } else if ch == '/' {
            slash(src, i, line, column)
        } else if ch == ' ' || ch == '\r' || ch == '\t' {
            skip(i + 1, line, column + 1)
        } else if ch == '\n' {
            skip(i + 1, line + 1, 1)
        } else if ch == '"' || ch == '\'' {
            let (k, l2, c2, value) = string_scan(src, ch, i + 1, line, column + 1, Seq::empty());
            if k >= src.len() {
                Err(scan_failure("Unterminated string literal"@, i, k, l2, column))
            } else {
                Ok((seq![Lexeme { kind: string_kind(), text: value, start: i, end: k + 1, line: l2, column }],
                    k + 1, l2, c2 + 1))
            }
        } else if ch == '`' {
            template(src, i, line, column)
        } else if is_ascii_digit(ch) {
            let e = number_end(src, i);
            Ok((seq![Lexeme { kind: number_kind(), text: src.subrange(i, e), start: i, end: e, line, column }],
                e, line, column + (e - i)))
        } else if is_ident_start(ch) {
            let e = ident_end(src, i + 1);
            Ok((seq![word(src.subrange(i, e), i, e, line, column)], e, line, column + (e - i)))
        } else {
            Err(scan_failure("Unexpected character '"@ + seq![ch] + "'"@, i, i + 1, line, column))
        }
    }
}

/// The tokens of `src` from `i` on, on `line` at `column`, ending in `Eof`; or
/// the first error.
pub open spec fn lex(src: Seq<char>, i: int, line: int, column: int) -> Result<Seq<Lexeme>, LexError>
    decreases src.len(), src.len() - i, 2int,
{
    if !(0 <= i < src.len()) {
        Ok(seq![plain(Token::Eof, src.len() as int, src.len() as int, line, column)])
    } else {
        match step(src, i, line, column) {
            Err(e) => Err(e),
            Ok((ls, j, l2, c2)) => {
                if i < j <= src.len() {
                    match lex(src, j, l2, c2) {
                        Ok(rest) => Ok(ls + rest),
                        Err(e) => Err(e),
                    }
                } else {
                    Ok(ls)
                }
            },
        }
    }
}

/// The result of scanning a whole source text.
pub open spec fn scan(src: Seq<char>) -> Result<Seq<Lexeme>, LexError> {
    lex(src, 0, 1, 1)
}

} // verus!
