//! Hand-written scanner: source text to tokens.
use vstd::prelude::*;

use crate::diagnostics::{CompileError, Severity};
use crate::lexer::lexing::{
    comment_scan, digits_end, string_escape, ident_end, lex, lex_error_of, lexemes_of, line_comment_end, number_end,
    lexeme_of, number_kind, operator, plain, scan, scan_failure, slash, step, is_operator_start, string_kind, string_scan, template, word, Lexeme, LexError,
    Step, TemplateMode, TemplatePart, all_at_template, at_template, expand, final_parts,
    has_expression, has_nonempty_text, joined_text, template_escape, template_scan, template_tokens,
};
use crate::lexer::token::{Span, SpannedToken, Token};
use crate::text::{eq_str, push_char, string_of};

verus! {

/// Whether a character beyond ASCII has the Unicode `Alphabetic` property
/// (what `char::is_alphabetic` reports for it).
pub uninterp spec fn non_ascii_alphabetic(c: char) -> bool;

/// Whether a character beyond ASCII is in a Unicode numeric category `Nd`,
/// `Nl` or `No` (what `char::is_numeric` reports for it).
pub uninterp spec fn non_ascii_numeric(c: char) -> bool;

/// Whether `c` is an ASCII character.
pub open spec fn is_ascii_char(c: char) -> bool {
    c <= '\u{7f}'
}

/// Whether `c` is an ASCII letter.
pub open spec fn is_ascii_letter(c: char) -> bool {
    ('a' <= c && c <= 'z') || ('A' <= c && c <= 'Z')
}

/// Whether `c` has the Unicode `Alphabetic` property: among ASCII characters
/// exactly the letters.
pub open spec fn unicode_alphabetic(c: char) -> bool {
    if is_ascii_char(c) {
        is_ascii_letter(c)
    } else {
        non_ascii_alphabetic(c)
    }
}

/// Whether `c` is in a Unicode numeric category: among ASCII characters
/// exactly the digits.
pub open spec fn unicode_numeric(c: char) -> bool {
    if is_ascii_char(c) {
        is_ascii_digit(c)
    } else {
        non_ascii_numeric(c)
    }
}

/// `char::is_alphabetic`: whether the character has the Unicode Alphabetic
/// property. Among ASCII characters that is exactly the letters; beyond
/// ASCII the result is named, not stated.
#[verifier::external_body]
fn char_is_alphabetic(c: char) -> (r: bool)
    ensures
        r == (if is_ascii_char(c) {
            is_ascii_letter(c)
        } else {
            non_ascii_alphabetic(c)
        }),
{
    c.is_alphabetic()
}

/// `char::is_numeric`: whether the character is in a Unicode numeric general
/// category. Among ASCII characters that is exactly the digits; beyond ASCII
/// the result is named, not stated.
#[verifier::external_body]
fn char_is_numeric(c: char) -> (r: bool)
    ensures
        r == (if is_ascii_char(c) {
            is_ascii_digit(c)
        } else {
            non_ascii_numeric(c)
        }),
{
    c.is_numeric()
}

pub open spec fn is_ascii_digit(c: char) -> bool {
    '0' <= c && c <= '9'
}

fn ascii_digit(c: char) -> (r: bool)
    ensures
        r == is_ascii_digit(c),
{
    '0' <= c && c <= '9'
}

/// A character that may start an identifier.
pub open spec fn is_ident_start(c: char) -> bool {
    unicode_alphabetic(c) || c == '_' || c == '$'
}

/// A character that may continue an identifier (`char::is_alphanumeric`, `_` or `$`).
pub open spec fn is_ident_continue(c: char) -> bool {
    unicode_alphabetic(c) || unicode_numeric(c) || c == '_' || c == '$'
}

/// The keyword token spelled by `t`, if `t` is a reserved word.
pub open spec fn keyword_token(t: Seq<char>) -> Option<Token> {
    if t == "let"@ { Some(Token::Let) }
    else if t == "const"@ { Some(Token::Const) }
    else if t == "function"@ { Some(Token::Function) }
    else if t == "return"@ { Some(Token::Return) }
    else if t == "if"@ { Some(Token::If) }
    else if t == "else"@ { Some(Token::Else) }
    else if t == "while"@ { Some(Token::While) }
    else if t == "for"@ { Some(Token::For) }
    else if t == "of"@ { Some(Token::Of) }
    else if t == "in"@ { Some(Token::In) }
    else if t == "break"@ { Some(Token::Break) }
    else if t == "continue"@ { Some(Token::Continue) }
    else if t == "do"@ { Some(Token::Do) }
    else if t == "switch"@ { Some(Token::Switch) }
    else if t == "case"@ { Some(Token::Case) }
    else if t == "var"@ { Some(Token::Var) }
    else if t == "true"@ { Some(Token::True) }
    else if t == "false"@ { Some(Token::False) }
    else if t == "null"@ { Some(Token::Null) }
    else if t == "undefined"@ { Some(Token::Undefined) }
    else if t == "void"@ { Some(Token::Void) }
    else if t == "number"@ { Some(Token::NumberType) }
    else if t == "string"@ { Some(Token::StringType) }
    else if t == "boolean"@ { Some(Token::BooleanType) }
    else if t == "import"@ { Some(Token::Import) }
    else if t == "export"@ { Some(Token::Export) }
    else if t == "from"@ { Some(Token::From) }
    else if t == "as"@ { Some(Token::As) }
    else if t == "default"@ { Some(Token::Default) }
    else if t == "typeof"@ { Some(Token::Typeof) }
    else if t == "class"@ { Some(Token::Class) }
    else if t == "new"@ { Some(Token::New) }
    else if t == "this"@ { Some(Token::This) }
    else if t == "extends"@ { Some(Token::Extends) }
    else if t == "super"@ { Some(Token::Super) }
    else if t == "interface"@ { Some(Token::Interface) }
    else if t == "enum"@ { Some(Token::Enum) }
    else if t == "constructor"@ { Some(Token::Constructor) }
    else if t == "async"@ { Some(Token::Async) }
    else if t == "await"@ { Some(Token::Await) }
    else if t == "throw"@ { Some(Token::Throw) }
    else if t == "try"@ { Some(Token::Try) }
    else if t == "catch"@ { Some(Token::Catch) }
    else if t == "finally"@ { Some(Token::Finally) }
    else { None }
}

/// The token for an identifier-shaped word: its keyword, or an identifier.
pub fn word_token(text: String) -> (r: Token)
    ensures
        r == (match keyword_token(text@) {
            Some(k) => k,
            None => Token::Identifier(text),
        }),
{
    if eq_str(&text, "let") { Token::Let }
    else if eq_str(&text, "const") { Token::Const }
    else if eq_str(&text, "function") { Token::Function }
    else if eq_str(&text, "return") { Token::Return }
    else if eq_str(&text, "if") { Token::If }
    else if eq_str(&text, "else") { Token::Else }
    else if eq_str(&text, "while") { Token::While }
    else if eq_str(&text, "for") { Token::For }
    else if eq_str(&text, "of") { Token::Of }
    else if eq_str(&text, "in") { Token::In }
    else if eq_str(&text, "break") { Token::Break }
    else if eq_str(&text, "continue") { Token::Continue }
    else if eq_str(&text, "do") { Token::Do }
    else if eq_str(&text, "switch") { Token::Switch }
    else if eq_str(&text, "case") { Token::Case }
    else if eq_str(&text, "var") { Token::Var }
    else if eq_str(&text, "true") { Token::True }
    else if eq_str(&text, "false") { Token::False }
    else if eq_str(&text, "null") { Token::Null }
    else if eq_str(&text, "undefined") { Token::Undefined }
    else if eq_str(&text, "void") { Token::Void }
    else if eq_str(&text, "number") { Token::NumberType }
    else if eq_str(&text, "string") { Token::StringType }
    else if eq_str(&text, "boolean") { Token::BooleanType }
    else if eq_str(&text, "import") { Token::Import }
    else if eq_str(&text, "export") { Token::Export }
    else if eq_str(&text, "from") { Token::From }
    else if eq_str(&text, "as") { Token::As }
    else if eq_str(&text, "default") { Token::Default }
    else if eq_str(&text, "typeof") { Token::Typeof }
    else if eq_str(&text, "class") { Token::Class }
    else if eq_str(&text, "new") { Token::New }
    else if eq_str(&text, "this") { Token::This }
    else if eq_str(&text, "extends") { Token::Extends }
    else if eq_str(&text, "super") { Token::Super }
    else if eq_str(&text, "interface") { Token::Interface }
    else if eq_str(&text, "enum") { Token::Enum }
    else if eq_str(&text, "constructor") { Token::Constructor }
    else if eq_str(&text, "async") { Token::Async }
    else if eq_str(&text, "await") { Token::Await }
    else if eq_str(&text, "throw") { Token::Throw }
    else if eq_str(&text, "try") { Token::Try }
    else if eq_str(&text, "catch") { Token::Catch }
    else if eq_str(&text, "finally") { Token::Finally }
    else { Token::Identifier(text) }
}

pub open spec fn all_digits(t: Seq<char>) -> bool {
    forall|i: int| 0 <= i < t.len() ==> #[trigger] is_ascii_digit(t[i])
}

/// Text of a numeric literal: one or more ASCII digits, optionally followed by
/// `.` and one or more ASCII digits.
pub open spec fn is_number_text(t: Seq<char>) -> bool {
    ||| t.len() > 0 && all_digits(t)
    ||| exists|k: int|
        0 < k < t.len() - 1 && #[trigger] t[k] == '.' && all_digits(t.take(k)) && all_digits(
            t.skip(k + 1),
        )
}

/// What the scanner guarantees of each token it emits before the final `Eof`.
pub open spec fn token_ok(t: Token) -> bool {
    match t {
        Token::Identifier(s) => s@.len() > 0 && keyword_token(s@) is None,
        Token::Number(s) => is_number_text(s@),
        Token::Eof => false,
        _ => true,
    }
}

/// Spans of emitted tokens lie within the source and count lines and columns from one.
pub open spec fn span_ok(s: Span, n: nat) -> bool {
    s.start <= s.end && s.end <= n && s.line >= 1 && s.column >= 1
}

pub open spec fn tokens_ok(ts: Seq<SpannedToken>, n: nat) -> bool {
    forall|i: int| 0 <= i < ts.len() ==> token_ok(#[trigger] ts[i].token) && span_ok(ts[i].span, n)
}

/// The messages the scanner reports.
pub open spec fn is_scan_message(m: Seq<char>) -> bool {
    ||| m == "Unterminated string literal"@
    ||| m == "Unterminated template expression"@
    ||| m == "Unterminated template literal"@
    ||| m == "Unterminated block comment"@
    ||| exists|c: char| m == "Unexpected character '"@ + seq![c] + "'"@
}

/// What holds of every scanning error.
pub open spec fn scan_error_ok(e: CompileError, n: nat) -> bool {
    &&& e.severity == Severity::Error
    &&& e.hint is None
    &&& is_scan_message(e.message@)
    &&& span_ok(e.span, n)
}

/// What `scan_tokens` returns on success: the tokens of the source, each well
/// formed and within the source, followed by exactly one `Eof` whose span is the
/// empty span at the end of the source.
pub open spec fn scan_result_ok(ts: Seq<SpannedToken>, n: nat) -> bool {
    &&& ts.len() >= 1
    &&& tokens_ok(ts.drop_last(), n)
    &&& ts.last().token is Eof
    &&& ts.last().span.start == n
    &&& ts.last().span.end == n
    &&& ts.last().span.line >= 1
    &&& ts.last().span.column >= 1
}

/// `after` is `before` followed by what the step `r` emitted, and the scan
/// stands where the step stopped: at `j`, on line `l`, column `c`.
pub open spec fn emits(r: Step, before: Seq<Lexeme>, after: Seq<Lexeme>, j: int, l: int, c: int) -> bool {
    match r {
        Ok((ls, j2, l2, c2)) => after =~= before + ls && j == j2 && l == l2 && c == c2,
        Err(_) => false,
    }
}

/// The whole scan, given the tokens `before` already emitted and the scan `rest`
/// of what follows them.
pub open spec fn after_tokens(before: Seq<Lexeme>, rest: Result<Seq<Lexeme>, LexError>) -> Result<
    Seq<Lexeme>,
    LexError,
> {
    match rest {
        Ok(ls) => Ok(before + ls),
        Err(e) => Err(e),
    }
}

/// The parts of a template held as parallel vectors of texts, expression
/// sources and text flags.
spec fn parts_of(texts: Seq<String>, exprs: Seq<Vec<char>>, flags: Seq<bool>) -> Seq<TemplatePart> {
    Seq::new(
        flags.len(),
        |k: int| TemplatePart { is_text: flags[k], text: texts[k]@, expr: exprs[k]@ },
    )
}

proof fn lemma_after_no_tokens(r: Result<Seq<Lexeme>, LexError>)
    ensures
        after_tokens(Seq::empty(), r) == r,
{
    if let Ok(ls) = r {
        assert(Seq::<Lexeme>::empty() + ls =~= ls);
    }
}

proof fn lemma_after_tokens_step(
    l0: Seq<Lexeme>,
    ls: Seq<Lexeme>,
    l1: Seq<Lexeme>,
    rest: Result<Seq<Lexeme>, LexError>,
)
    requires
        l1 =~= l0 + ls,
    ensures
        after_tokens(l0, after_tokens(ls, rest)) == after_tokens(l1, rest),
{
    if let Ok(r) = rest {
        assert(l0 + (ls + r) =~= l1 + r);
    }
}

pub struct Scanner {
    source: Vec<char>,
    tokens: Vec<SpannedToken>,
    start: usize,
    current: usize,
    line: usize,
    column: usize,
    start_column: usize,
}

impl Scanner {
    /// The characters being scanned.
    pub closed spec fn text(&self) -> Seq<char> {
        self.source@
    }

    /// A scanner that has not consumed anything yet.
    pub closed spec fn fresh(&self) -> bool {
        self.tokens@.len() == 0 && self.current == 0 && self.line == 1 && self.column == 1
    }

    pub closed spec fn wf(&self) -> bool {
        &&& self.current <= self.source@.len()
        &&& self.start <= self.current
        &&& self.source@.len() < usize::MAX
        &&& 1 <= self.line <= self.current + 1
        &&& 1 <= self.column <= self.current + 1
        &&& 1 <= self.start_column <= self.start + 1
        &&& tokens_ok(self.tokens@, self.source@.len())
    }

    pub fn new(source: &str) -> (r: Self)
        requires
            source@.len() < usize::MAX,
        ensures
            r.wf(),
            r.fresh(),
            r.text() == source@,
    {
        Self::from_chars(chars_of(source))
    }

    fn from_chars(source: Vec<char>) -> (r: Self)
        requires
            source@.len() < usize::MAX,
        ensures
            r.wf(),
            r.source@ == source@,
            r.tokens@.len() == 0,
            r.current == 0,
            r.line == 1,
            r.column == 1,
    {
        Self {
            source,
            tokens: Vec::new(),
            start: 0,
            current: 0,
            line: 1,
            column: 1,
            start_column: 1,
        }
    }

    /// Scans the whole text: its tokens followed by `Eof`, exactly as `scan`
    /// describes them, or the first error.
    pub fn scan_tokens(self) -> (r: Result<Vec<SpannedToken>, CompileError>)
        requires
            self.wf(),
            self.fresh(),
        ensures
            match r {
                Ok(ts) => {
                    &&& scan_result_ok(ts@, self.text().len())
                    &&& scan(self.text()) == Ok::<Seq<Lexeme>, LexError>(lexemes_of(ts@))
                },
                Err(e) => {
                    &&& scan_error_ok(e, self.text().len())
                    &&& scan(self.text()) == Err::<Seq<Lexeme>, LexError>(lex_error_of(e))
                },
            },
        decreases self.text().len(), 4nat,
    {
        let mut s = self;
        let ghost n = s.source@.len();
        let ghost src = s.source@;
        proof {
            lemma_after_no_tokens(lex(src, 0, 1, 1));
        }
        while !s.is_at_end()
            invariant
                s.wf(),
                s.source@ == src,
                n == src.len(),
                src == self.source@,
                after_tokens(lexemes_of(s.tokens@), lex(src, s.current as int, s.line as int, s.column as int))
                    == lex(src, 0, 1, 1),
            decreases n - s.current,
        {
            s.start = s.current;
            s.start_column = s.column;
            let ghost before = s;
            match s.scan_token() {
                Ok(_) => {},
                Err(e) => {
                    return Err(e);
                },
            }
            proof {
                let st = step(src, before.current as int, before.line as int, before.column as int);
                let ls = st->Ok_0.0;
                lemma_after_tokens_step(
                    lexemes_of(before.tokens@),
                    ls,
                    lexemes_of(s.tokens@),
                    lex(src, s.current as int, s.line as int, s.column as int),
                );
            }
        }
        let span = Span::new(s.current, s.current, s.line, s.column);
        let ghost before = s.tokens@;
        s.tokens.push(SpannedToken::new(Token::Eof, span));
        assert(s.tokens@.drop_last() =~= before);
        assert(lexemes_of(s.tokens@) =~= lexemes_of(before) + seq![
            plain(Token::Eof, n as int, n as int, s.line as int, s.column as int),
        ]);
        Ok(s.tokens)
    }

    fn scan_token(&mut self) -> (r: Result<(), CompileError>)
        requires
            old(self).wf(),
            old(self).current < old(self).source@.len(),
            old(self).start == old(self).current,
            old(self).start_column == old(self).column,
        ensures
            final(self).source@ == old(self).source@,
            match r {
                Ok(_) => {
                    &&& final(self).wf()
                    &&& final(self).current > old(self).current
                    &&& emits(
                        step(
                            old(self).source@,
                            old(self).current as int,
                            old(self).line as int,
                            old(self).column as int,
                        ),
                        lexemes_of(old(self).tokens@),
                        lexemes_of(final(self).tokens@),
                        final(self).current as int,
                        final(self).line as int,
                        final(self).column as int,
                    )
                },
                Err(e) => {
                    &&& scan_error_ok(e, old(self).source@.len())
                    &&& step(
                        old(self).source@,
                        old(self).current as int,
                        old(self).line as int,
                        old(self).column as int,
                    ) == Err::<(Seq<Lexeme>, int, int, int), LexError>(lex_error_of(e))
                },
            },
        decreases old(self).source@.len(), 3nat,
    {
        let ghost src = self.source@;
        let c = self.advance();
        if c == '(' {
            self.add_token(Token::LeftParen);
        } else if c == ')' {
            self.add_token(Token::RightParen);
        } else if c == '{' {
            self.add_token(Token::LeftBrace);
        } else if c == '}' {
            self.add_token(Token::RightBrace);
        } else if c == '[' {
            self.add_token(Token::LeftBracket);
        } else if c == ']' {
            self.add_token(Token::RightBracket);
        } else if c == ':' {
            self.add_token(Token::Colon);
        } else if c == ';' {
            self.add_token(Token::Semicolon);
        } else if c == ',' {
            self.add_token(Token::Comma);
        } else if c == '%' || c == '*' || c == '?' || c == '.' || c == '+' || c == '-' || c == '='
            || c == '!' || c == '<' || c == '>' || c == '&' || c == '|' {
            self.operator(c);
        } else if c == '/' {
            match self.slash() {
                Ok(_) => {},
                Err(e) => {
                    return Err(e);
                },
            }
        } else if c == ' ' || c == '\r' || c == '\t' {
        } else if c == '\n' {
            self.line = self.line + 1;
            self.column = 1;
        } else if c == '"' {
            match self.string('"') {
                Ok(_) => {},
                Err(e) => {
                    return Err(e);
                },
            }
        } else if c == '\'' {
            match self.string('\'') {
                Ok(_) => {},
                Err(e) => {
                    return Err(e);
                },
            }
        } else if c == '`' {
            match self.template_literal() {
                Ok(_) => {},
                Err(e) => {
                    return Err(e);
                },
            }
        } else if ascii_digit(c) {
            self.number();
        } else if char_is_alphabetic(c) || c == '_' || c == '$' {
            self.identifier();
        } else {
            let mut m = string_of("Unexpected character '");
            push_char(&mut m, c);
            push_char(&mut m, '\'');
            proof {
                reveal_strlit("Unexpected character '");
                reveal_strlit("'");
                assert(m@ == "Unexpected character '"@ + seq![c] + "'"@);
            }
            return Err(self.error(m));
        }
        Ok(())
    }

    /// Scans a token made of operator characters; its first character `c`
    /// has been consumed.
    fn operator(&mut self, c: char)
        requires
            old(self).wf(),
            old(self).start + 1 == old(self).current,
            old(self).start_column + 1 == old(self).column,
            c == old(self).source@[old(self).start as int],
            is_operator_start(c),
        ensures
            final(self).wf(),
            final(self).source@ == old(self).source@,
            final(self).current > old(self).start,
            emits(
                operator(
                    old(self).source@,
                    old(self).start as int,
                    old(self).line as int,
                    old(self).start_column as int,
                ),
                lexemes_of(old(self).tokens@),
                lexemes_of(final(self).tokens@),
                final(self).current as int,
                final(self).line as int,
                final(self).column as int,
            ),
    {
        if c == '%' {
            if self.match_char('=') {
                self.add_token(Token::PercentEqual);
            } else {
                self.add_token(Token::Percent);
            }
        } else if c == '*' {
            if self.match_char('*') {
                self.add_token(Token::StarStar);
            } else if self.match_char('=') {
                self.add_token(Token::StarEqual);
            } else {
                self.add_token(Token::Star);
            }
        } else if c == '?' {
            if self.match_char('?') {
                self.add_token(Token::QuestionQuestion);
            } else if self.match_char('.') {
                self.add_token(Token::QuestionDot);
            } else {
                self.add_token(Token::Question);
            }
        } else if c == '.' {
            if self.check('.') && self.check_next('.') {
                self.advance();
                self.advance();
                self.add_token(Token::Ellipsis);
            } else {
                self.add_token(Token::Dot);
            }
        } else if c == '+' {
            if self.match_char('+') {
                self.add_token(Token::PlusPlus);
            } else if self.match_char('=') {
                self.add_token(Token::PlusEqual);
            } else {
                self.add_token(Token::Plus);
            }
        } else if c == '-' {
            if self.match_char('-') {
                self.add_token(Token::MinusMinus);
            } else if self.match_char('=') {
                self.add_token(Token::MinusEqual);
            } else {
                self.add_token(Token::Minus);
            }
        } else if c == '=' {
            if self.match_char('>') {
                self.add_token(Token::Arrow);
            } else if self.match_char('=') {
                if self.match_char('=') {
                    self.add_token(Token::EqualEqualEqual);
                } else {
                    self.add_token(Token::EqualEqual);
                }
            } else {
                self.add_token(Token::Assign);
            }
        } else if c == '!' {
            if self.match_char('=') {
                if self.match_char('=') {
                    self.add_token(Token::BangEqualEqual);
                } else {
                    self.add_token(Token::BangEqual);
                }
            } else {
                self.add_token(Token::Bang);
            }
        } else if c == '<' {
            if self.match_char('=') {
                self.add_token(Token::LessEqual);
            } else {
                self.add_token(Token::Less);
            }
        } else if c == '>' {
            if self.match_char('=') {
                self.add_token(Token::GreaterEqual);
            } else {
                self.add_token(Token::Greater);
            }
        } else if c == '&' {
            if self.match_char('&') {
                self.add_token(Token::AmpersandAmpersand);
            } else {
                self.add_token(Token::Ampersand);
            }
        } else {
            if self.match_char('|') {
                self.add_token(Token::PipePipe);
            } else {
                self.add_token(Token::Pipe);
            }
        }
    }

    /// Scans what starts with `/`, which has been consumed: a comment, `/=` or `/`.
    fn slash(&mut self) -> (r: Result<(), CompileError>)
        requires
            old(self).wf(),
            old(self).start + 1 == old(self).current,
            old(self).start_column + 1 == old(self).column,
            old(self).source@[old(self).start as int] == '/',
        ensures
            final(self).source@ == old(self).source@,
            match r {
                Ok(_) => {
                    &&& final(self).wf()
                    &&& final(self).current > old(self).start
                    &&& emits(
                        slash(
                            old(self).source@,
                            old(self).start as int,
                            old(self).line as int,
                            old(self).start_column as int,
                        ),
                        lexemes_of(old(self).tokens@),
                        lexemes_of(final(self).tokens@),
                        final(self).current as int,
                        final(self).line as int,
                        final(self).column as int,
                    )
                },
                Err(e) => {
                    &&& scan_error_ok(e, old(self).source@.len())
                    &&& slash(
                        old(self).source@,
                        old(self).start as int,
                        old(self).line as int,
                        old(self).start_column as int,
                    ) == Err::<(Seq<Lexeme>, int, int, int), LexError>(lex_error_of(e))
                },
            },
    {
        let ghost src = self.source@;
        if self.match_char('/') {
            while !self.is_at_end() && self.peek() != '\n'
                invariant
                    self.wf(),
                    self.source@ == src,
                    self.current > old(self).current,
                    self.tokens == old(self).tokens,
                    self.line == old(self).line,
                    self.column == old(self).start_column + (self.current - old(self).start),
                    line_comment_end(src, self.current as int) == line_comment_end(
                        src,
                        old(self).current + 1,
                    ),
                decreases self.source@.len() - self.current,
            {
                self.advance();
            }
        } else if self.match_char('*') {
            match self.block_comment() {
                Ok(_) => {},
                Err(e) => {
                    return Err(e);
                },
            }
        } else if self.match_char('=') {
            self.add_token(Token::SlashEqual);
        } else {
            self.add_token(Token::Slash);
        }
        Ok(())
    }

    /// Scans a quoted string; the opening quote has been consumed.
    fn string(&mut self, quote: char) -> (r: Result<(), CompileError>)
        requires
            old(self).wf(),
            old(self).start < old(self).current,
        ensures
            final(self).source@ == old(self).source@,
            ({
                let (k, l2, c2, value) = string_scan(
                    old(self).source@,
                    quote,
                    old(self).current as int,
                    old(self).line as int,
                    old(self).column as int,
                    Seq::empty(),
                );
                match r {
                    Ok(_) => {
                        &&& final(self).wf()
                        &&& old(self).current <= k < old(self).source@.len()
                        &&& final(self).current == k + 1
                        &&& final(self).line == l2
                        &&& final(self).column == c2 + 1
                        &&& lexemes_of(final(self).tokens@) == lexemes_of(old(self).tokens@).push(
                            Lexeme {
                                kind: string_kind(),
                                text: value,
                                start: old(self).start as int,
                                end: k + 1,
                                line: l2,
                                column: old(self).start_column as int,
                            },
                        )
                    },
                    Err(e) => {
                        &&& scan_error_ok(e, old(self).source@.len())
                        &&& k >= old(self).source@.len()
                        &&& lex_error_of(e) == scan_failure(
                            "Unterminated string literal"@,
                            old(self).start as int,
                            k,
                            l2,
                            old(self).start_column as int,
                        )
                    },
                }
            }),
    {
        let ghost src = self.source@;
        let ghost target = string_scan(
            src,
            quote,
            self.current as int,
            self.line as int,
            self.column as int,
            Seq::empty(),
        );
        let mut value = String::new();
        while !self.is_at_end() && self.peek() != quote
            invariant
                self.wf(),
                self.source@ == src,
                self.current >= old(self).current,
                self.start == old(self).start,
                self.start_column == old(self).start_column,
                self.tokens == old(self).tokens,
                self.start < self.current,
                string_scan(src, quote, self.current as int, self.line as int, self.column as int, value@)
                    == target,
            decreases self.source@.len() - self.current,
        {
            let at_newline = self.peek() == '\n';
            if self.peek() == '\\' {
                self.advance();
                let ghost before = value@;
                let e = self.peek();
                if e == 'n' {
                    push_char(&mut value, '\n');
                } else if e == 't' {
                    push_char(&mut value, '\t');
                } else if e == 'r' {
                    push_char(&mut value, '\r');
                } else if e == '\\' {
                    push_char(&mut value, '\\');
                } else if e == '\'' {
                    push_char(&mut value, '\'');
                } else if e == '"' {
                    push_char(&mut value, '"');
                } else if e == '0' {
                    push_char(&mut value, '\0');
                } else {
                    push_char(&mut value, '\\');
                    push_char(&mut value, e);
                }
                assert(value@ =~= before + string_escape(e));
                if !self.is_at_end() {
                    self.advance();
                }
            } else {
                push_char(&mut value, self.peek());
                self.advance();
                if at_newline {
                    // A newline inside a string moves to the next line.
                    self.line = self.line + 1;
                    self.column = 2;
                }
            }
        }

        if self.is_at_end() {
            return Err(self.error(string_of("Unterminated string literal")));
        }

        self.advance();
        self.add_token(Token::String(value));
        Ok(())
    }

    /// Scans a numeric literal; its first digit has been consumed.
    fn number(&mut self)
        requires
            old(self).wf(),
            old(self).start + 1 == old(self).current,
            old(self).start_column + 1 == old(self).column,
            is_ascii_digit(old(self).source@[old(self).start as int]),
        ensures
            final(self).wf(),
            final(self).source@ == old(self).source@,
            final(self).current == number_end(old(self).source@, old(self).start as int),
            final(self).current >= old(self).current,
            final(self).line == old(self).line,
            final(self).column == old(self).start_column + (final(self).current - old(self).start),
            lexemes_of(final(self).tokens@) == lexemes_of(old(self).tokens@).push(
                Lexeme {
                    kind: number_kind(),
                    text: old(self).source@.subrange(old(self).start as int, final(self).current as int),
                    start: old(self).start as int,
                    end: final(self).current as int,
                    line: old(self).line as int,
                    column: old(self).start_column as int,
                },
            ),
    {
        let ghost s0 = self.start as int;
        let ghost src = self.source@;
        while !self.is_at_end() && ascii_digit(self.peek())
            invariant
                self.wf(),
                self.source@ == src,
                self.start == old(self).start,
                self.start_column == old(self).start_column,
                self.tokens == old(self).tokens,
                self.line == old(self).line,
                self.current >= old(self).current,
                self.column == self.start_column + (self.current - self.start),
                digits_end(src, self.current as int) == digits_end(src, s0 + 1),
                forall|i: int| s0 <= i < self.current ==> #[trigger] is_ascii_digit(self.source@[i]),
            decreases self.source@.len() - self.current,
        {
            self.advance();
        }
        assert(all_digits(self.source@.subrange(s0, self.current as int)));
        let ghost d = self.current as int;

        if !self.is_at_end() && self.peek() == '.' && ascii_digit(self.peek_next()) {
            let ghost dot = self.current as int;
            self.advance();
            self.advance();
            while !self.is_at_end() && ascii_digit(self.peek())
                invariant
                    self.wf(),
                    self.source@ == src,
                    self.start == old(self).start,
                    self.start_column == old(self).start_column,
                    self.tokens == old(self).tokens,
                    self.line == old(self).line,
                    self.current >= old(self).current,
                    self.column == self.start_column + (self.current - self.start),
                    digits_end(src, self.current as int) == digits_end(src, d + 2),
                    s0 < dot < self.current - 1,
                    self.source@[dot] == '.',
                    forall|i: int| s0 <= i < dot ==> #[trigger] is_ascii_digit(self.source@[i]),
                    forall|i: int|
                        dot + 1 <= i < self.current ==> #[trigger] is_ascii_digit(self.source@[i]),
                decreases self.source@.len() - self.current,
            {
                self.advance();
            }
            proof {
                let t = self.source@.subrange(s0, self.current as int);
                let k = dot - s0;
                assert(all_digits(t.take(k)));
                assert(all_digits(t.skip(k + 1)));
                assert(t[k] == '.');
                assert(is_number_text(t));
            }
        }

        let text = self.text_range(self.start, self.current);
        self.add_token(Token::Number(text));
    }

    /// Scans an identifier or keyword; its first character has been consumed.
    fn identifier(&mut self)
        requires
            old(self).wf(),
            old(self).start + 1 == old(self).current,
            old(self).start_column + 1 == old(self).column,
        ensures
            final(self).wf(),
            final(self).source@ == old(self).source@,
            final(self).current == ident_end(old(self).source@, old(self).current as int),
            final(self).current >= old(self).current,
            final(self).line == old(self).line,
            final(self).column == old(self).start_column + (final(self).current - old(self).start),
            lexemes_of(final(self).tokens@) == lexemes_of(old(self).tokens@).push(
                word(
                    old(self).source@.subrange(old(self).start as int, final(self).current as int),
                    old(self).start as int,
                    final(self).current as int,
                    old(self).line as int,
                    old(self).start_column as int,
                ),
            ),
    {
        let ghost src = self.source@;
        while !self.is_at_end() && (char_is_alphabetic(self.peek()) || char_is_numeric(self.peek())
            || self.peek() == '_' || self.peek() == '$')
            invariant
                self.wf(),
                self.source@ == src,
                self.start == old(self).start,
                self.start_column == old(self).start_column,
                self.tokens == old(self).tokens,
                self.line == old(self).line,
                self.current >= old(self).current,
                self.column == self.start_column + (self.current - self.start),
                ident_end(src, self.current as int) == ident_end(src, old(self).current as int),
            decreases self.source@.len() - self.current,
        {
            self.advance();
        }

        let text = self.text_range(self.start, self.current);
        let token = word_token(text);
        self.add_token(token);
    }

    /// Scans a template literal; the opening backtick has been consumed.
    /// A template without `${...}` becomes one string token; otherwise it is
    /// desugared to a parenthesised concatenation of its text parts and of its
    /// parenthesised expressions.
    fn template_literal(&mut self) -> (r: Result<(), CompileError>)
        requires
            old(self).wf(),
            old(self).start + 1 == old(self).current,
            old(self).start_column + 1 == old(self).column,
        ensures
            final(self).source@ == old(self).source@,
            match r {
                Ok(_) => {
                    &&& final(self).wf()
                    &&& final(self).current >= old(self).current
                    &&& emits(
                        template(
                            old(self).source@,
                            old(self).start as int,
                            old(self).line as int,
                            old(self).start_column as int,
                        ),
                        lexemes_of(old(self).tokens@),
                        lexemes_of(final(self).tokens@),
                        final(self).current as int,
                        final(self).line as int,
                        final(self).column as int,
                    )
                },
                Err(e) => {
                    &&& scan_error_ok(e, old(self).source@.len())
                    &&& template(
                        old(self).source@,
                        old(self).start as int,
                        old(self).line as int,
                        old(self).start_column as int,
                    ) == Err::<(Seq<Lexeme>, int, int, int), LexError>(lex_error_of(e))
                },
            },
        decreases old(self).source@.len(), 2nat,
    {
        let template_span = Span::new(self.start, self.current, self.line, self.start_column);
        let (texts, exprs, is_text) = match self.template_parts() {
            Ok(parts) => parts,
            Err(e) => {
                return Err(e);
            },
        };
        self.emit_template(texts, exprs, is_text, template_span)
    }

    /// Reads the parts of a template literal up to and including its closing
    /// backtick; the opening backtick has been consumed. Returns the parts as
    /// parallel vectors: each part's text, its expression's source, and whether
    /// it is text.
    fn template_parts(&mut self) -> (r: Result<(Vec<String>, Vec<Vec<char>>, Vec<bool>), CompileError>)
        requires
            old(self).wf(),
            old(self).start + 1 == old(self).current,
            old(self).start_column + 1 == old(self).column,
        ensures
            final(self).source@ == old(self).source@,
            ({
                let scanned = template_scan(
                    old(self).source@,
                    old(self).start as int,
                    old(self).start_column as int,
                    TemplateMode::Text,
                    old(self).current as int,
                    old(self).line as int,
                    old(self).column as int,
                    Seq::empty(),
                    Seq::empty(),
                );
                match r {
                    Ok((texts, exprs, flags)) => {
                        &&& final(self).wf()
                        &&& final(self).tokens == old(self).tokens
                        &&& final(self).start == old(self).start
                        &&& final(self).start_column == old(self).start_column
                        &&& final(self).current > old(self).current
                        &&& texts@.len() == flags@.len()
                        &&& exprs@.len() == flags@.len()
                        &&& forall|k: int|
                            0 <= k < exprs@.len() ==> #[trigger] exprs@[k]@.len() < old(self).source@.len()
                        &&& match scanned {
                            Ok((j, l2, c2, text, parts)) => {
                                &&& final(self).current == j + 1
                                &&& final(self).line == l2
                                &&& final(self).column == c2 + 1
                                &&& parts_of(texts@, exprs@, flags@) == final_parts(text, parts)
                            },
                            Err(_) => false,
                        }
                    },
                    Err(e) => {
                        &&& scan_error_ok(e, old(self).source@.len())
                        &&& scanned == Err::<(int, int, int, Seq<char>, Seq<TemplatePart>), LexError>(
                            lex_error_of(e),
                        )
                    },
                }
            }),
    {
        let ghost src = self.source@;
        let ghost n = src.len();
        let ghost i = self.start as int;
        let ghost c0 = self.start_column as int;
        let ghost target = template_scan(
            src,
            i,
            c0,
            TemplateMode::Text,
            self.current as int,
            self.line as int,
            self.column as int,
            Seq::empty(),
            Seq::empty(),
        );
        let mut texts: Vec<String> = Vec::new();
        let mut exprs: Vec<Vec<char>> = Vec::new();
        let mut is_text: Vec<bool> = Vec::new();
        let mut current_text = String::new();
        assert(parts_of(texts@, exprs@, is_text@) =~= Seq::<TemplatePart>::empty());

        while !self.is_at_end() && self.peek() != '`'
            invariant
                self.wf(),
                self.source@ == src,
                src == old(self).source@,
                target == template_scan(
                    src,
                    old(self).start as int,
                    old(self).start_column as int,
                    TemplateMode::Text,
                    old(self).current as int,
                    old(self).line as int,
                    old(self).column as int,
                    Seq::empty(),
                    Seq::empty(),
                ),
                n == src.len(),
                self.current >= old(self).current,
                self.start == old(self).start,
                self.start_column == old(self).start_column,
                self.tokens == old(self).tokens,
                i == self.start,
                c0 == self.start_column,
                self.start < self.current,
                texts@.len() == is_text@.len(),
                exprs@.len() == is_text@.len(),
                forall|k: int| 0 <= k < exprs@.len() ==> #[trigger] exprs@[k]@.len() < n,
                template_scan(
                    src,
                    i,
                    c0,
                    TemplateMode::Text,
                    self.current as int,
                    self.line as int,
                    self.column as int,
                    current_text@,
                    parts_of(texts@, exprs@, is_text@),
                ) == target,
            decreases self.source@.len() - self.current,
        {
            if self.peek() == '\\' {
                self.advance();
                let ghost before = current_text@;
                let e = self.peek();
                if e == 'n' {
                    push_char(&mut current_text, '\n');
                } else if e == 't' {
                    push_char(&mut current_text, '\t');
                } else if e == 'r' {
                    push_char(&mut current_text, '\r');
                } else if e == '\\' {
                    push_char(&mut current_text, '\\');
                } else if e == '`' {
                    push_char(&mut current_text, '`');
                } else if e == '$' {
                    push_char(&mut current_text, '$');
                } else if e == '0' {
                    push_char(&mut current_text, '\0');
                } else {
                    push_char(&mut current_text, '\\');
                    push_char(&mut current_text, e);
                }
                assert(current_text@ =~= before + template_escape(e));
                if !self.is_at_end() {
                    self.advance();
                }
            } else if self.peek() == '$' && self.peek_next() == '{' {
                let ghost parts0 = parts_of(texts@, exprs@, is_text@);
                let ghost text0 = current_text@;
                texts.push(current_text);
                exprs.push(Vec::new());
                is_text.push(true);
                current_text = String::new();
                assert(parts_of(texts@, exprs@, is_text@) =~= parts0.push(
                    TemplatePart { is_text: true, text: text0, expr: Seq::empty() },
                ));

                self.advance();
                self.advance();

                let expr_start = self.current;
                let mut depth: usize = 1;
                while !self.is_at_end() && depth > 0
                    invariant
                        self.wf(),
                        self.source@ == src,
                        src == old(self).source@,
                        target == template_scan(
                            src,
                            old(self).start as int,
                            old(self).start_column as int,
                            TemplateMode::Text,
                            old(self).current as int,
                            old(self).line as int,
                            old(self).column as int,
                            Seq::empty(),
                            Seq::empty(),
                        ),
                        n == src.len(),
                        self.current >= expr_start,
                        expr_start >= 1,
                        self.start == old(self).start,
                        self.start_column == old(self).start_column,
                        self.tokens == old(self).tokens,
                        i == self.start,
                        c0 == self.start_column,
                        self.start < self.current,
                        self.current >= old(self).current,
                        expr_start <= n,
                        depth <= self.current - expr_start + 1,
                        current_text@ == Seq::<char>::empty(),
                        texts@.len() == is_text@.len(),
                        exprs@.len() == is_text@.len(),
                        forall|k: int| 0 <= k < exprs@.len() ==> #[trigger] exprs@[k]@.len() < n,
                        depth > 0 ==> template_scan(
                            src,
                            i,
                            c0,
                            TemplateMode::Expr { depth: depth as nat, start: expr_start as int },
                            self.current as int,
                            self.line as int,
                            self.column as int,
                            Seq::empty(),
                            parts_of(texts@, exprs@, is_text@),
                        ) == target,
                        depth == 0 ==> {
                            &&& self.current < n
                            &&& src[self.current as int] == '}'
                            &&& template_scan(
                                src,
                                i,
                                c0,
                                TemplateMode::Expr { depth: 1, start: expr_start as int },
                                self.current as int,
                                self.line as int,
                                self.column as int,
                                Seq::empty(),
                                parts_of(texts@, exprs@, is_text@),
                            ) == target
                        },
                    decreases self.source@.len() - self.current, depth,
                {
                    let c = self.peek();
                    if c == '{' {
                        depth = depth + 1;
                        self.advance();
                    } else if c == '}' {
                        depth = depth - 1;
                        if depth > 0 {
                            self.advance();
                        }
                    } else if c == '\'' || c == '"' {
                        let quote = c;
                        let ghost cur0 = self.current;
                        self.advance();
                        while !self.is_at_end() && self.peek() != quote
                            invariant
                                self.wf(),
                                self.source@ == src,
                                src == old(self).source@,
                                target == template_scan(
                                    src,
                                    old(self).start as int,
                                    old(self).start_column as int,
                                    TemplateMode::Text,
                                    old(self).current as int,
                                    old(self).line as int,
                                    old(self).column as int,
                                    Seq::empty(),
                                    Seq::empty(),
                                ),
                                n == src.len(),
                                self.current >= expr_start + 1,
                                self.start == old(self).start,
                                self.start_column == old(self).start_column,
                                self.tokens == old(self).tokens,
                                i == self.start,
                                c0 == self.start_column,
                                self.start < self.current,
                                self.current >= old(self).current,
                                expr_start <= n,
                                1 <= depth <= self.current - expr_start,
                                self.current > cur0,
                                current_text@ == Seq::<char>::empty(),
                                texts@.len() == is_text@.len(),
                                exprs@.len() == is_text@.len(),
                                forall|k: int| 0 <= k < exprs@.len() ==> #[trigger] exprs@[k]@.len() < n,
                                template_scan(
                                    src,
                                    i,
                                    c0,
                                    TemplateMode::Quoted {
                                        depth: depth as nat,
                                        start: expr_start as int,
                                        quote,
                                    },
                                    self.current as int,
                                    self.line as int,
                                    self.column as int,
                                    Seq::empty(),
                                    parts_of(texts@, exprs@, is_text@),
                                ) == target,
                            decreases self.source@.len() - self.current,
                        {
                            if self.peek() == '\\' {
                                self.advance();
                            }
                            if !self.is_at_end() {
                                self.advance();
                            }
                        }
                        if !self.is_at_end() {
                            self.advance();
                        }
                    } else if c == '\n' {
                        self.advance();
                        self.line = self.line + 1;
                        self.column = 2;
                    } else {
                        self.advance();
                    }
                }

                if depth > 0 {
                    return Err(self.error(string_of("Unterminated template expression")));
                }

                let expr_source = self.chars_range(expr_start, self.current);
                let ghost parts1 = parts_of(texts@, exprs@, is_text@);
                let ghost close = self.current as int;
                self.advance();

                texts.push(String::new());
                exprs.push(expr_source);
                is_text.push(false);
                assert(parts_of(texts@, exprs@, is_text@) =~= parts1.push(
                    TemplatePart {
                        is_text: false,
                        text: Seq::empty(),
                        expr: src.subrange(expr_start as int, close),
                    },
                ));
            } else {
                let at_newline = self.peek() == '\n';
                push_char(&mut current_text, self.peek());
                self.advance();
                if at_newline {
                    self.line = self.line + 1;
                    self.column = 2;
                }
            }
        }

        if self.is_at_end() {
            return Err(self.error(string_of("Unterminated template literal")));
        }
        self.advance();

        if !current_text.as_str().is_empty() {
            let ghost parts2 = parts_of(texts@, exprs@, is_text@);
            let ghost text2 = current_text@;
            texts.push(current_text);
            exprs.push(Vec::new());
            is_text.push(true);
            assert(parts_of(texts@, exprs@, is_text@) =~= parts2.push(
                TemplatePart { is_text: true, text: text2, expr: Seq::empty() },
            ));
        }
        Ok((texts, exprs, is_text))
    }

    /// Appends `token` on `span`.
    fn push_token(&mut self, token: Token, span: Span)
        requires
            old(self).wf(),
            token_ok(token),
            span_ok(span, old(self).source@.len()),
        ensures
            final(self).wf(),
            final(self).source == old(self).source,
            final(self).current == old(self).current,
            final(self).line == old(self).line,
            final(self).column == old(self).column,
            final(self).start == old(self).start,
            final(self).start_column == old(self).start_column,
            lexemes_of(final(self).tokens@) == lexemes_of(old(self).tokens@).push(
                lexeme_of(SpannedToken { token, span }),
            ),
    {
        self.tokens.push(SpannedToken::new(token, span));
        assert(lexemes_of(self.tokens@) =~= lexemes_of(old(self).tokens@).push(
            lexeme_of(SpannedToken { token, span }),
        ));
    }

    /// Emits the tokens of an embedded template expression, scanned on its
    /// own, in parentheses and on `span`.
    fn emit_expression(&mut self, source: &Vec<char>, span: Span) -> (r: Result<(), CompileError>)
        requires
            old(self).wf(),
            source@.len() < old(self).source@.len(),
            span_ok(span, old(self).source@.len()),
            span.end == span.start + 1,
        ensures
            final(self).source@ == old(self).source@,
            match r {
                Ok(_) => {
                    &&& final(self).wf()
                    &&& final(self).current == old(self).current
                    &&& final(self).line == old(self).line
                    &&& final(self).column == old(self).column
                    &&& match lex(source@, 0, 1, 1) {
                        Ok(ls) => lexemes_of(final(self).tokens@) == lexemes_of(old(self).tokens@)
                            + seq![plain(Token::LeftParen, span.start as int, span.end as int, span.line as int, span.column as int)]
                            + all_at_template(ls.drop_last(), span.start as int, span.line as int, span.column as int)
                            + seq![plain(Token::RightParen, span.start as int, span.end as int, span.line as int, span.column as int)],
                        Err(_) => false,
                    }
                },
                Err(e) => {
                    &&& scan_error_ok(e, old(self).source@.len())
                    &&& lex(source@, 0, 1, 1) == Err::<Seq<Lexeme>, LexError>(lex_error_of(e))
                },
            },
        decreases old(self).source@.len(), 0nat,
    {
        let ghost i = span.start as int;
        let ghost l0 = span.line as int;
        let ghost c0 = span.column as int;
        let ghost base = lexemes_of(self.tokens@);
        let sub_source = source.clone();
        assert(sub_source@ =~= source@);
        let sub = Scanner::from_chars(sub_source);
        let sub_tokens = match sub.scan_tokens() {
            Ok(ts) => ts,
            Err(e) => {
                return Err(e);
            },
        };
        self.push_token(Token::LeftParen, span);
        let ghost open = base.push(plain(Token::LeftParen, i, i + 1, l0, c0));
        let ghost subs = lexemes_of(sub_tokens@);
        let count = sub_tokens.len() - 1;
        let mut q: usize = 0;
        while q < count
            invariant
                self.wf(),
                self.source@ == old(self).source@,
                self.current == old(self).current,
                self.line == old(self).line,
                self.column == old(self).column,
                q <= count,
                count + 1 == sub_tokens@.len(),
                scan_result_ok(sub_tokens@, source@.len()),
                source@.len() < self.source@.len(),
                subs == lexemes_of(sub_tokens@),
                span_ok(span, self.source@.len()),
                i == span.start,
                l0 == span.line,
                c0 == span.column,
                span.end == span.start + 1,
                lexemes_of(self.tokens@) == open + all_at_template(subs.take(q as int), i, l0, c0),
            decreases count - q,
        {
            let t = &sub_tokens[q];
            assert(sub_tokens@.drop_last()[q as int] == sub_tokens@[q as int]);
            self.push_token(t.token.duplicate(), span);
            assert(all_at_template(subs.take(q + 1), i, l0, c0) =~= all_at_template(
                subs.take(q as int),
                i,
                l0,
                c0,
            ).push(at_template(subs[q as int], i, l0, c0)));
            assert(open + all_at_template(subs.take(q + 1), i, l0, c0) =~= (open + all_at_template(
                subs.take(q as int),
                i,
                l0,
                c0,
            )).push(at_template(subs[q as int], i, l0, c0)));
            q = q + 1;
        }
        self.push_token(Token::RightParen, span);
        assert(subs.take(count as int) =~= subs.drop_last());
        assert(lexemes_of(self.tokens@) =~= base + seq![plain(Token::LeftParen, i, i + 1, l0, c0)]
            + all_at_template(subs.drop_last(), i, l0, c0) + seq![plain(Token::RightParen, i, i + 1, l0, c0)]);
        Ok(())
    }

    /// Emits the tokens of a template literal with the given parts (parallel
    /// vectors of texts, expression sources and text flags), all on `span`, the
    /// span of its backtick.
    #[verifier::rlimit(50)]
    fn emit_template(
        &mut self,
        texts: Vec<String>,
        exprs: Vec<Vec<char>>,
        is_text: Vec<bool>,
        span: Span,
    ) -> (r: Result<(), CompileError>)
        requires
            old(self).wf(),
            texts@.len() == is_text@.len(),
            exprs@.len() == is_text@.len(),
            forall|k: int| 0 <= k < exprs@.len() ==> #[trigger] exprs@[k]@.len() < old(self).source@.len(),
            span_ok(span, old(self).source@.len()),
            span.end == span.start + 1,
        ensures
            final(self).source@ == old(self).source@,
            ({
                let expected = template_tokens(
                    parts_of(texts@, exprs@, is_text@),
                    old(self).source@.len() as int,
                    span.start as int,
                    span.line as int,
                    span.column as int,
                );
                match r {
                    Ok(_) => {
                        &&& final(self).wf()
                        &&& final(self).current == old(self).current
                        &&& final(self).line == old(self).line
                        &&& final(self).column == old(self).column
                        &&& match expected {
                            Ok(ls) => lexemes_of(final(self).tokens@) =~= lexemes_of(old(self).tokens@) + ls,
                            Err(_) => false,
                        }
                    },
                    Err(e) => {
                        &&& scan_error_ok(e, old(self).source@.len())
                        &&& expected == Err::<Seq<Lexeme>, LexError>(lex_error_of(e))
                    },
                }
            }),
        decreases old(self).source@.len(), 1nat,
    {
        let ghost parts = parts_of(texts@, exprs@, is_text@);
        let ghost n = self.source@.len() as int;
        let ghost i = span.start as int;
        let ghost l0 = span.line as int;
        let ghost c0 = span.column as int;
        let ghost base = lexemes_of(self.tokens@);

        let mut has_expr = false;
        let mut k: usize = 0;
        while k < is_text.len()
            invariant
                k <= is_text@.len(),
                parts == parts_of(texts@, exprs@, is_text@),
                has_expr == (exists|m: int| 0 <= m < k && !(#[trigger] parts[m]).is_text),
            decreases is_text@.len() - k,
        {
            if !is_text[k] {
                has_expr = true;
                assert(!parts[k as int].is_text);
            }
            k = k + 1;
        }
        assert(has_expr == has_expression(parts));

        if !has_expr {
            let mut combined = String::new();
            let mut j: usize = 0;
            while j < texts.len()
                invariant
                    j <= texts@.len(),
                    texts@.len() == is_text@.len(),
                    exprs@.len() == is_text@.len(),
                    parts == parts_of(texts@, exprs@, is_text@),
                    combined@ == joined_text(parts.take(j as int)),
                decreases texts@.len() - j,
            {
                assert(parts.take(j + 1).drop_last() =~= parts.take(j as int));
                combined.append(texts[j].as_str());
                j = j + 1;
            }
            assert(parts.take(texts@.len() as int) =~= parts);
            self.push_token(Token::String(combined), span);
            assert(lexemes_of(self.tokens@) =~= base + seq![
                Lexeme { kind: string_kind(), text: joined_text(parts), start: i, end: i + 1, line: l0, column: c0 },
            ]);
            return Ok(());
        }

        let mut need_prefix = true;
        let mut k: usize = 0;
        while k < is_text.len()
            invariant
                k <= is_text@.len(),
                texts@.len() == is_text@.len(),
                exprs@.len() == is_text@.len(),
                parts == parts_of(texts@, exprs@, is_text@),
                need_prefix == !(exists|m: int|
                    0 <= m < k && (#[trigger] parts[m]).is_text && parts[m].text.len() > 0),
            decreases is_text@.len() - k,
        {
            if is_text[k] && !texts[k].as_str().is_empty() {
                need_prefix = false;
                assert(parts[k as int].is_text && parts[k as int].text.len() > 0);
            }
            k = k + 1;
        }
        assert(need_prefix == !has_nonempty_text(parts));

        self.push_token(Token::LeftParen, span);
        if need_prefix {
            self.push_token(Token::String(String::new()), span);
        }
        let ghost open = if need_prefix {
            seq![
                plain(Token::LeftParen, i, i + 1, l0, c0),
                Lexeme { kind: string_kind(), text: Seq::empty(), start: i, end: i + 1, line: l0, column: c0 },
            ]
        } else {
            seq![plain(Token::LeftParen, i, i + 1, l0, c0)]
        };
        let ghost mut acc = open;
        assert(lexemes_of(self.tokens@) =~= base + acc);
        let ghost target = expand(parts, 0, need_prefix, n, i, l0, c0, open);
        assert(template_tokens(parts, n, i, l0, c0) == match target {
            Ok(ls) => Ok::<Seq<Lexeme>, LexError>(ls.push(plain(Token::RightParen, i, i + 1, l0, c0))),
            Err(e) => Err(e),
        });
        let mut emitted = need_prefix;

        let mut p: usize = 0;
        while p < is_text.len()
            invariant
                self.wf(),
                self.source@ == old(self).source@,
                self.current == old(self).current,
                self.line == old(self).line,
                self.column == old(self).column,
                n == self.source@.len(),
                p <= is_text@.len(),
                texts@.len() == is_text@.len(),
                exprs@.len() == is_text@.len(),
                forall|k: int| 0 <= k < exprs@.len() ==> #[trigger] exprs@[k]@.len() < n,
                span_ok(span, n as nat),
                span.end == span.start + 1,
                i == span.start,
                l0 == span.line,
                c0 == span.column,
                parts == parts_of(texts@, exprs@, is_text@),
                lexemes_of(self.tokens@) == base + acc,
                expand(parts, p as int, emitted, n, i, l0, c0, acc) == target,
                template_tokens(parts, n, i, l0, c0) == match target {
                    Ok(ls) => Ok::<Seq<Lexeme>, LexError>(ls.push(plain(Token::RightParen, i, i + 1, l0, c0))),
                    Err(e) => Err(e),
                },
                n == old(self).source@.len(),
            decreases is_text@.len() - p,
        {
            if is_text[p] && texts[p].as_str().is_empty() {
                p = p + 1;
                continue;
            }
            if emitted {
                self.push_token(Token::Plus, span);
                proof {
                    assert((base + acc).push(plain(Token::Plus, i, i + 1, l0, c0)) =~= base + acc.push(
                        plain(Token::Plus, i, i + 1, l0, c0),
                    ));
                    acc = acc.push(plain(Token::Plus, i, i + 1, l0, c0));
                }
            }
            if is_text[p] {
                let ghost item = Lexeme {
                    kind: string_kind(),
                    text: texts@[p as int]@,
                    start: i,
                    end: i + 1,
                    line: l0,
                    column: c0,
                };
                self.push_token(Token::String(texts[p].clone()), span);
                proof {
                    assert((base + acc).push(item) =~= base + acc.push(item));
                    acc = acc.push(item);
                }
            } else {
                let ghost before = acc;
                match self.emit_expression(&exprs[p], span) {
                    Ok(_) => {},
                    Err(e) => {
                        return Err(e);
                    },
                }
                proof {
                    let ls = lex(exprs@[p as int]@, 0, 1, 1)->Ok_0;
                    acc = before.push(plain(Token::LeftParen, i, i + 1, l0, c0)) + all_at_template(
                        ls.drop_last(),
                        i,
                        l0,
                        c0,
                    ) + seq![plain(Token::RightParen, i, i + 1, l0, c0)];
                    assert(base + before + seq![plain(Token::LeftParen, i, i + 1, l0, c0)]
                        + all_at_template(ls.drop_last(), i, l0, c0)
                        + seq![plain(Token::RightParen, i, i + 1, l0, c0)] =~= base + acc);
                }
            }
            emitted = true;
            p = p + 1;
        }

        self.push_token(Token::RightParen, span);
        assert(lexemes_of(self.tokens@) =~= base + acc.push(plain(Token::RightParen, i, i + 1, l0, c0)));
        Ok(())
    }

    /// Skips a (nestable) block comment; the opening `/*` has been consumed.
    fn block_comment(&mut self) -> (r: Result<(), CompileError>)
        requires
            old(self).wf(),
            old(self).start < old(self).current,
        ensures
            final(self).source@ == old(self).source@,
            ({
                let (k, depth, l2, c2) = comment_scan(
                    old(self).source@,
                    old(self).current as int,
                    1,
                    old(self).line as int,
                    old(self).column as int,
                );
                match r {
                    Ok(_) => {
                        &&& final(self).wf()
                        &&& depth == 0
                        &&& final(self).current == k
                        &&& k >= old(self).current
                        &&& final(self).line == l2
                        &&& final(self).column == c2
                        &&& final(self).tokens == old(self).tokens
                    },
                    Err(e) => {
                        &&& scan_error_ok(e, old(self).source@.len())
                        &&& depth > 0
                        &&& lex_error_of(e) == scan_failure(
                            "Unterminated block comment"@,
                            old(self).start as int,
                            k,
                            l2,
                            old(self).start_column as int,
                        )
                    },
                }
            }),
    {
        let ghost src = self.source@;
        let ghost target = comment_scan(
            src,
            self.current as int,
            1,
            self.line as int,
            self.column as int,
        );
        let mut depth: usize = 1;
        while !self.is_at_end() && depth > 0
            invariant
                self.wf(),
                self.source@ == src,
                self.current >= old(self).current,
                self.start == old(self).start,
                self.start_column == old(self).start_column,
                self.tokens == old(self).tokens,
                self.start < self.current,
                depth <= self.current + 1,
                comment_scan(src, self.current as int, depth as nat, self.line as int, self.column as int)
                    == target,
            decreases self.source@.len() - self.current,
        {
            if self.peek() == '/' && self.peek_next() == '*' {
                self.advance();
                self.advance();
                depth = depth + 1;
            } else if self.peek() == '*' && self.peek_next() == '/' {
                self.advance();
                self.advance();
                depth = depth - 1;
            } else {
                let at_newline = self.peek() == '\n';
                self.advance();
                if at_newline {
                    self.line = self.line + 1;
                    self.column = 2;
                }
            }
        }

        if depth > 0 {
            return Err(self.error(string_of("Unterminated block comment")));
        }
        Ok(())
    }

    fn text_range(&self, a: usize, b: usize) -> (r: String)
        requires
            a <= b <= self.source@.len(),
        ensures
            r@ == self.source@.subrange(a as int, b as int),
    {
        let mut s = String::new();
        let mut i = a;
        while i < b
            invariant
                a <= i <= b,
                b <= self.source@.len(),
                s@ == self.source@.subrange(a as int, i as int),
            decreases b - i,
        {
            push_char(&mut s, self.source[i]);
            i = i + 1;
            assert(s@ =~= self.source@.subrange(a as int, i as int));
        }
        s
    }

    fn chars_range(&self, a: usize, b: usize) -> (r: Vec<char>)
        requires
            a <= b <= self.source@.len(),
        ensures
            r@ == self.source@.subrange(a as int, b as int),
    {
        let mut v: Vec<char> = Vec::new();
        let mut i = a;
        while i < b
            invariant
                a <= i <= b,
                b <= self.source@.len(),
                v@ == self.source@.subrange(a as int, i as int),
            decreases b - i,
        {
            v.push(self.source[i]);
            i = i + 1;
            assert(v@ =~= self.source@.subrange(a as int, i as int));
        }
        v
    }

    fn advance(&mut self) -> (c: char)
        requires
            old(self).wf(),
            old(self).current < old(self).source@.len(),
        ensures
            final(self).wf(),
            c == old(self).source@[old(self).current as int],
            final(self).current == old(self).current + 1,
            final(self).column == old(self).column + 1,
            final(self).source == old(self).source,
            final(self).tokens == old(self).tokens,
            final(self).start == old(self).start,
            final(self).start_column == old(self).start_column,
            final(self).line == old(self).line,
    {
        let c = self.source[self.current];
        self.current = self.current + 1;
        self.column = self.column + 1;
        c
    }

    fn peek(&self) -> (c: char)
        ensures
            c == if self.current >= self.source@.len() { '\0' } else { self.source@[self.current as int] },
    {
        if self.is_at_end() {
            '\0'
        } else {
            self.source[self.current]
        }
    }

    fn peek_next(&self) -> (c: char)
        requires
            self.current < usize::MAX,
        ensures
            c == if self.current + 1 >= self.source@.len() {
                '\0'
            } else {
                self.source@[self.current + 1]
            },
    {
        if self.current + 1 >= self.source.len() {
            '\0'
        } else {
            self.source[self.current + 1]
        }
    }

    fn check(&self, expected: char) -> (r: bool)
        ensures
            r == (self.current < self.source@.len() && self.source@[self.current as int] == expected),
    {
        !self.is_at_end() && self.source[self.current] == expected
    }

    fn check_next(&self, expected: char) -> (r: bool)
        requires
            self.current < usize::MAX,
        ensures
            r == (self.current + 1 < self.source@.len() && self.source@[self.current + 1] == expected),
    {
        self.current + 1 < self.source.len() && self.source[self.current + 1] == expected
    }

    fn match_char(&mut self, expected: char) -> (r: bool)
        requires
            old(self).wf(),
        ensures
            final(self).wf(),
            r == (old(self).current < old(self).source@.len()
                && old(self).source@[old(self).current as int] == expected),
            final(self).current == old(self).current + if r { 1int } else { 0int },
            final(self).column == old(self).column + if r { 1int } else { 0int },
            final(self).source == old(self).source,
            final(self).tokens == old(self).tokens,
            final(self).start == old(self).start,
            final(self).start_column == old(self).start_column,
            final(self).line == old(self).line,
    {
        if self.is_at_end() || self.source[self.current] != expected {
            return false;
        }
        self.current = self.current + 1;
        self.column = self.column + 1;
        true
    }

    fn is_at_end(&self) -> (r: bool)
        ensures
            r == (self.current >= self.source@.len()),
    {
        self.current >= self.source.len()
    }

    fn add_token(&mut self, token: Token)
        requires
            old(self).wf(),
            token_ok(token),
        ensures
            final(self).wf(),
            final(self).tokens@ == old(self).tokens@.push(
                (SpannedToken {
                    token,
                    span: (Span {
                        start: old(self).start,
                        end: old(self).current,
                        line: old(self).line,
                        column: old(self).start_column,
                    }),
                }),
            ),
            final(self).source == old(self).source,
            final(self).current == old(self).current,
            final(self).start == old(self).start,
            final(self).start_column == old(self).start_column,
            final(self).line == old(self).line,
            final(self).column == old(self).column,
            lexemes_of(final(self).tokens@) == lexemes_of(old(self).tokens@).push(
                Lexeme {
                    kind: token.kind(),
                    text: token.payload(),
                    start: old(self).start as int,
                    end: old(self).current as int,
                    line: old(self).line as int,
                    column: old(self).start_column as int,
                },
            ),
    {
        let span = Span::new(self.start, self.current, self.line, self.start_column);
        self.tokens.push(SpannedToken::new(token, span));
        assert(lexemes_of(self.tokens@) =~= lexemes_of(old(self).tokens@).push(
            Lexeme {
                kind: token.kind(),
                text: token.payload(),
                start: old(self).start as int,
                end: old(self).current as int,
                line: old(self).line as int,
                column: old(self).start_column as int,
            },
        ));
    }

    fn error(&self, message: String) -> (e: CompileError)
        requires
            self.wf(),
            is_scan_message(message@),
        ensures
            scan_error_ok(e, self.source@.len()),
            e.message == message,
            e.span == (Span {
                start: self.start,
                end: self.current,
                line: self.line,
                column: self.start_column,
            }),
    {
        CompileError::error(
            message,
            Span::new(self.start, self.current, self.line, self.start_column),
        )
    }
}

pub fn chars_of(source: &str) -> (r: Vec<char>)
    ensures
        r@ == source@,
{
    broadcast use vstd::string::group_string_axioms;
    let mut v: Vec<char> = Vec::new();
    for c in iter: source.chars()
        invariant
            v@ == iter.seq().take(iter.index() as int),
            iter.seq() == source@,
    {
        v.push(c);
    }
    v
}

} // verus!
