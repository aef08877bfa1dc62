//! Tokens produced by the scanner.
use vstd::prelude::*;

verus! {

/// A lexical token. A numeric literal keeps the text it was written with
/// (digits, optionally followed by `.` and digits).
#[derive(Debug, Clone)]
pub enum Token {
    // Literals
    Number(String),
    String(String),
    True,
    False,
    Null,
    Undefined,

    // Identifier
    Identifier(String),

    // Keywords
    Let,
    Const,
    Var,
    Function,
    Return,
    If,
    Else,
    While,
    For,
    Of,
    In,
    Break,
    Continue,
    Do,
    Switch,
    Case,
    Default,
    Void,
    Import,
    Export,
    From,
    As,
    Typeof,
    Class,
    New,
    This,
    Extends,
    Super,
    Interface,
    Enum,
    Constructor,
    Async,
    Await,
    Throw,
    Try,
    Catch,
    Finally,

    // Type keywords (used in annotations)
    NumberType,
    StringType,
    BooleanType,

    // Operators
    Plus,
    Minus,
    Star,
    StarStar,
    Slash,
    Percent,
    Assign,
    PlusEqual,
    MinusEqual,
    StarEqual,
    SlashEqual,
    PercentEqual,
    EqualEqual,
    EqualEqualEqual,
    BangEqual,
    BangEqualEqual,
    Less,
    Greater,
    LessEqual,
    GreaterEqual,
    AmpersandAmpersand,
    PipePipe,
    Bang,
    PlusPlus,
    MinusMinus,
    Ampersand,
    Pipe,
    Question,
    QuestionQuestion,
    QuestionDot,

    // Punctuation
    LeftParen,
    RightParen,
    LeftBrace,
    RightBrace,
    LeftBracket,
    RightBracket,
    Colon,
    Semicolon,
    Comma,
    Dot,
    Arrow,
    Ellipsis,

    // Special
    Eof,
}

/// Location of a token or syntax node in the source text.
#[derive(Debug, Clone, Copy, PartialEq, Eq, Structural)]
pub struct Span {
    pub start: usize,
    pub end: usize,
    pub line: usize,
    pub column: usize,
}

impl Span {
    pub fn new(start: usize, end: usize, line: usize, column: usize) -> (r: Self)
        ensures
            r.start == start,
            r.end == end,
            r.line == line,
            r.column == column,
    {
        Self { start, end, line, column }
    }
}

#[derive(Debug, Clone)]
pub struct SpannedToken {
    pub token: Token,
    pub span: Span,
}

impl SpannedToken {
    pub fn new(token: Token, span: Span) -> (r: Self)
        ensures
            r.token == token,
            r.span == span,
    {
        Self { token, span }
    }
}

impl Token {
    /// The token's variant, ignoring any payload: two tokens are of the same
    /// kind exactly when their variants agree.
    pub open spec fn kind(self) -> nat {
        match self {
            Token::Number(_) => 0,
            Token::String(_) => 1,
            Token::True => 2,
            Token::False => 3,
            Token::Null => 4,
            Token::Undefined => 5,
            Token::Identifier(_) => 6,
            Token::Let => 7,
            Token::Const => 8,
            Token::Var => 9,
            Token::Function => 10,
            Token::Return => 11,
            Token::If => 12,
            Token::Else => 13,
            Token::While => 14,
            Token::For => 15,
            Token::Of => 16,
            Token::In => 17,
            Token::Break => 18,
            Token::Continue => 19,
            Token::Do => 20,
            Token::Switch => 21,
            Token::Case => 22,
            Token::Default => 23,
            Token::Void => 24,
            Token::Import => 25,
            Token::Export => 26,
            Token::From => 27,
            Token::As => 28,
            Token::Typeof => 29,
            Token::Class => 30,
            Token::New => 31,
            Token::This => 32,
            Token::Extends => 33,
            Token::Super => 34,
            Token::Interface => 35,
            Token::Enum => 36,
            Token::Constructor => 37,
            Token::Async => 38,
            Token::Await => 39,
            Token::Throw => 40,
            Token::Try => 41,
            Token::Catch => 42,
            Token::Finally => 43,
            Token::NumberType => 44,
            Token::StringType => 45,
            Token::BooleanType => 46,
            Token::Plus => 47,
            Token::Minus => 48,
            Token::Star => 49,
            Token::StarStar => 50,
            Token::Slash => 51,
            Token::Percent => 52,
            Token::Assign => 53,
            Token::PlusEqual => 54,
            Token::MinusEqual => 55,
            Token::StarEqual => 56,
            Token::SlashEqual => 57,
            Token::PercentEqual => 58,
            Token::EqualEqual => 59,
            Token::EqualEqualEqual => 60,
            Token::BangEqual => 61,
            Token::BangEqualEqual => 62,
            Token::Less => 63,
            Token::Greater => 64,
            Token::LessEqual => 65,
            Token::GreaterEqual => 66,
            Token::AmpersandAmpersand => 67,
            Token::PipePipe => 68,
            Token::Bang => 69,
            Token::PlusPlus => 70,
            Token::MinusMinus => 71,
            Token::Ampersand => 72,
            Token::Pipe => 73,
            Token::Question => 74,
            Token::QuestionQuestion => 75,
            Token::QuestionDot => 76,
            Token::LeftParen => 77,
            Token::RightParen => 78,
            Token::LeftBrace => 79,
            Token::RightBrace => 80,
            Token::LeftBracket => 81,
            Token::RightBracket => 82,
            Token::Colon => 83,
            Token::Semicolon => 84,
            Token::Comma => 85,
            Token::Dot => 86,
            Token::Arrow => 87,
            Token::Ellipsis => 88,
            Token::Eof => 89,
        }
    }

    /// The text a token carries: the spelling of a number or identifier, the
    /// value of a string; nothing for the other tokens.
    pub open spec fn payload(self) -> Seq<char> {
        match self {
            Token::Number(s) => s@,
            Token::String(s) => s@,
            Token::Identifier(s) => s@,
            _ => Seq::empty(),
        }
    }

    /// Executable form of `kind`.
    pub fn kind_code(&self) -> (r: u8)
        ensures
            r as nat == self.kind(),
    {
        match self {
            Token::Number(_) => 0,
            Token::String(_) => 1,
            Token::True => 2,
            Token::False => 3,
            Token::Null => 4,
            Token::Undefined => 5,
            Token::Identifier(_) => 6,
            Token::Let => 7,
            Token::Const => 8,
            Token::Var => 9,
            Token::Function => 10,
            Token::Return => 11,
            Token::If => 12,
            Token::Else => 13,
            Token::While => 14,
            Token::For => 15,
            Token::Of => 16,
            Token::In => 17,
            Token::Break => 18,
            Token::Continue => 19,
            Token::Do => 20,
            Token::Switch => 21,
            Token::Case => 22,
            Token::Default => 23,
            Token::Void => 24,
            Token::Import => 25,
            Token::Export => 26,
            Token::From => 27,
            Token::As => 28,
            Token::Typeof => 29,
            Token::Class => 30,
            Token::New => 31,
            Token::This => 32,
            Token::Extends => 33,
            Token::Super => 34,
            Token::Interface => 35,
            Token::Enum => 36,
            Token::Constructor => 37,
            Token::Async => 38,
            Token::Await => 39,
            Token::Throw => 40,
            Token::Try => 41,
            Token::Catch => 42,
            Token::Finally => 43,
            Token::NumberType => 44,
            Token::StringType => 45,
            Token::BooleanType => 46,
            Token::Plus => 47,
            Token::Minus => 48,
            Token::Star => 49,
            Token::StarStar => 50,
            Token::Slash => 51,
            Token::Percent => 52,
            Token::Assign => 53,
            Token::PlusEqual => 54,
            Token::MinusEqual => 55,
            Token::StarEqual => 56,
            Token::SlashEqual => 57,
            Token::PercentEqual => 58,
            Token::EqualEqual => 59,
            Token::EqualEqualEqual => 60,
            Token::BangEqual => 61,
            Token::BangEqualEqual => 62,
            Token::Less => 63,
            Token::Greater => 64,
            Token::LessEqual => 65,
            Token::GreaterEqual => 66,
            Token::AmpersandAmpersand => 67,
            Token::PipePipe => 68,
            Token::Bang => 69,
            Token::PlusPlus => 70,
            Token::MinusMinus => 71,
            Token::Ampersand => 72,
            Token::Pipe => 73,
            Token::Question => 74,
            Token::QuestionQuestion => 75,
            Token::QuestionDot => 76,
            Token::LeftParen => 77,
            Token::RightParen => 78,
            Token::LeftBrace => 79,
            Token::RightBrace => 80,
            Token::LeftBracket => 81,
            Token::RightBracket => 82,
            Token::Colon => 83,
            Token::Semicolon => 84,
            Token::Comma => 85,
            Token::Dot => 86,
            Token::Arrow => 87,
            Token::Ellipsis => 88,
            Token::Eof => 89,
        }
    }

    /// Whether two tokens are of the same variant.
    pub fn same_kind(&self, other: &Token) -> (r: bool)
        ensures
            r == (self.kind() == other.kind()),
    {
        self.kind_code() == other.kind_code()
    }

    /// A copy of this token.
    pub fn duplicate(&self) -> (r: Token)
        ensures
            r == *self,
    {
        match self {
            Token::Number(s) => Token::Number(s.clone()),
            Token::String(s) => Token::String(s.clone()),
            Token::Identifier(s) => Token::Identifier(s.clone()),
            Token::True => Token::True,
            Token::False => Token::False,
            Token::Null => Token::Null,
            Token::Undefined => Token::Undefined,
            Token::Let => Token::Let,
            Token::Const => Token::Const,
            Token::Var => Token::Var,
            Token::Function => Token::Function,
            Token::Return => Token::Return,
            Token::If => Token::If,
            Token::Else => Token::Else,
            Token::While => Token::While,
            Token::For => Token::For,
            Token::Of => Token::Of,
            Token::In => Token::In,
            Token::Break => Token::Break,
            Token::Continue => Token::Continue,
            Token::Do => Token::Do,
            Token::Switch => Token::Switch,
            Token::Case => Token::Case,
            Token::Default => Token::Default,
            Token::Void => Token::Void,
            Token::Import => Token::Import,
            Token::Export => Token::Export,
            Token::From => Token::From,
            Token::As => Token::As,
            Token::Typeof => Token::Typeof,
            Token::Class => Token::Class,
            Token::New => Token::New,
            Token::This => Token::This,
            Token::Extends => Token::Extends,
            Token::Super => Token::Super,
            Token::Interface => Token::Interface,
            Token::Enum => Token::Enum,
            Token::Constructor => Token::Constructor,
            Token::Async => Token::Async,
            Token::Await => Token::Await,
            Token::Throw => Token::Throw,
            Token::Try => Token::Try,
            Token::Catch => Token::Catch,
            Token::Finally => Token::Finally,
            Token::NumberType => Token::NumberType,
            Token::StringType => Token::StringType,
            Token::BooleanType => Token::BooleanType,
            Token::Plus => Token::Plus,
            Token::Minus => Token::Minus,
            Token::Star => Token::Star,
            Token::StarStar => Token::StarStar,
            Token::Slash => Token::Slash,
            Token::Percent => Token::Percent,
            Token::Assign => Token::Assign,
            Token::PlusEqual => Token::PlusEqual,
            Token::MinusEqual => Token::MinusEqual,
            Token::StarEqual => Token::StarEqual,
            Token::SlashEqual => Token::SlashEqual,
            Token::PercentEqual => Token::PercentEqual,
            Token::EqualEqual => Token::EqualEqual,
            Token::EqualEqualEqual => Token::EqualEqualEqual,
            Token::BangEqual => Token::BangEqual,
            Token::BangEqualEqual => Token::BangEqualEqual,
            Token::Less => Token::Less,
            Token::Greater => Token::Greater,
            Token::LessEqual => Token::LessEqual,
            Token::GreaterEqual => Token::GreaterEqual,
            Token::AmpersandAmpersand => Token::AmpersandAmpersand,
            Token::PipePipe => Token::PipePipe,
            Token::Bang => Token::Bang,
            Token::PlusPlus => Token::PlusPlus,
            Token::MinusMinus => Token::MinusMinus,
            Token::Ampersand => Token::Ampersand,
            Token::Pipe => Token::Pipe,
            Token::Question => Token::Question,
            Token::QuestionQuestion => Token::QuestionQuestion,
            Token::QuestionDot => Token::QuestionDot,
            Token::LeftParen => Token::LeftParen,
            Token::RightParen => Token::RightParen,
            Token::LeftBrace => Token::LeftBrace,
            Token::RightBrace => Token::RightBrace,
            Token::LeftBracket => Token::LeftBracket,
            Token::RightBracket => Token::RightBracket,
            Token::Colon => Token::Colon,
            Token::Semicolon => Token::Semicolon,
            Token::Comma => Token::Comma,
            Token::Dot => Token::Dot,
            Token::Arrow => Token::Arrow,
            Token::Ellipsis => Token::Ellipsis,
            Token::Eof => Token::Eof,
        }
    }
}

} // verus!
