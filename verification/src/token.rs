use vstd::prelude::*;
use crate::text::{decimal, push_char, u64_to_decimal};

verus! {

/// The kind of a token, without its payload.
#[derive(Debug, Clone, Copy, PartialEq, Eq, Structural)]
pub enum TokenKind {
    Int,
    Float,
    Str,
    Char,
    Ident,
    Fn,
    Struct,
    Enum,
    Match,
    Let,
    Mut,
    If,
    Else,
    Elif,
    For,
    In,
    While,
    Return,
    Break,
    Continue,
    Import,
    True,
    False,
    LParen,
    RParen,
    LBrace,
    RBrace,
    LBracket,
    RBracket,
    Comma,
    Colon,
    PathSep,
    Semi,
    Slash,
    Plus,
    Minus,
    Arrow,
    Star,
    Percent,
    Dot,
    DotDot,
    Equal,
    EqualEqual,
    FatArrow,
    Bang,
    BangEqual,
    Less,
    LessEqual,
    Greater,
    GreaterEqual,
    AmpAmp,
    BarBar,
    Eof,
}

/// A lexical token. A float literal keeps its source text (digits with one
/// dot); string and identifier tokens keep their characters.
#[derive(Debug, Clone)]
pub enum Token {
    Int(i64),
    Float(String),
    String(String),
    Char(char),
    Ident(String),
    Fn,
    Struct,
    Enum,
    Match,
    Let,
    Mut,
    If,
    Else,
    Elif,
    For,
    In,
    While,
    Return,
    Break,
    Continue,
    Import,
    True,
    False,
    LParen,
    RParen,
    LBrace,
    RBrace,
    LBracket,
    RBracket,
    Comma,
    Colon,
    PathSep,
    Semi,
    Slash,
    Plus,
    Minus,
    Arrow,
    Star,
    Percent,
    Dot,
    DotDot,
    Equal,
    EqualEqual,
    FatArrow,
    Bang,
    BangEqual,
    Less,
    LessEqual,
    Greater,
    GreaterEqual,
    AmpAmp,
    BarBar,
    Eof,
}

/// A token seen as its kind and payload: `text` holds the characters of a
/// float, string or identifier token, `int` the value of an integer token
/// and `ch` the character of a char token; unused parts are empty, 0 and
/// `'\0'`.
pub struct TokenView {
    pub kind: TokenKind,
    pub text: Seq<char>,
    pub int: i64,
    pub ch: char,
}

/// A token without payload.
pub open spec fn plain(kind: TokenKind) -> TokenView {
    TokenView { kind, text: Seq::empty(), int: 0, ch: '\0' }
}

/// A token whose payload is text.
pub open spec fn with_text(kind: TokenKind, text: Seq<char>) -> TokenView {
    TokenView { kind, text, int: 0, ch: '\0' }
}

/// An integer token.
pub open spec fn int_token(v: i64) -> TokenView {
    TokenView { kind: TokenKind::Int, text: Seq::empty(), int: v, ch: '\0' }
}

/// A char token.
pub open spec fn char_token(c: char) -> TokenView {
    TokenView { kind: TokenKind::Char, text: Seq::empty(), int: 0, ch: c }
}

impl View for Token {
    type V = TokenView;

    open spec fn view(&self) -> TokenView {
        match self {
            Token::Int(v) => int_token(*v),
            Token::Float(s) => with_text(TokenKind::Float, s@),
            Token::String(s) => with_text(TokenKind::Str, s@),
            Token::Char(c) => char_token(*c),
            Token::Ident(s) => with_text(TokenKind::Ident, s@),
            Token::Fn => plain(TokenKind::Fn),
            Token::Struct => plain(TokenKind::Struct),
            Token::Enum => plain(TokenKind::Enum),
            Token::Match => plain(TokenKind::Match),
            Token::Let => plain(TokenKind::Let),
            Token::Mut => plain(TokenKind::Mut),
            Token::If => plain(TokenKind::If),
            Token::Else => plain(TokenKind::Else),
            Token::Elif => plain(TokenKind::Elif),
            Token::For => plain(TokenKind::For),
            Token::In => plain(TokenKind::In),
            Token::While => plain(TokenKind::While),
            Token::Return => plain(TokenKind::Return),
            Token::Break => plain(TokenKind::Break),
            Token::Continue => plain(TokenKind::Continue),
            Token::Import => plain(TokenKind::Import),
            Token::True => plain(TokenKind::True),
            Token::False => plain(TokenKind::False),
            Token::LParen => plain(TokenKind::LParen),
            Token::RParen => plain(TokenKind::RParen),
            Token::LBrace => plain(TokenKind::LBrace),
            Token::RBrace => plain(TokenKind::RBrace),
            Token::LBracket => plain(TokenKind::LBracket),
            Token::RBracket => plain(TokenKind::RBracket),
            Token::Comma => plain(TokenKind::Comma),
            Token::Colon => plain(TokenKind::Colon),
            Token::PathSep => plain(TokenKind::PathSep),
            Token::Semi => plain(TokenKind::Semi),
            Token::Slash => plain(TokenKind::Slash),
            Token::Plus => plain(TokenKind::Plus),
            Token::Minus => plain(TokenKind::Minus),
            Token::Arrow => plain(TokenKind::Arrow),
            Token::Star => plain(TokenKind::Star),
            Token::Percent => plain(TokenKind::Percent),
            Token::Dot => plain(TokenKind::Dot),
            Token::DotDot => plain(TokenKind::DotDot),
            Token::Equal => plain(TokenKind::Equal),
            Token::EqualEqual => plain(TokenKind::EqualEqual),
            Token::FatArrow => plain(TokenKind::FatArrow),
            Token::Bang => plain(TokenKind::Bang),
            Token::BangEqual => plain(TokenKind::BangEqual),
            Token::Less => plain(TokenKind::Less),
            Token::LessEqual => plain(TokenKind::LessEqual),
            Token::Greater => plain(TokenKind::Greater),
            Token::GreaterEqual => plain(TokenKind::GreaterEqual),
            Token::AmpAmp => plain(TokenKind::AmpAmp),
            Token::BarBar => plain(TokenKind::BarBar),
            Token::Eof => plain(TokenKind::Eof),
        }
    }
}

/// A token with the line and column (from 1) of its first character.
#[derive(Debug, Clone)]
pub struct SpannedToken {
    pub token: Token,
    pub line: usize,
    pub column: usize,
}

pub struct SpannedTokenView {
    pub token: TokenView,
    pub line: usize,
    pub column: usize,
}

impl View for SpannedToken {
    type V = SpannedTokenView;

    open spec fn view(&self) -> SpannedTokenView {
        SpannedTokenView { token: self.token@, line: self.line, column: self.column }
    }
}

/// The fixed spelling of a token kind: its keyword or symbol. Kinds with a
/// payload are spelled by `token_text` instead.
pub open spec fn kind_text(k: TokenKind) -> Seq<char> {
    match k {
        TokenKind::Fn => "fn"@,
        TokenKind::Struct => "struct"@,
        TokenKind::Enum => "enum"@,
        TokenKind::Match => "match"@,
        TokenKind::Let => "let"@,
        TokenKind::Mut => "mut"@,
        TokenKind::If => "if"@,
        TokenKind::Else => "else"@,
        TokenKind::Elif => "elif"@,
        TokenKind::For => "for"@,
        TokenKind::In => "in"@,
        TokenKind::While => "while"@,
        TokenKind::Return => "return"@,
        TokenKind::Break => "break"@,
        TokenKind::Continue => "continue"@,
        TokenKind::Import => "import"@,
        TokenKind::True => "true"@,
        TokenKind::False => "false"@,
        TokenKind::LParen => "("@,
        TokenKind::RParen => ")"@,
        TokenKind::LBrace => "{"@,
        TokenKind::RBrace => "}"@,
        TokenKind::LBracket => "["@,
        TokenKind::RBracket => "]"@,
        TokenKind::Comma => ","@,
        TokenKind::Colon => ":"@,
        TokenKind::PathSep => "::"@,
        TokenKind::Semi => ";"@,
        TokenKind::Slash => "/"@,
        TokenKind::Plus => "+"@,
        TokenKind::Minus => "-"@,
        TokenKind::Arrow => "->"@,
        TokenKind::Star => "*"@,
        TokenKind::Percent => "%"@,
        TokenKind::Dot => "."@,
        TokenKind::DotDot => ".."@,
        TokenKind::Equal => "="@,
        TokenKind::EqualEqual => "=="@,
        TokenKind::FatArrow => "=>"@,
        TokenKind::Bang => "!"@,
        TokenKind::BangEqual => "!="@,
        TokenKind::Less => "<"@,
        TokenKind::LessEqual => "<="@,
        TokenKind::Greater => ">"@,
        TokenKind::GreaterEqual => ">="@,
        TokenKind::AmpAmp => "&&"@,
        TokenKind::BarBar => "||"@,
        TokenKind::Eof => "end of input"@,
        TokenKind::Int => "integer"@,
        TokenKind::Float => "float"@,
        TokenKind::Str => "string"@,
        TokenKind::Char => "char"@,
        TokenKind::Ident => "identifier"@,
    }
}

/// How a token is written in a diagnostic: integers in decimal (with a
/// leading `-` when negative), floats and identifiers as their text,
/// strings and chars in their quotes, everything else by `kind_text`.
pub open spec fn token_text(t: TokenView) -> Seq<char> {
    match t.kind {
        TokenKind::Int => if t.int < 0 {
            seq!['-'] + decimal((-(t.int as int)) as nat)
        } else {
            decimal(t.int as nat)
        },
        TokenKind::Float => t.text,
        TokenKind::Ident => t.text,
        TokenKind::Str => seq!['"'] + t.text + seq!['"'],
        TokenKind::Char => seq!['\'', t.ch, '\''],
        _ => kind_text(t.kind),
    }
}

impl TokenKind {
    /// The fixed spelling of this kind (see `kind_text`).
    pub fn text(&self) -> (s: &'static str)
        ensures
            s@ == kind_text(*self),
    {
        match self {
            TokenKind::Fn => "fn",
            TokenKind::Struct => "struct",
            TokenKind::Enum => "enum",
            TokenKind::Match => "match",
            TokenKind::Let => "let",
            TokenKind::Mut => "mut",
            TokenKind::If => "if",
            TokenKind::Else => "else",
            TokenKind::Elif => "elif",
            TokenKind::For => "for",
            TokenKind::In => "in",
            TokenKind::While => "while",
            TokenKind::Return => "return",
            TokenKind::Break => "break",
            TokenKind::Continue => "continue",
            TokenKind::Import => "import",
            TokenKind::True => "true",
            TokenKind::False => "false",
            TokenKind::LParen => "(",
            TokenKind::RParen => ")",
            TokenKind::LBrace => "{",
            TokenKind::RBrace => "}",
            TokenKind::LBracket => "[",
            TokenKind::RBracket => "]",
            TokenKind::Comma => ",",
            TokenKind::Colon => ":",
            TokenKind::PathSep => "::",
            TokenKind::Semi => ";",
            TokenKind::Slash => "/",
            TokenKind::Plus => "+",
            TokenKind::Minus => "-",
            TokenKind::Arrow => "->",
            TokenKind::Star => "*",
            TokenKind::Percent => "%",
            TokenKind::Dot => ".",
            TokenKind::DotDot => "..",
            TokenKind::Equal => "=",
            TokenKind::EqualEqual => "==",
            TokenKind::FatArrow => "=>",
            TokenKind::Bang => "!",
            TokenKind::BangEqual => "!=",
            TokenKind::Less => "<",
            TokenKind::LessEqual => "<=",
            TokenKind::Greater => ">",
            TokenKind::GreaterEqual => ">=",
            TokenKind::AmpAmp => "&&",
            TokenKind::BarBar => "||",
            TokenKind::Eof => "end of input",
            TokenKind::Int => "integer",
            TokenKind::Float => "float",
            TokenKind::Str => "string",
            TokenKind::Char => "char",
            TokenKind::Ident => "identifier",
        }
    }
}

impl Token {
    /// The kind of this token.
    pub fn kind(&self) -> (k: TokenKind)
        ensures
            k == self@.kind,
    {
        match self {
            Token::Int(_) => TokenKind::Int,
            Token::Float(_) => TokenKind::Float,
            Token::String(_) => TokenKind::Str,
            Token::Char(_) => TokenKind::Char,
            Token::Ident(_) => TokenKind::Ident,
            Token::Fn => TokenKind::Fn,
            Token::Struct => TokenKind::Struct,
            Token::Enum => TokenKind::Enum,
            Token::Match => TokenKind::Match,
            Token::Let => TokenKind::Let,
            Token::Mut => TokenKind::Mut,
            Token::If => TokenKind::If,
            Token::Else => TokenKind::Else,
            Token::Elif => TokenKind::Elif,
            Token::For => TokenKind::For,
            Token::In => TokenKind::In,
            Token::While => TokenKind::While,
            Token::Return => TokenKind::Return,
            Token::Break => TokenKind::Break,
            Token::Continue => TokenKind::Continue,
            Token::Import => TokenKind::Import,
            Token::True => TokenKind::True,
            Token::False => TokenKind::False,
            Token::LParen => TokenKind::LParen,
            Token::RParen => TokenKind::RParen,
            Token::LBrace => TokenKind::LBrace,
            Token::RBrace => TokenKind::RBrace,
            Token::LBracket => TokenKind::LBracket,
            Token::RBracket => TokenKind::RBracket,
            Token::Comma => TokenKind::Comma,
            Token::Colon => TokenKind::Colon,
            Token::PathSep => TokenKind::PathSep,
            Token::Semi => TokenKind::Semi,
            Token::Slash => TokenKind::Slash,
            Token::Plus => TokenKind::Plus,
            Token::Minus => TokenKind::Minus,
            Token::Arrow => TokenKind::Arrow,
            Token::Star => TokenKind::Star,
            Token::Percent => TokenKind::Percent,
            Token::Dot => TokenKind::Dot,
            Token::DotDot => TokenKind::DotDot,
            Token::Equal => TokenKind::Equal,
            Token::EqualEqual => TokenKind::EqualEqual,
            Token::FatArrow => TokenKind::FatArrow,
            Token::Bang => TokenKind::Bang,
            Token::BangEqual => TokenKind::BangEqual,
            Token::Less => TokenKind::Less,
            Token::LessEqual => TokenKind::LessEqual,
            Token::Greater => TokenKind::Greater,
            Token::GreaterEqual => TokenKind::GreaterEqual,
            Token::AmpAmp => TokenKind::AmpAmp,
            Token::BarBar => TokenKind::BarBar,
            Token::Eof => TokenKind::Eof,
        }
    }

    /// The token as written in a diagnostic (see `token_text`).
    pub fn describe(&self) -> (s: String)
        ensures
            s@ == token_text(self@),
    {
        match self {
            Token::Int(v) => {
                if *v < 0 {
                    let mut s = String::new();
                    push_char(&mut s, '-');
                    let magnitude: u64 = if *v == i64::MIN {
                        9223372036854775808u64
                    } else {
                        (-*v) as u64
                    };
                    s.append(u64_to_decimal(magnitude).as_str());
                    s
                } else {
                    u64_to_decimal(*v as u64)
                }
            },
            Token::Float(t) => t.clone(),
            Token::Ident(t) => t.clone(),
            Token::String(t) => {
                let mut s = String::new();
                push_char(&mut s, '"');
                s.append(t.as_str());
                push_char(&mut s, '"');
                s
            },
            Token::Char(c) => {
                let mut s = String::new();
                push_char(&mut s, '\'');
                push_char(&mut s, *c);
                push_char(&mut s, '\'');
                s
            },
            _ => self.kind().text().to_owned(),
        }
    }
}

} // verus!
