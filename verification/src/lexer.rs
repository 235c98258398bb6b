//! The lexer: turns source text into tokens, inserting statement-ending
//! semicolons at line breaks that follow a token able to end a statement.

use vstd::prelude::*;
use crate::diagnostics::Span;
use crate::text::{
    append_chars, append_str, chars_of, chars_eq, debug_str, decimal_i64, is_alphabetic,
    is_alphanumeric, is_ascii_digit, is_ascii_hexdigit, is_whitespace, next_newline,
    owned, spec_debug_str, spec_decimal_int, spec_is_alphabetic, spec_is_alphanumeric,
    spec_is_ascii_digit, spec_is_ascii_hexdigit, spec_is_whitespace, string_of,
    lemma_next_newline_bounds,
};

verus! {

#[derive(Debug, Clone, PartialEq)]
pub enum TokenKind {
    // Keywords
    Module,
    Use,
    As,
    Pub,
    Fn,
    Struct,
    Enum,
    Impl,
    Let,
    Mut,
    Return,
    Raw,
    If,
    Else,
    Match,
    For,
    In,
    While,
    Comptime,
    Where,
    // Literals
    Ident(String),
    /// value, suffix (e.g. "u32")
    Int(i64, Option<String>),
    /// literal text (digits, one `.`, optional exponent), suffix
    Float(String, Option<String>),
    Str(String),
    Bool(bool),
    // Operators and punctuation
    Plus,
    Minus,
    Star,
    Slash,
    Eq,
    EqEq,
    Ne,
    Lt,
    Gt,
    Le,
    Ge,
    Amp,
    AmpAmp,
    PipePipe,
    Bang,
    Arrow,
    FatArrow,
    TryOp,
    Comma,
    Colon,
    ColonColon,
    LParen,
    RParen,
    LBrace,
    RBrace,
    LBracket,
    RBracket,
    Dot,
    Semicolon,
    Newline,
    EOF,
}

/// The mathematical model of a token kind: strings become character sequences.
pub enum KindV {
    Module,
    Use,
    As,
    Pub,
    Fn,
    Struct,
    Enum,
    Impl,
    Let,
    Mut,
    Return,
    Raw,
    If,
    Else,
    Match,
    For,
    In,
    While,
    Comptime,
    Where,
    Ident(Seq<char>),
    Int(i64, Option<Seq<char>>),
    Float(Seq<char>, Option<Seq<char>>),
    Str(Seq<char>),
    Bool(bool),
    Plus,
    Minus,
    Star,
    Slash,
    Eq,
    EqEq,
    Ne,
    Lt,
    Gt,
    Le,
    Ge,
    Amp,
    AmpAmp,
    PipePipe,
    Bang,
    Arrow,
    FatArrow,
    TryOp,
    Comma,
    Colon,
    ColonColon,
    LParen,
    RParen,
    LBrace,
    RBrace,
    LBracket,
    RBracket,
    Dot,
    Semicolon,
    Newline,
    EOF,
}

pub open spec fn opt_view(o: Option<String>) -> Option<Seq<char>> {
    match o { Some(s) => Some(s@), None => None }
}

impl View for TokenKind {
    type V = KindV;
    open spec fn view(&self) -> KindV {
        match self {
            TokenKind::Module => KindV::Module,
            TokenKind::Use => KindV::Use,
            TokenKind::As => KindV::As,
            TokenKind::Pub => KindV::Pub,
            TokenKind::Fn => KindV::Fn,
            TokenKind::Struct => KindV::Struct,
            TokenKind::Enum => KindV::Enum,
            TokenKind::Impl => KindV::Impl,
            TokenKind::Let => KindV::Let,
            TokenKind::Mut => KindV::Mut,
            TokenKind::Return => KindV::Return,
            TokenKind::Raw => KindV::Raw,
            TokenKind::If => KindV::If,
            TokenKind::Else => KindV::Else,
            TokenKind::Match => KindV::Match,
            TokenKind::For => KindV::For,
            TokenKind::In => KindV::In,
            TokenKind::While => KindV::While,
            TokenKind::Comptime => KindV::Comptime,
            TokenKind::Where => KindV::Where,
            TokenKind::Ident(s) => KindV::Ident(s@),
            TokenKind::Int(v, sf) => KindV::Int(*v, opt_view(*sf)),
            TokenKind::Float(t, sf) => KindV::Float(t@, opt_view(*sf)),
            TokenKind::Str(s) => KindV::Str(s@),
            TokenKind::Bool(b) => KindV::Bool(*b),
            TokenKind::Plus => KindV::Plus,
            TokenKind::Minus => KindV::Minus,
            TokenKind::Star => KindV::Star,
            TokenKind::Slash => KindV::Slash,
            TokenKind::Eq => KindV::Eq,
            TokenKind::EqEq => KindV::EqEq,
            TokenKind::Ne => KindV::Ne,
            TokenKind::Lt => KindV::Lt,
            TokenKind::Gt => KindV::Gt,
            TokenKind::Le => KindV::Le,
            TokenKind::Ge => KindV::Ge,
            TokenKind::Amp => KindV::Amp,
            TokenKind::AmpAmp => KindV::AmpAmp,
            TokenKind::PipePipe => KindV::PipePipe,
            TokenKind::Bang => KindV::Bang,
            TokenKind::Arrow => KindV::Arrow,
            TokenKind::FatArrow => KindV::FatArrow,
            TokenKind::TryOp => KindV::TryOp,
            TokenKind::Comma => KindV::Comma,
            TokenKind::Colon => KindV::Colon,
            TokenKind::ColonColon => KindV::ColonColon,
            TokenKind::LParen => KindV::LParen,
            TokenKind::RParen => KindV::RParen,
            TokenKind::LBrace => KindV::LBrace,
            TokenKind::RBrace => KindV::RBrace,
            TokenKind::LBracket => KindV::LBracket,
            TokenKind::RBracket => KindV::RBracket,
            TokenKind::Dot => KindV::Dot,
            TokenKind::Semicolon => KindV::Semicolon,
            TokenKind::Newline => KindV::Newline,
            TokenKind::EOF => KindV::EOF,
        }
    }
}

/// The variant of a token kind, as a number (the discriminant).
pub open spec fn disc(k: KindV) -> nat {
    match k {
        KindV::Module => 0,
        KindV::Use => 1,
        KindV::As => 2,
        KindV::Pub => 3,
        KindV::Fn => 4,
        KindV::Struct => 5,
        KindV::Enum => 6,
        KindV::Impl => 7,
        KindV::Let => 8,
        KindV::Mut => 9,
        KindV::Return => 10,
        KindV::Raw => 11,
        KindV::If => 12,
        KindV::Else => 13,
        KindV::Match => 14,
        KindV::For => 15,
        KindV::In => 16,
        KindV::While => 17,
        KindV::Comptime => 18,
        KindV::Where => 19,
        KindV::Ident(_) => 20,
        KindV::Int(_, _) => 21,
        KindV::Float(_, _) => 22,
        KindV::Str(_) => 23,
        KindV::Bool(_) => 24,
        KindV::Plus => 25,
        KindV::Minus => 26,
        KindV::Star => 27,
        KindV::Slash => 28,
        KindV::Eq => 29,
        KindV::EqEq => 30,
        KindV::Ne => 31,
        KindV::Lt => 32,
        KindV::Gt => 33,
        KindV::Le => 34,
        KindV::Ge => 35,
        KindV::Amp => 36,
        KindV::AmpAmp => 37,
        KindV::PipePipe => 38,
        KindV::Bang => 39,
        KindV::Arrow => 40,
        KindV::FatArrow => 41,
        KindV::TryOp => 42,
        KindV::Comma => 43,
        KindV::Colon => 44,
        KindV::ColonColon => 45,
        KindV::LParen => 46,
        KindV::RParen => 47,
        KindV::LBrace => 48,
        KindV::RBrace => 49,
        KindV::LBracket => 50,
        KindV::RBracket => 51,
        KindV::Dot => 52,
        KindV::Semicolon => 53,
        KindV::Newline => 54,
        KindV::EOF => 55,
    }
}

impl TokenKind {
    /// The variant number of this kind.
    pub fn variant(&self) -> (r: u8)
        ensures
            r as nat == disc(self@),
    {
        match self {
            TokenKind::Module => 0,
            TokenKind::Use => 1,
            TokenKind::As => 2,
            TokenKind::Pub => 3,
            TokenKind::Fn => 4,
            TokenKind::Struct => 5,
            TokenKind::Enum => 6,
            TokenKind::Impl => 7,
            TokenKind::Let => 8,
            TokenKind::Mut => 9,
            TokenKind::Return => 10,
            TokenKind::Raw => 11,
            TokenKind::If => 12,
            TokenKind::Else => 13,
            TokenKind::Match => 14,
            TokenKind::For => 15,
            TokenKind::In => 16,
            TokenKind::While => 17,
            TokenKind::Comptime => 18,
            TokenKind::Where => 19,
            TokenKind::Ident(_) => 20,
            TokenKind::Int(_, _) => 21,
            TokenKind::Float(_, _) => 22,
            TokenKind::Str(_) => 23,
            TokenKind::Bool(_) => 24,
            TokenKind::Plus => 25,
            TokenKind::Minus => 26,
            TokenKind::Star => 27,
            TokenKind::Slash => 28,
            TokenKind::Eq => 29,
            TokenKind::EqEq => 30,
            TokenKind::Ne => 31,
            TokenKind::Lt => 32,
            TokenKind::Gt => 33,
            TokenKind::Le => 34,
            TokenKind::Ge => 35,
            TokenKind::Amp => 36,
            TokenKind::AmpAmp => 37,
            TokenKind::PipePipe => 38,
            TokenKind::Bang => 39,
            TokenKind::Arrow => 40,
            TokenKind::FatArrow => 41,
            TokenKind::TryOp => 42,
            TokenKind::Comma => 43,
            TokenKind::Colon => 44,
            TokenKind::ColonColon => 45,
            TokenKind::LParen => 46,
            TokenKind::RParen => 47,
            TokenKind::LBrace => 48,
            TokenKind::RBrace => 49,
            TokenKind::LBracket => 50,
            TokenKind::RBracket => 51,
            TokenKind::Dot => 52,
            TokenKind::Semicolon => 53,
            TokenKind::Newline => 54,
            TokenKind::EOF => 55,
        }
    }

    /// A copy of this kind.
    pub fn copy(&self) -> (r: TokenKind)
        ensures
            r == *self,
    {
        match self {
            TokenKind::Module => TokenKind::Module,
            TokenKind::Use => TokenKind::Use,
            TokenKind::As => TokenKind::As,
            TokenKind::Pub => TokenKind::Pub,
            TokenKind::Fn => TokenKind::Fn,
            TokenKind::Struct => TokenKind::Struct,
            TokenKind::Enum => TokenKind::Enum,
            TokenKind::Impl => TokenKind::Impl,
            TokenKind::Let => TokenKind::Let,
            TokenKind::Mut => TokenKind::Mut,
            TokenKind::Return => TokenKind::Return,
            TokenKind::Raw => TokenKind::Raw,
            TokenKind::If => TokenKind::If,
            TokenKind::Else => TokenKind::Else,
            TokenKind::Match => TokenKind::Match,
            TokenKind::For => TokenKind::For,
            TokenKind::In => TokenKind::In,
            TokenKind::While => TokenKind::While,
            TokenKind::Comptime => TokenKind::Comptime,
            TokenKind::Where => TokenKind::Where,
            TokenKind::Plus => TokenKind::Plus,
            TokenKind::Minus => TokenKind::Minus,
            TokenKind::Star => TokenKind::Star,
            TokenKind::Slash => TokenKind::Slash,
            TokenKind::Eq => TokenKind::Eq,
            TokenKind::EqEq => TokenKind::EqEq,
            TokenKind::Ne => TokenKind::Ne,
            TokenKind::Lt => TokenKind::Lt,
            TokenKind::Gt => TokenKind::Gt,
            TokenKind::Le => TokenKind::Le,
            TokenKind::Ge => TokenKind::Ge,
            TokenKind::Amp => TokenKind::Amp,
            TokenKind::AmpAmp => TokenKind::AmpAmp,
            TokenKind::PipePipe => TokenKind::PipePipe,
            TokenKind::Bang => TokenKind::Bang,
            TokenKind::Arrow => TokenKind::Arrow,
            TokenKind::FatArrow => TokenKind::FatArrow,
            TokenKind::TryOp => TokenKind::TryOp,
            TokenKind::Comma => TokenKind::Comma,
            TokenKind::Colon => TokenKind::Colon,
            TokenKind::ColonColon => TokenKind::ColonColon,
            TokenKind::LParen => TokenKind::LParen,
            TokenKind::RParen => TokenKind::RParen,
            TokenKind::LBrace => TokenKind::LBrace,
            TokenKind::RBrace => TokenKind::RBrace,
            TokenKind::LBracket => TokenKind::LBracket,
            TokenKind::RBracket => TokenKind::RBracket,
            TokenKind::Dot => TokenKind::Dot,
            TokenKind::Semicolon => TokenKind::Semicolon,
            TokenKind::Newline => TokenKind::Newline,
            TokenKind::EOF => TokenKind::EOF,
            TokenKind::Ident(s) => TokenKind::Ident(s.clone()),
            TokenKind::Int(v, sf) => TokenKind::Int(*v, copy_opt(sf)),
            TokenKind::Float(t, sf) => TokenKind::Float(t.clone(), copy_opt(sf)),
            TokenKind::Str(s) => TokenKind::Str(s.clone()),
            TokenKind::Bool(b) => TokenKind::Bool(*b),
        }
    }

    /// The `{:?}` text of this kind.
    pub fn debug_text(&self) -> (r: Vec<char>)
        ensures
            r@ == debug_kind(self@),
    {
        let mut out: Vec<char> = Vec::new();
        match self {
            TokenKind::Module => append_str(&mut out, "Module"),
            TokenKind::Use => append_str(&mut out, "Use"),
            TokenKind::As => append_str(&mut out, "As"),
            TokenKind::Pub => append_str(&mut out, "Pub"),
            TokenKind::Fn => append_str(&mut out, "Fn"),
            TokenKind::Struct => append_str(&mut out, "Struct"),
            TokenKind::Enum => append_str(&mut out, "Enum"),
            TokenKind::Impl => append_str(&mut out, "Impl"),
            TokenKind::Let => append_str(&mut out, "Let"),
            TokenKind::Mut => append_str(&mut out, "Mut"),
            TokenKind::Return => append_str(&mut out, "Return"),
            TokenKind::Raw => append_str(&mut out, "Raw"),
            TokenKind::If => append_str(&mut out, "If"),
            TokenKind::Else => append_str(&mut out, "Else"),
            TokenKind::Match => append_str(&mut out, "Match"),
            TokenKind::For => append_str(&mut out, "For"),
            TokenKind::In => append_str(&mut out, "In"),
            TokenKind::While => append_str(&mut out, "While"),
            TokenKind::Comptime => append_str(&mut out, "Comptime"),
            TokenKind::Where => append_str(&mut out, "Where"),
            TokenKind::Plus => append_str(&mut out, "Plus"),
            TokenKind::Minus => append_str(&mut out, "Minus"),
            TokenKind::Star => append_str(&mut out, "Star"),
            TokenKind::Slash => append_str(&mut out, "Slash"),
            TokenKind::Eq => append_str(&mut out, "Eq"),
            TokenKind::EqEq => append_str(&mut out, "EqEq"),
            TokenKind::Ne => append_str(&mut out, "Ne"),
            TokenKind::Lt => append_str(&mut out, "Lt"),
            TokenKind::Gt => append_str(&mut out, "Gt"),
            TokenKind::Le => append_str(&mut out, "Le"),
            TokenKind::Ge => append_str(&mut out, "Ge"),
            TokenKind::Amp => append_str(&mut out, "Amp"),
            TokenKind::AmpAmp => append_str(&mut out, "AmpAmp"),
            TokenKind::PipePipe => append_str(&mut out, "PipePipe"),
            TokenKind::Bang => append_str(&mut out, "Bang"),
            TokenKind::Arrow => append_str(&mut out, "Arrow"),
            TokenKind::FatArrow => append_str(&mut out, "FatArrow"),
            TokenKind::TryOp => append_str(&mut out, "TryOp"),
            TokenKind::Comma => append_str(&mut out, "Comma"),
            TokenKind::Colon => append_str(&mut out, "Colon"),
            TokenKind::ColonColon => append_str(&mut out, "ColonColon"),
            TokenKind::LParen => append_str(&mut out, "LParen"),
            TokenKind::RParen => append_str(&mut out, "RParen"),
            TokenKind::LBrace => append_str(&mut out, "LBrace"),
            TokenKind::RBrace => append_str(&mut out, "RBrace"),
            TokenKind::LBracket => append_str(&mut out, "LBracket"),
            TokenKind::RBracket => append_str(&mut out, "RBracket"),
            TokenKind::Dot => append_str(&mut out, "Dot"),
            TokenKind::Semicolon => append_str(&mut out, "Semicolon"),
            TokenKind::Newline => append_str(&mut out, "Newline"),
            TokenKind::EOF => append_str(&mut out, "EOF"),
            TokenKind::Ident(s) => {
                append_str(&mut out, "Ident(");
                let d = debug_str(s.as_str());
                append_str(&mut out, d.as_str());
                out.push(')');
            }
            TokenKind::Int(v, sf) => {
                append_str(&mut out, "Int(");
                let d = decimal_i64(*v);
                append_chars(&mut out, &d);
                append_str(&mut out, ", ");
                let o = debug_opt(sf);
                append_chars(&mut out, &o);
                out.push(')');
            }
            TokenKind::Float(t, sf) => {
                append_str(&mut out, "Float(");
                append_str(&mut out, t.as_str());
                append_str(&mut out, ", ");
                let o = debug_opt(sf);
                append_chars(&mut out, &o);
                out.push(')');
            }
            TokenKind::Str(s) => {
                append_str(&mut out, "Str(");
                let d = debug_str(s.as_str());
                append_str(&mut out, d.as_str());
                out.push(')');
            }
            TokenKind::Bool(b) => {
                if *b { append_str(&mut out, "Bool(true)"); } else { append_str(&mut out, "Bool(false)"); }
            }
        }
        out
    }
}

/// The `{:?}` text of a token kind; a float shows its literal text.
pub open spec fn debug_kind(k: KindV) -> Seq<char> {
    match k {
        KindV::Module => "Module"@,
        KindV::Use => "Use"@,
        KindV::As => "As"@,
        KindV::Pub => "Pub"@,
        KindV::Fn => "Fn"@,
        KindV::Struct => "Struct"@,
        KindV::Enum => "Enum"@,
        KindV::Impl => "Impl"@,
        KindV::Let => "Let"@,
        KindV::Mut => "Mut"@,
        KindV::Return => "Return"@,
        KindV::Raw => "Raw"@,
        KindV::If => "If"@,
        KindV::Else => "Else"@,
        KindV::Match => "Match"@,
        KindV::For => "For"@,
        KindV::In => "In"@,
        KindV::While => "While"@,
        KindV::Comptime => "Comptime"@,
        KindV::Where => "Where"@,
        KindV::Plus => "Plus"@,
        KindV::Minus => "Minus"@,
        KindV::Star => "Star"@,
        KindV::Slash => "Slash"@,
        KindV::Eq => "Eq"@,
        KindV::EqEq => "EqEq"@,
        KindV::Ne => "Ne"@,
        KindV::Lt => "Lt"@,
        KindV::Gt => "Gt"@,
        KindV::Le => "Le"@,
        KindV::Ge => "Ge"@,
        KindV::Amp => "Amp"@,
        KindV::AmpAmp => "AmpAmp"@,
        KindV::PipePipe => "PipePipe"@,
        KindV::Bang => "Bang"@,
        KindV::Arrow => "Arrow"@,
        KindV::FatArrow => "FatArrow"@,
        KindV::TryOp => "TryOp"@,
        KindV::Comma => "Comma"@,
        KindV::Colon => "Colon"@,
        KindV::ColonColon => "ColonColon"@,
        KindV::LParen => "LParen"@,
        KindV::RParen => "RParen"@,
        KindV::LBrace => "LBrace"@,
        KindV::RBrace => "RBrace"@,
        KindV::LBracket => "LBracket"@,
        KindV::RBracket => "RBracket"@,
        KindV::Dot => "Dot"@,
        KindV::Semicolon => "Semicolon"@,
        KindV::Newline => "Newline"@,
        KindV::EOF => "EOF"@,
        KindV::Ident(s) => "Ident("@ + spec_debug_str(s) + seq![')'],
        KindV::Int(v, sf) => "Int("@ + spec_decimal_int(v as int) + ", "@ + debug_opt_spec(sf) + seq![')'],
        KindV::Float(t, sf) => "Float("@ + t + ", "@ + debug_opt_spec(sf) + seq![')'],
        KindV::Str(s) => "Str("@ + spec_debug_str(s) + seq![')'],
        KindV::Bool(b) => if b { "Bool(true)"@ } else { "Bool(false)"@ },
    }
}


/// A copy of an optional string.
pub fn copy_opt(o: &Option<String>) -> (r: Option<String>)
    ensures
        r == *o,
{
    match o {
        Some(s) => Some(s.clone()),
        None => None,
    }
}

/// The `{:?}` text of an optional string.
pub open spec fn debug_opt_spec(o: Option<Seq<char>>) -> Seq<char> {
    match o {
        None => "None"@,
        Some(s) => "Some("@ + spec_debug_str(s) + seq![')'],
    }
}

pub fn debug_opt(o: &Option<String>) -> (r: Vec<char>)
    ensures
        r@ == debug_opt_spec(opt_view(*o)),
{
    let mut out: Vec<char> = Vec::new();
    match o {
        None => append_str(&mut out, "None"),
        Some(s) => {
            append_str(&mut out, "Some(");
            let d = debug_str(s.as_str());
            append_str(&mut out, d.as_str());
            out.push(')');
        }
    }
    out
}

impl KindV {
    /// Tokens after which a line break ends the statement.
    pub open spec fn can_terminate(self) -> bool {
        match self {
            KindV::Ident(_) | KindV::Int(_, _) | KindV::Float(_, _) | KindV::Str(_)
            | KindV::Bool(_) | KindV::RParen | KindV::RBrace | KindV::RBracket
            | KindV::Return => true,
            _ => false,
        }
    }
}

impl TokenKind {
    pub fn can_terminate_statement(&self) -> (r: bool)
        ensures
            r == self@.can_terminate(),
    {
        match self {
            TokenKind::Ident(_) | TokenKind::Int(_, _) | TokenKind::Float(_, _)
            | TokenKind::Str(_) | TokenKind::Bool(_) | TokenKind::RParen | TokenKind::RBrace
            | TokenKind::RBracket | TokenKind::Return => true,
            _ => false,
        }
    }
}

#[derive(Debug, Clone, PartialEq)]
pub struct Token {
    pub kind: TokenKind,
    pub span: Span,
}

impl Token {
    pub fn copy(&self) -> (r: Token)
        ensures
            r == *self,
    {
        Token { kind: self.kind.copy(), span: self.span }
    }
}

// ---------------------------------------------------------------------------
// Positions
// ---------------------------------------------------------------------------

/// The 1-based line of position `k`: one more than the newlines before it.
pub open spec fn line_at(s: Seq<char>, k: int) -> int
    decreases k,
{
    if k <= 0 {
        1
    } else {
        line_at(s, k - 1) + if s[k - 1] == '\n' { 1int } else { 0int }
    }
}

/// The 1-based column of position `k`: one more than the characters since
/// the last newline before it.
pub open spec fn col_at(s: Seq<char>, k: int) -> int
    decreases k,
{
    if k <= 0 {
        1
    } else if s[k - 1] == '\n' {
        1
    } else {
        col_at(s, k - 1) + 1
    }
}

/// The span from position `a` to position `b`.
pub open spec fn span_between(s: Seq<char>, a: int, b: int) -> Span {
    Span {
        start_line: line_at(s, a) as usize,
        start_col: col_at(s, a) as usize,
        end_line: line_at(s, b) as usize,
        end_col: col_at(s, b) as usize,
    }
}

pub proof fn lemma_pos_bounds(s: Seq<char>, k: int)
    requires
        0 <= k,
    ensures
        1 <= line_at(s, k) <= k + 1,
        1 <= col_at(s, k) <= k + 1,
    decreases k,
{
    if k > 0 {
        lemma_pos_bounds(s, k - 1);
    }
}

// ---------------------------------------------------------------------------
// The raw token grammar
// ---------------------------------------------------------------------------

/// Where a nestable block comment body starting at `i` with open depth
/// `depth` ends, or `None` when the input ends first.
pub open spec fn block_end(s: Seq<char>, i: int, depth: nat) -> Option<int>
    decreases s.len() - i,
{
    if depth == 0 {
        Some(i)
    } else if i < 0 || i >= s.len() {
        None
    } else if s[i] == '/' && i + 1 < s.len() && s[i + 1] == '*' {
        block_end(s, i + 2, depth + 1)
    } else if s[i] == '*' && i + 1 < s.len() && s[i + 1] == '/' {
        block_end(s, i + 2, (depth - 1) as nat)
    } else {
        block_end(s, i + 1, depth)
    }
}

pub proof fn lemma_block_end(s: Seq<char>, i: int, depth: nat)
    requires
        0 <= i,
    ensures
        block_end(s, i, depth) matches Some(j) ==> i <= j <= s.len() || (depth == 0 && j == i),
    decreases s.len() - i,
{
    if depth > 0 && i < s.len() {
        if s[i] == '/' && i + 1 < s.len() && s[i + 1] == '*' {
            lemma_block_end(s, i + 2, depth + 1);
        } else if s[i] == '*' && i + 1 < s.len() && s[i + 1] == '/' {
            lemma_block_end(s, i + 2, (depth - 1) as nat);
        } else {
            lemma_block_end(s, i + 1, depth);
        }
    }
}

/// The position of the next token (or raw newline) at or after `i`, skipping
/// whitespace and comments; `None` for an unterminated block comment.
pub open spec fn skip_trivia(s: Seq<char>, i: int) -> Option<int>
    decreases s.len() - i,
{
    if i < 0 || i >= s.len() {
        Some(i)
    } else if s[i] == '\n' {
        Some(i)
    } else if spec_is_whitespace(s[i]) {
        skip_trivia(s, i + 1)
    } else if s[i] == '/' && i + 1 < s.len() && s[i + 1] == '/' {
        proof {
            lemma_next_newline_bounds(s, i + 2);
        }
        skip_trivia(s, next_newline(s, i + 2))
    } else if s[i] == '/' && i + 1 < s.len() && s[i + 1] == '*' {
        proof {
            lemma_block_end(s, i + 2, 1);
        }
        match block_end(s, i + 2, 1) {
            Some(j) => skip_trivia(s, j),
            None => None,
        }
    } else {
        Some(i)
    }
}

pub proof fn lemma_skip_trivia(s: Seq<char>, i: int)
    requires
        0 <= i <= s.len(),
    ensures
        skip_trivia(s, i) matches Some(j) ==> i <= j <= s.len(),
    decreases s.len() - i,
{
    if i < s.len() && s[i] != '\n' {
        if spec_is_whitespace(s[i]) {
            lemma_skip_trivia(s, i + 1);
        } else if s[i] == '/' && i + 1 < s.len() && s[i + 1] == '/' {
            lemma_next_newline_bounds(s, i + 2);
            lemma_skip_trivia(s, next_newline(s, i + 2));
        } else if s[i] == '/' && i + 1 < s.len() && s[i + 1] == '*' {
            lemma_block_end(s, i + 2, 1);
            if let Some(j) = block_end(s, i + 2, 1) {
                lemma_skip_trivia(s, j);
            }
        }
    }
}

/// End of the run of identifier characters (alphanumeric or `_`) from `i`.
pub open spec fn ident_end(s: Seq<char>, i: int) -> int
    decreases s.len() - i,
{
    if 0 <= i < s.len() && (spec_is_alphanumeric(s[i]) || s[i] == '_') {
        ident_end(s, i + 1)
    } else {
        i
    }
}

/// End of the run of alphanumeric characters from `i`.
pub open spec fn alnum_end(s: Seq<char>, i: int) -> int
    decreases s.len() - i,
{
    if 0 <= i < s.len() && spec_is_alphanumeric(s[i]) {
        alnum_end(s, i + 1)
    } else {
        i
    }
}

pub proof fn lemma_ident_end(s: Seq<char>, i: int)
    requires
        0 <= i <= s.len(),
    ensures
        i <= ident_end(s, i) <= s.len(),
        i <= alnum_end(s, i) <= s.len(),
    decreases s.len() - i,
{
    if i < s.len() {
        lemma_ident_end(s, i + 1);
    }
}

/// Keywords and boolean literals; any other word is an identifier.
pub open spec fn keyword(w: Seq<char>) -> KindV {
    if w == "module"@ { KindV::Module }
    else if w == "use"@ { KindV::Use }
    else if w == "as"@ { KindV::As }
    else if w == "pub"@ { KindV::Pub }
    else if w == "fn"@ { KindV::Fn }
    else if w == "struct"@ { KindV::Struct }
    else if w == "enum"@ { KindV::Enum }
    else if w == "impl"@ { KindV::Impl }
    else if w == "let"@ { KindV::Let }
    else if w == "mut"@ { KindV::Mut }
    else if w == "return"@ { KindV::Return }
    else if w == "raw"@ { KindV::Raw }
    else if w == "if"@ { KindV::If }
    else if w == "else"@ { KindV::Else }
    else if w == "match"@ { KindV::Match }
    else if w == "for"@ { KindV::For }
    else if w == "in"@ { KindV::In }
    else if w == "while"@ { KindV::While }
    else if w == "comptime"@ { KindV::Comptime }
    else if w == "where"@ { KindV::Where }
    else if w == "true"@ { KindV::Bool(true) }
    else if w == "false"@ { KindV::Bool(false) }
    else { KindV::Ident(w) }
}

/// The position after a `0x`/`0b` prefix and the radix it selects.
pub open spec fn num_prefix(s: Seq<char>, j: int) -> (int, nat) {
    if s[j] == '0' && j + 1 < s.len() && (s[j + 1] == 'x' || s[j + 1] == 'X') {
        (j + 2, 16)
    } else if s[j] == '0' && j + 1 < s.len() && (s[j + 1] == 'b' || s[j + 1] == 'B') {
        (j + 2, 2)
    } else {
        (j, 10)
    }
}

/// End of the digits of a number literal from `k` (hexadecimal digits after
/// a `0x` or `0b` prefix, decimal digits otherwise, so that a suffix such as
/// `f64` is not taken as digits) and whether a fraction (a `.` followed by a
/// digit, in a decimal literal) was taken.
pub open spec fn num_scan(s: Seq<char>, k: int, prefixed: bool) -> (int, bool)
    decreases s.len() - k,
{
    if k < 0 || k >= s.len() {
        (k, false)
    } else if s[k] == '.' {
        if prefixed {
            (k, false)
        } else if k + 1 < s.len() && spec_is_ascii_digit(s[k + 1]) {
            (num_scan(s, k + 1, prefixed).0, true)
        } else {
            (k, false)
        }
    } else if (if prefixed { spec_is_ascii_hexdigit(s[k]) } else { spec_is_ascii_digit(s[k]) }) || s[k] == '_' {
        num_scan(s, k + 1, prefixed)
    } else {
        (k, false)
    }
}

pub proof fn lemma_num_scan(s: Seq<char>, k: int, prefixed: bool)
    requires
        0 <= k <= s.len(),
    ensures
        k <= num_scan(s, k, prefixed).0 <= s.len(),
    decreases s.len() - k,
{
    if k < s.len() {
        lemma_num_scan(s, k + 1, prefixed);
    }
}

/// A type suffix starts with `u`, `i` or `f` right after the digits.
pub open spec fn has_suffix(s: Seq<char>, e: int) -> bool {
    0 <= e < s.len() && (s[e] == 'u' || s[e] == 'i' || s[e] == 'f')
}

/// The characters with every `_` removed.
pub open spec fn strip_underscores(t: Seq<char>) -> Seq<char>
    decreases t.len(),
{
    if t.len() == 0 {
        t
    } else if t.last() == '_' {
        strip_underscores(t.drop_last())
    } else {
        strip_underscores(t.drop_last()).push(t.last())
    }
}

/// `str::trim_start_matches` with a non-empty pattern: every leading copy of
/// `p` removed.
pub open spec fn strip_all(t: Seq<char>, p: Seq<char>) -> Seq<char>
    decreases t.len(),
{
    if p.len() > 0 && p.len() <= t.len() && t.subrange(0, p.len() as int) == p {
        strip_all(t.skip(p.len() as int), p)
    } else {
        t
    }
}

/// The value of a digit in the given radix.
pub open spec fn digit_value(c: char, radix: nat) -> Option<nat> {
    if '0' <= c && c <= '9' && (c as nat) - ('0' as nat) < radix {
        Some(((c as nat) - ('0' as nat)) as nat)
    } else if radix == 16 && 'a' <= c && c <= 'f' {
        Some(((c as nat) - ('a' as nat) + 10) as nat)
    } else if radix == 16 && 'A' <= c && c <= 'F' {
        Some(((c as nat) - ('A' as nat) + 10) as nat)
    } else {
        None
    }
}

/// Why an integer literal has no `i64` value.
pub enum IntError {
    Empty,
    InvalidDigit,
    PosOverflow,
}

/// The value of the first `n` digits, processed left to right as
/// `i64::from_str_radix` does: the first bad digit or overflow decides.
pub open spec fn parse_digits(t: Seq<char>, n: int, radix: nat) -> Result<int, IntError>
    decreases n,
{
    if n <= 0 {
        Ok(0)
    } else {
        match parse_digits(t, n - 1, radix) {
            Err(e) => Err(e),
            Ok(v) => match digit_value(t[n - 1], radix) {
                None => Err(IntError::InvalidDigit),
                Some(d) => if v * radix + d > i64::MAX {
                    Err(IntError::PosOverflow)
                } else {
                    Ok(v * radix + d)
                },
            },
        }
    }
}

/// `i64::from_str_radix` on a string of digits without a sign.
pub open spec fn parse_radix(t: Seq<char>, radix: nat) -> Result<int, IntError> {
    if t.len() == 0 {
        Err(IntError::Empty)
    } else {
        parse_digits(t, t.len() as int, radix)
    }
}

/// The text of `ParseIntError`.
pub open spec fn int_error_text(e: IntError) -> Seq<char> {
    match e {
        IntError::Empty => "cannot parse integer from empty string"@,
        IntError::InvalidDigit => "invalid digit found in string"@,
        IntError::PosOverflow => "number too large to fit in target type"@,
    }
}

/// End of the run of ASCII digits from `i`.
pub open spec fn digits_end(t: Seq<char>, i: int) -> int
    decreases t.len() - i,
{
    if 0 <= i < t.len() && spec_is_ascii_digit(t[i]) {
        digits_end(t, i + 1)
    } else {
        i
    }
}

/// Whether a fractional literal is accepted by `f64`'s `FromStr`: digits, a
/// `.`, digits, and an optional exponent `e`/`E` with at least one digit.
pub open spec fn float_valid(t: Seq<char>) -> bool {
    let a = digits_end(t, 0);
    &&& a >= 1
    &&& a < t.len()
    &&& t[a] == '.'
    &&& {
        let b = digits_end(t, a + 1);
        ||| b == t.len()
        ||| (b < t.len() && (t[b] == 'e' || t[b] == 'E') && digits_end(t, b + 1) > b + 1
            && digits_end(t, b + 1) == t.len())
    }
}

/// A number literal starting at `j`: its kind or error text, and the
/// position after it (after any suffix).
pub open spec fn number_at(s: Seq<char>, j: int) -> (Result<KindV, Seq<char>>, int) {
    let (k, radix) = num_prefix(s, j);
    let (e, is_float) = num_scan(s, k, radix != 10);
    let se = if has_suffix(s, e) { alnum_end(s, e) } else { e };
    let suffix = if has_suffix(s, e) { Some(s.subrange(e, se)) } else { None };
    let cleaned = strip_underscores(s.subrange(j, e));
    if is_float {
        if float_valid(cleaned) {
            (Ok(KindV::Float(cleaned, suffix)), se)
        } else {
            (Err("invalid float literal"@), se)
        }
    } else {
        let digits = if radix == 16 {
            strip_all(strip_all(cleaned, seq!['0', 'x']), seq!['0', 'X'])
        } else if radix == 2 {
            strip_all(strip_all(cleaned, seq!['0', 'b']), seq!['0', 'B'])
        } else {
            cleaned
        };
        match parse_radix(digits, radix) {
            Ok(v) => (Ok(KindV::Int(v as i64, suffix)), se),
            Err(err) => (Err(int_error_text(err)), se),
        }
    }
}

/// The character an escape `\c` stands for.
pub open spec fn escape_char(c: char) -> Option<char> {
    if c == 'n' { Some('\n') }
    else if c == 'r' { Some('\r') }
    else if c == 't' { Some('\t') }
    else if c == '\\' { Some('\\') }
    else if c == '"' { Some('"') }
    else if c == '\'' { Some('\'') }
    else { None }
}

/// The body of a string literal from `k` with `acc` decoded so far: the
/// decoded text or the error text, and the position after.
pub open spec fn str_scan(s: Seq<char>, k: int, acc: Seq<char>) -> (Result<Seq<char>, Seq<char>>, int)
    decreases s.len() - k,
{
    if k < 0 || k >= s.len() {
        (Err("Unterminated string literal"@), k)
    } else if s[k] == '"' {
        (Ok(acc), k + 1)
    } else if s[k] == '\\' {
        if k + 1 >= s.len() {
            (Err("Unterminated string literal"@), k + 1)
        } else {
            match escape_char(s[k + 1]) {
                Some(x) => str_scan(s, k + 2, acc.push(x)),
                None => (Err("Invalid string escape: \\"@ + seq![s[k + 1]]), k + 2),
            }
        }
    } else {
        str_scan(s, k + 1, acc.push(s[k]))
    }
}

pub proof fn lemma_str_scan(s: Seq<char>, k: int, acc: Seq<char>)
    requires
        0 <= k <= s.len(),
    ensures
        k <= str_scan(s, k, acc).1 <= s.len(),
    decreases s.len() - k,
{
    if k < s.len() && s[k] != '"' {
        if s[k] == '\\' {
            if k + 1 < s.len() && escape_char(s[k + 1]) is Some {
                lemma_str_scan(s, k + 2, acc.push(escape_char(s[k + 1])->0));
            }
        } else {
            lemma_str_scan(s, k + 1, acc.push(s[k]));
        }
    }
}

/// Text with no quote and no backslash.
pub open spec fn plain_text(p: Seq<char>) -> bool {
    forall|i: int| 0 <= i < p.len() ==> p[i] != '"' && p[i] != '\\'
}

proof fn lemma_str_scan_plain(s: Seq<char>, k: int, p: Seq<char>, acc: Seq<char>)
    requires
        0 <= k,
        k + p.len() <= s.len(),
        s.subrange(k, k + p.len()) == p,
        plain_text(p),
    ensures
        str_scan(s, k, acc) == str_scan(s, k + p.len(), acc + p),
    decreases p.len(),
{
    if p.len() > 0 {
        assert(s[k] == s.subrange(k, k + p.len())[0]);
        assert(s.subrange(k + 1, k + p.len()) =~= p.drop_first());
        lemma_str_scan_plain(s, k + 1, p.drop_first(), acc.push(p[0]));
        assert(acc.push(p[0]) + p.drop_first() =~= acc + p);
    } else {
        assert(acc + p =~= acc);
    }
}

proof fn lemma_escape_scan(pre: Seq<char>, p: Seq<char>, c: char, q: Seq<char>, post: Seq<char>)
    requires
        plain_text(p),
        plain_text(q),
    ensures
        ({
            let s = pre + p + seq!['\\', c] + q + seq!['"'] + post;
            let r = str_scan(s, pre.len() as int, Seq::empty());
            &&& escape_char(c) matches Some(d) ==> r == (Ok::<Seq<char>, Seq<char>>(p + seq![d] + q), (pre.len()
                + p.len() + q.len() + 3) as int)
            &&& escape_char(c) is None ==> r.0 is Err
        }),
{
    let s = pre + p + seq!['\\', c] + q + seq!['"'] + post;
    let a = pre.len() as int;
    let b = a + p.len();
    assert(s.subrange(a, b) =~= p);
    lemma_str_scan_plain(s, a, p, Seq::empty());
    assert(Seq::<char>::empty() + p =~= p);
    assert(s[b] == '\\');
    assert(s[b + 1] == c);
    if let Some(d) = escape_char(c) {
        assert(str_scan(s, b, p) == str_scan(s, b + 2, p.push(d)));
        assert(s.subrange(b + 2, b + 2 + q.len()) =~= q);
        lemma_str_scan_plain(s, b + 2, q, p.push(d));
        assert(s[b + 2 + q.len()] == '"');
        assert(p.push(d) + q =~= p + seq![d] + q);
    }
}

/// Each escape in a string literal stands for one character: `\n` a
/// newline, `\r` a carriage return, `\t` a tab, and `\\`, `\"`, `\'` the
/// backslash and the two quotes; the text around it is kept as written.
/// Any other character after a backslash makes the literal an error.
pub proof fn law_string_escapes(pre: Seq<char>, p: Seq<char>, c: char, q: Seq<char>, post: Seq<char>)
    requires
        plain_text(p),
        plain_text(q),
    ensures
        ({
            let s = pre + p + seq!['\\', c] + q + seq!['"'] + post;
            let r = str_scan(s, pre.len() as int, Seq::empty());
            let end = (pre.len() + p.len() + q.len() + 3) as int;
            &&& c == 'n' ==> r == (Ok::<Seq<char>, Seq<char>>(p + seq!['\u{a}'] + q), end)
            &&& c == 'r' ==> r == (Ok::<Seq<char>, Seq<char>>(p + seq!['\u{d}'] + q), end)
            &&& c == 't' ==> r == (Ok::<Seq<char>, Seq<char>>(p + seq!['\u{9}'] + q), end)
            &&& c == '\\' ==> r == (Ok::<Seq<char>, Seq<char>>(p + seq!['\u{5c}'] + q), end)
            &&& c == '"' ==> r == (Ok::<Seq<char>, Seq<char>>(p + seq!['\u{22}'] + q), end)
            &&& c == '\'' ==> r == (Ok::<Seq<char>, Seq<char>>(p + seq!['\u{27}'] + q), end)
            &&& !(c == 'n' || c == 'r' || c == 't' || c == '\\' || c == '"' || c == '\'') ==> r.0 is Err
        }),
{
    lemma_escape_scan(pre, p, c, q, post);
}

/// In a string literal the escape `\n` stands for one newline character,
/// U+000A, and the text around it is kept as written: wherever it stands
/// in the source, a body `p\nq` with `p` and `q` free of quotes and
/// backslashes decodes to `p`, the newline and `q`, and the literal ends
/// after its closing quote.
pub proof fn law_newline_escape(pre: Seq<char>, p: Seq<char>, q: Seq<char>, post: Seq<char>)
    requires
        plain_text(p),
        plain_text(q),
    ensures
        ({
            let s = pre + p + seq!['\\', 'n'] + q + seq!['"'] + post;
            str_scan(s, pre.len() as int, Seq::empty()) == (Ok::<Seq<char>, Seq<char>>(p + seq!['\n'] + q), (
            pre.len() + p.len() + q.len() + 3) as int)
        }),
{
    let s = pre + p + seq!['\\', 'n'] + q + seq!['"'] + post;
    let a = pre.len() as int;
    let b = a + p.len();
    assert(s.subrange(a, b) =~= p);
    lemma_str_scan_plain(s, a, p, Seq::empty());
    assert(Seq::<char>::empty() + p =~= p);
    assert(s[b] == '\\');
    assert(s[b + 1] == 'n');
    assert(escape_char('n') == Some('\n'));
    assert(str_scan(s, b, p) == str_scan(s, b + 2, p.push('\n')));
    assert(s.subrange(b + 2, b + 2 + q.len()) =~= q);
    lemma_str_scan_plain(s, b + 2, q, p.push('\n'));
    assert(s[b + 2 + q.len()] == '"');
    assert(p.push('\n') + q =~= p + seq!['\n'] + q);
}

/// A one- or two-character operator: `two` when `second` follows.
pub open spec fn op2(s: Seq<char>, j: int, second: char, two: KindV, one: KindV) -> (Result<KindV, Seq<char>>, int) {
    if j + 1 < s.len() && s[j + 1] == second {
        (Ok(two), j + 2)
    } else {
        (Ok(one), j + 1)
    }
}

/// An operator or punctuation token at `j`.
pub open spec fn op_at(s: Seq<char>, j: int) -> (Result<KindV, Seq<char>>, int) {
    let c = s[j];
    if c == '+' { (Ok(KindV::Plus), j + 1) }
    else if c == '-' { op2(s, j, '>', KindV::Arrow, KindV::Minus) }
    else if c == '*' { (Ok(KindV::Star), j + 1) }
    else if c == '/' { (Ok(KindV::Slash), j + 1) }
    else if c == '=' {
        if j + 1 < s.len() && s[j + 1] == '=' { (Ok(KindV::EqEq), j + 2) }
        else if j + 1 < s.len() && s[j + 1] == '>' { (Ok(KindV::FatArrow), j + 2) }
        else { (Ok(KindV::Eq), j + 1) }
    }
    else if c == '!' { op2(s, j, '=', KindV::Ne, KindV::Bang) }
    else if c == '<' { op2(s, j, '=', KindV::Le, KindV::Lt) }
    else if c == '>' { op2(s, j, '=', KindV::Ge, KindV::Gt) }
    else if c == '&' { op2(s, j, '&', KindV::AmpAmp, KindV::Amp) }
    else if c == '|' {
        if j + 1 < s.len() && s[j + 1] == '|' { (Ok(KindV::PipePipe), j + 2) }
        else { (Err("Single pipe '|' operator is not defined"@), j + 1) }
    }
    else if c == '?' { (Ok(KindV::TryOp), j + 1) }
    else if c == ',' { (Ok(KindV::Comma), j + 1) }
    else if c == ':' { op2(s, j, ':', KindV::ColonColon, KindV::Colon) }
    else if c == '(' { (Ok(KindV::LParen), j + 1) }
    else if c == ')' { (Ok(KindV::RParen), j + 1) }
    else if c == '{' { (Ok(KindV::LBrace), j + 1) }
    else if c == '}' { (Ok(KindV::RBrace), j + 1) }
    else if c == '[' { (Ok(KindV::LBracket), j + 1) }
    else if c == ']' { (Ok(KindV::RBracket), j + 1) }
    else if c == '.' { (Ok(KindV::Dot), j + 1) }
    else if c == ';' { (Ok(KindV::Semicolon), j + 1) }
    else { (Err("Unexpected character: '"@ + seq![c] + "'"@), j) }
}

/// The outcome of reading one raw token.
pub enum RawOutcome {
    /// A token of the kind, from the first position to the second.
    Tok(KindV, int, int),
    /// The input is exhausted.
    End,
    /// An error text; the cursor is left at the position.
    Fail(Seq<char>, int),
}

/// The raw token at `j`, which is past any whitespace and comments.
pub open spec fn token_at(s: Seq<char>, j: int) -> RawOutcome {
    if j < 0 || j >= s.len() {
        RawOutcome::End
    } else if s[j] == '\n' {
        RawOutcome::Tok(KindV::Newline, j, j + 1)
    } else if spec_is_alphabetic(s[j]) || s[j] == '_' {
        RawOutcome::Tok(keyword(s.subrange(j, ident_end(s, j))), j, ident_end(s, j))
    } else if spec_is_ascii_digit(s[j]) {
        match number_at(s, j) {
            (Ok(k), e) => RawOutcome::Tok(k, j, e),
            (Err(m), e) => RawOutcome::Fail(m, e),
        }
    } else if s[j] == '"' {
        match str_scan(s, j + 1, Seq::empty()) {
            (Ok(v), e) => RawOutcome::Tok(KindV::Str(v), j, e),
            (Err(m), e) => RawOutcome::Fail(m, e),
        }
    } else {
        match op_at(s, j) {
            (Ok(k), e) => RawOutcome::Tok(k, j, e),
            (Err(m), e) => RawOutcome::Fail(m, e),
        }
    }
}

/// The next raw token from position `i`: whitespace (other than newlines)
/// and comments are skipped, raw newlines are tokens.
pub open spec fn raw_token(s: Seq<char>, i: int) -> RawOutcome {
    match skip_trivia(s, i) {
        None => RawOutcome::Fail("Unterminated block comment"@, s.len() as int),
        Some(j) => token_at(s, j),
    }
}

// ---------------------------------------------------------------------------
// Statement-ending semicolons
// ---------------------------------------------------------------------------

/// What the grammar of the token stream depends on: the position, the last
/// significant token since the last semicolon, and the bracket nesting.
pub struct LexState {
    pub pos: int,
    pub last: Option<KindV>,
    pub paren: int,
    pub bracket: int,
}

/// A line break (or the end of input) here ends a statement.
pub open spec fn ends_statement(st: LexState) -> bool {
    &&& st.last matches Some(k)
    &&& k.can_terminate()
    &&& st.paren == 0
    &&& st.bracket == 0
}

pub open spec fn paren_after(p: int, k: KindV) -> int {
    if k is LParen { p + 1 } else if k is RParen { if p > 0 { p - 1 } else { 0 } } else { p }
}

pub open spec fn bracket_after(b: int, k: KindV) -> int {
    if k is LBracket { b + 1 } else if k is RBracket { if b > 0 { b - 1 } else { 0 } } else { b }
}

/// The outcome of reading one token.
pub enum NextOutcome {
    Tok(KindV, int, int),
    Fail(Seq<char>),
}

pub proof fn lemma_raw_token(s: Seq<char>, i: int)
    requires
        0 <= i <= s.len(),
    ensures
        raw_token(s, i) matches RawOutcome::Tok(k, a, b) ==> i <= a < b <= s.len()
            && (k is Newline ==> b == a + 1),
        raw_token(s, i) matches RawOutcome::Fail(m, e) ==> i <= e <= s.len(),
        raw_token(s, i) is End ==> skip_trivia(s, i) == Some(s.len() as int),
{
    lemma_skip_trivia(s, i);
    if let Some(j) = skip_trivia(s, i) {
        if j < s.len() && s[j] != '\n' {
            lemma_ident_end(s, j);
            lemma_ident_end(s, j + 1);
            if spec_is_ascii_digit(s[j]) && !(spec_is_alphabetic(s[j]) || s[j] == '_') {
                let (k, radix) = num_prefix(s, j);
                lemma_num_scan(s, k, radix != 10);
                if k == j {
                    lemma_num_scan(s, k + 1, radix != 10);
                }
                let e = num_scan(s, k, radix != 10).0;
                lemma_ident_end(s, e);
            }
            if s[j] == '"' {
                lemma_str_scan(s, j + 1, Seq::empty());
            }
        }
    }
}

/// The next token from state `st`: raw newlines become a semicolon when the
/// statement can end there and are skipped otherwise; at the end of input a
/// final semicolon is produced when the statement can end, then `EOF`.
pub open spec fn next_token_spec(s: Seq<char>, st: LexState) -> (NextOutcome, LexState)
    decreases s.len() - st.pos,
{
    if st.pos < 0 || st.pos > s.len() {
        (NextOutcome::Fail(Seq::empty()), st)
    } else {
        match raw_token(s, st.pos) {
            RawOutcome::Fail(m, e) => (NextOutcome::Fail(m), LexState { pos: e, ..st }),
            RawOutcome::End => {
                let n = s.len() as int;
                if ends_statement(st) {
                    (NextOutcome::Tok(KindV::Semicolon, n, n), LexState { pos: n, last: None, ..st })
                } else {
                    (NextOutcome::Tok(KindV::EOF, n, n), LexState { pos: n, ..st })
                }
            }
            RawOutcome::Tok(k, a, b) => {
                if k is Newline {
                    if ends_statement(st) {
                        (NextOutcome::Tok(KindV::Semicolon, a, b), LexState { pos: b, last: None, ..st })
                    } else {
                        proof {
                            lemma_raw_token(s, st.pos);
                        }
                        next_token_spec(s, LexState { pos: b, ..st })
                    }
                } else if k is Semicolon {
                    (NextOutcome::Tok(k, a, b), LexState { pos: b, last: None, ..st })
                } else {
                    (NextOutcome::Tok(k, a, b), LexState {
                        pos: b,
                        last: Some(k),
                        paren: paren_after(st.paren, k),
                        bracket: bracket_after(st.bracket, k),
                    })
                }
            }
        }
    }
}

/// A measure that every token other than `EOF` decreases.
pub open spec fn potential(s: Seq<char>, st: LexState) -> int {
    3 * (s.len() - st.pos) + if ends_statement(st) { 1int } else { 0int }
}

/// The state is one the lexer can be in.
pub open spec fn state_ok(s: Seq<char>, st: LexState) -> bool {
    0 <= st.pos <= s.len() && 0 <= st.paren && 0 <= st.bracket && st.paren + st.bracket <= st.pos
}

/// Every token but `EOF` decreases the potential; `EOF` leaves the lexer at
/// the end with nothing pending, where it yields `EOF` again.
pub proof fn lemma_next_token(s: Seq<char>, st: LexState)
    requires
        state_ok(s, st),
    ensures
        ({
            let (o, st2) = next_token_spec(s, st);
            &&& state_ok(s, st2)
            &&& st.pos <= st2.pos
            &&& (o matches NextOutcome::Tok(k, a, b) ==> {
                &&& st.pos <= a <= b <= s.len()
                &&& (k is EOF ==> {
                    &&& a == s.len() && b == s.len()
                    &&& st2.pos == s.len()
                    &&& !ends_statement(st2)
                    &&& potential(s, st2) <= potential(s, st)
                    &&& st2.last == st.last
                })
                &&& (!(k is EOF) ==> potential(s, st2) < potential(s, st))
            })
            &&& (o is Fail ==> potential(s, st2) <= potential(s, st) && st2.last == st.last
                && st2.paren == st.paren && st2.bracket == st.bracket)
        }),
    decreases s.len() - st.pos,
{
    lemma_raw_token(s, st.pos);
    match raw_token(s, st.pos) {
        RawOutcome::Tok(k, a, b) => {
            if k is Newline && !ends_statement(st) {
                lemma_next_token(s, LexState { pos: b, ..st });
            }
        }
        _ => {}
    }
}

/// At the end of input with nothing pending, the lexer keeps yielding `EOF`.
pub proof fn lemma_eof_stable(s: Seq<char>, st: LexState)
    requires
        state_ok(s, st),
        st.pos == s.len(),
        !ends_statement(st),
    ensures
        next_token_spec(s, st) == (NextOutcome::Tok(KindV::EOF, s.len() as int, s.len() as int), st),
{
}

/// The token stream from state `st` up to and including `EOF`, or the first
/// error.
pub open spec fn lex_all_spec(s: Seq<char>, st: LexState) -> Result<Seq<(KindV, int, int)>, Seq<char>>
    decreases potential(s, st),
{
    if !state_ok(s, st) {
        Err(Seq::empty())
    } else {
        let (o, st2) = next_token_spec(s, st);
        match o {
            NextOutcome::Fail(m) => Err(m),
            NextOutcome::Tok(k, a, b) => {
                if k is EOF {
                    Ok(seq![(k, a, b)])
                } else {
                    proof {
                        lemma_next_token(s, st);
                    }
                    match lex_all_spec(s, st2) {
                        Ok(rest) => Ok(seq![(k, a, b)] + rest),
                        Err(m) => Err(m),
                    }
                }
            }
        }
    }
}

/// Where the rest of the input lexes without error, the next step yields a
/// token, and the rest after it lexes without error too (after `EOF` the
/// lexer stays at the end).
pub proof fn lemma_lex_ok_step(s: Seq<char>, st: LexState)
    requires
        lex_all_spec(s, st) is Ok,
    ensures
        next_token_spec(s, st).0 is Tok,
        lex_all_spec(s, next_token_spec(s, st).1) is Ok,
{
    lemma_next_token(s, st);
    let (o, st2) = next_token_spec(s, st);
    match o {
        NextOutcome::Tok(k, _, _) => {
            if k is EOF {
                lemma_eof_stable(s, st2);
                lemma_next_token(s, st2);
            }
        },
        _ => {},
    }
}

/// A successful token stream ends with exactly one `EOF`, at its end.
pub proof fn lemma_lex_all_eof_last(s: Seq<char>, st: LexState)
    requires
        lex_all_spec(s, st) is Ok,
    ensures
        ({
            let ts = lex_all_spec(s, st)->Ok_0;
            &&& ts.len() >= 1
            &&& ts.last().0 is EOF
            &&& forall|i: int| 0 <= i < ts.len() - 1 ==> !(#[trigger] ts[i].0 is EOF)
        }),
    decreases potential(s, st),
{
    let (o, st2) = next_token_spec(s, st);
    if let NextOutcome::Tok(k, a, b) = o {
        if !(k is EOF) {
            lemma_next_token(s, st);
            lemma_lex_all_eof_last(s, st2);
            let rest = lex_all_spec(s, st2)->Ok_0;
            let ts = seq![(k, a, b)] + rest;
            assert forall|i: int| 0 <= i < ts.len() - 1 implies !(#[trigger] ts[i].0 is EOF) by {
                if i > 0 {
                    assert(ts[i] == rest[i - 1]);
                }
            }
        }
    }
}

// ---------------------------------------------------------------------------
// The lexer
// ---------------------------------------------------------------------------

pub struct Lexer {
    chars: Vec<char>,
    cursor: usize,
    line: usize,
    col: usize,
    filename: String,
    last_kind: Option<TokenKind>,
    paren_nesting: usize,
    bracket_nesting: usize,
}

pub open spec fn opt_kind_view(o: Option<TokenKind>) -> Option<KindV> {
    match o {
        Some(k) => Some(k@),
        None => None,
    }
}

/// A token holds the kind and the span of an outcome.
pub open spec fn token_is(t: Token, s: Seq<char>, k: KindV, a: int, b: int) -> bool {
    t.kind@ == k && t.span == span_between(s, a, b)
}

/// The result of an operation that reads one token agrees with the grammar.
pub open spec fn result_is(r: Result<Token, String>, s: Seq<char>, o: NextOutcome) -> bool {
    match (r, o) {
        (Ok(t), NextOutcome::Tok(k, a, b)) => token_is(t, s, k, a, b),
        (Err(m), NextOutcome::Fail(msg)) => m@ == msg,
        _ => false,
    }
}

pub open spec fn kind_result(r: Result<TokenKind, String>) -> Result<KindV, Seq<char>> {
    match r {
        Ok(k) => Ok(k@),
        Err(m) => Err(m@),
    }
}

fn word_is(w: &Vec<char>, lit: &str) -> (r: bool)
    ensures
        r == (w@ == lit@),
{
    let l = chars_of(lit);
    chars_eq(w, &l)
}

impl Lexer {
    /// The source characters.
    pub closed spec fn source(&self) -> Seq<char> {
        self.chars@
    }

    /// The grammar state.
    pub closed spec fn state(&self) -> LexState {
        LexState {
            pos: self.cursor as int,
            last: opt_kind_view(self.last_kind),
            paren: self.paren_nesting as int,
            bracket: self.bracket_nesting as int,
        }
    }

    /// Line and column track the cursor; nesting is bounded by the input read.
    pub closed spec fn wf(&self) -> bool {
        &&& self.cursor <= self.chars@.len()
        &&& self.chars@.len() < usize::MAX
        &&& self.line as int == line_at(self.chars@, self.cursor as int)
        &&& self.col as int == col_at(self.chars@, self.cursor as int)
        &&& self.paren_nesting + self.bracket_nesting <= self.cursor
    }

    pub proof fn lemma_wf_state(&self)
        requires
            self.wf(),
        ensures
            state_ok(self.source(), self.state()),
            self.source().len() < usize::MAX,
    {
    }

    closed spec fn same_except_pos(&self, other: &Lexer) -> bool {
        &&& self.chars@ == other.chars@
        &&& self.last_kind == other.last_kind
        &&& self.paren_nesting == other.paren_nesting
        &&& self.bracket_nesting == other.bracket_nesting
    }

    pub fn new(source: &str, filename: &str) -> (l: Self)
        requires
            source@.len() < usize::MAX,
        ensures
            l.wf(),
            l.source() == source@,
            l.state() == (LexState { pos: 0, last: None, paren: 0, bracket: 0 }),
    {
        let chars = chars_of(source);
        Lexer {
            chars,
            cursor: 0,
            line: 1,
            col: 1,
            filename: owned(filename),
            last_kind: None,
            paren_nesting: 0,
            bracket_nesting: 0,
        }
    }

    /// The line of the lexer's position.
    pub fn line(&self) -> (r: usize)
        requires
            self.wf(),
        ensures
            r as int == line_at(self.source(), self.state().pos),
    {
        self.line
    }

    /// The column of the lexer's position.
    pub fn col(&self) -> (r: usize)
        requires
            self.wf(),
        ensures
            r as int == col_at(self.source(), self.state().pos),
    {
        self.col
    }

    fn peek(&self) -> (r: Option<char>)
        requires
            self.wf(),
        ensures
            self.cursor < self.chars@.len() ==> r == Some(self.chars@[self.cursor as int]),
            self.cursor >= self.chars@.len() ==> r is None,
    {
        if self.cursor < self.chars.len() {
            Some(self.chars[self.cursor])
        } else {
            None
        }
    }

    fn peek_is(&self, c: char) -> (r: bool)
        requires
            self.wf(),
        ensures
            r == (self.cursor < self.chars@.len() && self.chars@[self.cursor as int] == c),
    {
        self.cursor < self.chars.len() && self.chars[self.cursor] == c
    }

    fn peek_next_is(&self, c: char) -> (r: bool)
        requires
            self.wf(),
        ensures
            r == (self.cursor + 1 < self.chars@.len() && self.chars@[self.cursor + 1] == c),
    {
        self.cursor + 1 < self.chars.len() && self.chars[self.cursor + 1] == c
    }

    fn advance(&mut self) -> (r: Option<char>)
        requires
            old(self).wf(),
        ensures
            final(self).wf(),
            final(self).same_except_pos(old(self)),
            old(self).cursor < old(self).chars@.len() ==> r == Some(old(self).chars@[old(self).cursor as int])
                && final(self).cursor == old(self).cursor + 1,
            old(self).cursor >= old(self).chars@.len() ==> r is None && final(self).cursor == old(self).cursor,
    {
        if self.cursor < self.chars.len() {
            let c = self.chars[self.cursor];
            proof {
                lemma_pos_bounds(self.chars@, self.cursor as int);
            }
            self.cursor = self.cursor + 1;
            if c == '\n' {
                self.line = self.line + 1;
                self.col = 1;
            } else {
                self.col = self.col + 1;
            }
            Some(c)
        } else {
            None
        }
    }

    fn current_span(&self, start_line: usize, start_col: usize) -> (sp: Span)
        ensures
            sp == (Span { start_line, start_col, end_line: self.line, end_col: self.col }),
    {
        Span::new(start_line, start_col, self.line, self.col)
    }

    /// Skips whitespace other than newlines, and comments.
    fn skip_trivia(&mut self) -> (r: Result<(), String>)
        requires
            old(self).wf(),
        ensures
            final(self).wf(),
            final(self).same_except_pos(old(self)),
            match skip_trivia(old(self).chars@, old(self).cursor as int) {
                Some(j) => r is Ok && final(self).cursor as int == j,
                None => r matches Err(m) && m@ == "Unterminated block comment"@
                    && final(self).cursor == old(self).chars@.len(),
            },
    {
        let ghost s = self.chars@;
        let ghost orig = self.cursor as int;
        loop
            invariant
                self.wf(),
                self.same_except_pos(old(self)),
                s == self.chars@,
                s == old(self).chars@,
                orig == old(self).cursor,
                orig <= self.cursor,
                skip_trivia(s, orig) == skip_trivia(s, self.cursor as int),
            decreases s.len() - self.cursor,
        {
            let c = match self.peek() {
                Some(c) => c,
                None => return Ok(()),
            };
            if c == '\n' {
                return Ok(());
            }
            if is_whitespace(c) {
                self.advance();
                continue;
            }
            if c == '/' {
                if self.peek_next_is('/') {
                    let ghost i = self.cursor as int;
                    self.advance();
                    self.advance();
                    while self.cursor < self.chars.len() && self.chars[self.cursor] != '\n'
                        invariant
                            self.wf(),
                            self.same_except_pos(old(self)),
                            s == self.chars@,
                            i + 2 <= self.cursor,
                            orig <= i,
                            s == old(self).chars@,
                            orig == old(self).cursor,
                            skip_trivia(s, orig) == skip_trivia(s, next_newline(s, self.cursor as int)),
                        decreases s.len() - self.cursor,
                    {
                        self.advance();
                    }
                    continue;
                } else if self.peek_next_is('*') {
                    let ghost i = self.cursor as int;
                    self.advance();
                    self.advance();
                    let mut depth: usize = 1;
                    while depth > 0
                        invariant
                            self.wf(),
                            self.same_except_pos(old(self)),
                            s == self.chars@,
                            orig <= i,
                            i + 2 <= self.cursor,
                            s == old(self).chars@,
                            orig == old(self).cursor,
                            depth <= self.cursor,
                            skip_trivia(s, orig) == (match block_end(s, self.cursor as int, depth as nat) {
                                Some(j) => skip_trivia(s, j),
                                None => None,
                            }),
                        decreases s.len() - self.cursor,
                    {
                        let nc = match self.advance() {
                            Some(nc) => nc,
                            None => return Err(owned("Unterminated block comment")),
                        };
                        if nc == '/' && self.peek_is('*') {
                            self.advance();
                            depth = depth + 1;
                        } else if nc == '*' && self.peek_is('/') {
                            self.advance();
                            depth = depth - 1;
                        }
                    }
                    continue;
                }
            }
            return Ok(());
        }
    }
}


impl Lexer {
    fn lex_ident(&mut self) -> (k: TokenKind)
        requires
            old(self).wf(),
            old(self).cursor < old(self).chars@.len(),
            spec_is_alphabetic(old(self).chars@[old(self).cursor as int])
                || old(self).chars@[old(self).cursor as int] == '_',
        ensures
            final(self).wf(),
            final(self).same_except_pos(old(self)),
            final(self).cursor as int == ident_end(old(self).chars@, old(self).cursor as int),
            k@ == keyword(old(self).chars@.subrange(old(self).cursor as int, final(self).cursor as int)),
    {
        let ghost s = self.chars@;
        let start = self.cursor;
        let mut ident: Vec<char> = Vec::new();
        while self.cursor < self.chars.len()
            && (is_alphanumeric(self.chars[self.cursor]) || self.chars[self.cursor] == '_')
            invariant
                self.wf(),
                self.same_except_pos(old(self)),
                s == self.chars@,
                s == old(self).chars@,
                start == old(self).cursor,
                start <= self.cursor,
                ident@ == s.subrange(start as int, self.cursor as int),
                ident_end(s, start as int) == ident_end(s, self.cursor as int),
            decreases s.len() - self.cursor,
        {
            let c = self.chars[self.cursor];
            self.advance();
            ident.push(c);
            assert(ident@ =~= s.subrange(start as int, self.cursor as int));
        }
        if word_is(&ident, "module") { TokenKind::Module }
        else if word_is(&ident, "use") { TokenKind::Use }
        else if word_is(&ident, "as") { TokenKind::As }
        else if word_is(&ident, "pub") { TokenKind::Pub }
        else if word_is(&ident, "fn") { TokenKind::Fn }
        else if word_is(&ident, "struct") { TokenKind::Struct }
        else if word_is(&ident, "enum") { TokenKind::Enum }
        else if word_is(&ident, "impl") { TokenKind::Impl }
        else if word_is(&ident, "let") { TokenKind::Let }
        else if word_is(&ident, "mut") { TokenKind::Mut }
        else if word_is(&ident, "return") { TokenKind::Return }
        else if word_is(&ident, "raw") { TokenKind::Raw }
        else if word_is(&ident, "if") { TokenKind::If }
        else if word_is(&ident, "else") { TokenKind::Else }
        else if word_is(&ident, "match") { TokenKind::Match }
        else if word_is(&ident, "for") { TokenKind::For }
        else if word_is(&ident, "in") { TokenKind::In }
        else if word_is(&ident, "while") { TokenKind::While }
        else if word_is(&ident, "comptime") { TokenKind::Comptime }
        else if word_is(&ident, "where") { TokenKind::Where }
        else if word_is(&ident, "true") { TokenKind::Bool(true) }
        else if word_is(&ident, "false") { TokenKind::Bool(false) }
        else { TokenKind::Ident(string_of(&ident)) }
    }

    fn lex_string(&mut self) -> (r: Result<TokenKind, String>)
        requires
            old(self).wf(),
            old(self).cursor < old(self).chars@.len(),
            old(self).chars@[old(self).cursor as int] == '"',
        ensures
            final(self).wf(),
            final(self).same_except_pos(old(self)),
            ({
                let (res, e) = str_scan(old(self).chars@, old(self).cursor + 1, Seq::empty());
                &&& final(self).cursor as int == e
                &&& match (r, res) {
                    (Ok(k), Ok(v)) => k@ == KindV::Str(v),
                    (Err(m), Err(msg)) => m@ == msg,
                    _ => false,
                }
            }),
    {
        let ghost s = self.chars@;
        let ghost start = self.cursor as int;
        self.advance();
        let mut val: Vec<char> = Vec::new();
        while self.cursor < self.chars.len()
            invariant
                self.wf(),
                self.same_except_pos(old(self)),
                s == self.chars@,
                s == old(self).chars@,
                start == old(self).cursor,
                str_scan(s, start + 1, Seq::empty()) == str_scan(s, self.cursor as int, val@),
            decreases s.len() - self.cursor,
        {
            let nc = self.chars[self.cursor];
            if nc == '"' {
                self.advance();
                return Ok(TokenKind::Str(string_of(&val)));
            }
            if nc == '\\' {
                self.advance();
                let escaped = match self.advance() {
                    Some(e) => e,
                    None => return Err(owned("Unterminated string literal")),
                };
                let x = if escaped == 'n' { '\n' }
                    else if escaped == 'r' { '\r' }
                    else if escaped == 't' { '\t' }
                    else if escaped == '\\' { '\\' }
                    else if escaped == '"' { '"' }
                    else if escaped == '\'' { '\'' }
                    else {
                        let mut m: Vec<char> = Vec::new();
                        append_str(&mut m, "Invalid string escape: \\");
                        m.push(escaped);
                        return Err(string_of(&m));
                    };
                val.push(x);
            } else {
                self.advance();
                val.push(nc);
            }
        }
        Err(owned("Unterminated string literal"))
    }

    fn lex_operator(&mut self) -> (r: Result<TokenKind, String>)
        requires
            old(self).wf(),
            old(self).cursor < old(self).chars@.len(),
        ensures
            final(self).wf(),
            final(self).same_except_pos(old(self)),
            op_at(old(self).chars@, old(self).cursor as int) == (kind_result(r), final(self).cursor as int),
    {
        let c = self.chars[self.cursor];
        if c == '+' { self.advance(); return Ok(TokenKind::Plus); }
        if c == '-' {
            self.advance();
            if self.peek_is('>') { self.advance(); return Ok(TokenKind::Arrow); }
            return Ok(TokenKind::Minus);
        }
        if c == '*' { self.advance(); return Ok(TokenKind::Star); }
        if c == '/' { self.advance(); return Ok(TokenKind::Slash); }
        if c == '=' {
            self.advance();
            if self.peek_is('=') { self.advance(); return Ok(TokenKind::EqEq); }
            if self.peek_is('>') { self.advance(); return Ok(TokenKind::FatArrow); }
            return Ok(TokenKind::Eq);
        }
        if c == '!' {
            self.advance();
            if self.peek_is('=') { self.advance(); return Ok(TokenKind::Ne); }
            return Ok(TokenKind::Bang);
        }
        if c == '<' {
            self.advance();
            if self.peek_is('=') { self.advance(); return Ok(TokenKind::Le); }
            return Ok(TokenKind::Lt);
        }
        if c == '>' {
            self.advance();
            if self.peek_is('=') { self.advance(); return Ok(TokenKind::Ge); }
            return Ok(TokenKind::Gt);
        }
        if c == '&' {
            self.advance();
            if self.peek_is('&') { self.advance(); return Ok(TokenKind::AmpAmp); }
            return Ok(TokenKind::Amp);
        }
        if c == '|' {
            self.advance();
            if self.peek_is('|') { self.advance(); return Ok(TokenKind::PipePipe); }
            return Err(owned("Single pipe '|' operator is not defined"));
        }
        if c == '?' { self.advance(); return Ok(TokenKind::TryOp); }
        if c == ',' { self.advance(); return Ok(TokenKind::Comma); }
        if c == ':' {
            self.advance();
            if self.peek_is(':') { self.advance(); return Ok(TokenKind::ColonColon); }
            return Ok(TokenKind::Colon);
        }
        if c == '(' { self.advance(); return Ok(TokenKind::LParen); }
        if c == ')' { self.advance(); return Ok(TokenKind::RParen); }
        if c == '{' { self.advance(); return Ok(TokenKind::LBrace); }
        if c == '}' { self.advance(); return Ok(TokenKind::RBrace); }
        if c == '[' { self.advance(); return Ok(TokenKind::LBracket); }
        if c == ']' { self.advance(); return Ok(TokenKind::RBracket); }
        if c == '.' { self.advance(); return Ok(TokenKind::Dot); }
        if c == ';' { self.advance(); return Ok(TokenKind::Semicolon); }
        let mut m: Vec<char> = Vec::new();
        append_str(&mut m, "Unexpected character: '");
        m.push(c);
        append_str(&mut m, "'");
        assert(m@ =~= "Unexpected character: '"@ + seq![c] + "'"@);
        Err(string_of(&m))
    }
}


// ---------------------------------------------------------------------------
// Number literals
// ---------------------------------------------------------------------------

fn strip_underscores_exec(t: &Vec<char>) -> (r: Vec<char>)
    ensures
        r@ == strip_underscores(t@),
{
    let mut r: Vec<char> = Vec::new();
    let mut i: usize = 0;
    assert(t@.subrange(0, 0) =~= Seq::<char>::empty());
    while i < t.len()
        invariant
            i <= t@.len(),
            r@ == strip_underscores(t@.subrange(0, i as int)),
        decreases t@.len() - i,
    {
        assert(t@.subrange(0, i + 1).drop_last() =~= t@.subrange(0, i as int));
        if t[i] != '_' {
            r.push(t[i]);
        }
        i = i + 1;
    }
    assert(t@.subrange(0, t@.len() as int) =~= t@);
    r
}

fn strip_all_exec(t: &Vec<char>, p: &Vec<char>) -> (r: Vec<char>)
    requires
        p@.len() > 0,
    ensures
        r@ == strip_all(t@, p@),
{
    let mut i: usize = 0;
    let n = t.len();
    assert(t@.skip(0) =~= t@);
    while crate::text::matches_at(t, i, p)
        invariant
            n == t@.len(),
            i <= n,
            p@.len() > 0,
            strip_all(t@, p@) == strip_all(t@.skip(i as int), p@),
        decreases n - i,
    {
        assert(t@.skip(i as int).subrange(0, p@.len() as int) =~= t@.subrange(i as int, i + p@.len()));
        assert(t@.skip(i as int).skip(p@.len() as int) =~= t@.skip(i + p@.len()));
        i = i + p.len();
    }
    assert(!(p@.len() <= t@.skip(i as int).len()
        && t@.skip(i as int).subrange(0, p@.len() as int) == p@)) by {
        if p@.len() <= t@.skip(i as int).len() {
            assert(t@.skip(i as int).subrange(0, p@.len() as int) =~= t@.subrange(i as int, i + p@.len()));
        }
    }
    assert(t@.skip(i as int) =~= t@.subrange(i as int, n as int));
    crate::text::slice_chars(t, i, n)
}

fn digit_value_exec(c: char, radix: u64) -> (r: Option<u64>)
    requires
        radix == 2 || radix == 10 || radix == 16,
    ensures
        match digit_value(c, radix as nat) {
            Some(d) => r == Some(d as u64),
            None => r is None,
        },
{
    if '0' <= c && c <= '9' {
        let d = (c as u32 - '0' as u32) as u64;
        if d < radix {
            return Some(d);
        }
    }
    if radix == 16 && 'a' <= c && c <= 'f' {
        return Some((c as u32 - 'a' as u32 + 10) as u64);
    }
    if radix == 16 && 'A' <= c && c <= 'F' {
        return Some((c as u32 - 'A' as u32 + 10) as u64);
    }
    None
}

proof fn lemma_parse_digits_err(t: Seq<char>, m: int, n: int, radix: nat)
    requires
        0 <= m <= n,
        parse_digits(t, m, radix) is Err,
    ensures
        parse_digits(t, n, radix) == parse_digits(t, m, radix),
    decreases n - m,
{
    if n > m {
        lemma_parse_digits_err(t, m, n - 1, radix);
    }
}

fn parse_radix_exec(t: &Vec<char>, radix: u64) -> (r: Result<i64, IntError>)
    requires
        radix == 2 || radix == 10 || radix == 16,
    ensures
        match (r, parse_radix(t@, radix as nat)) {
            (Ok(v), Ok(w)) => v as int == w,
            (Err(IntError::Empty), Err(IntError::Empty)) => true,
            (Err(IntError::InvalidDigit), Err(IntError::InvalidDigit)) => true,
            (Err(IntError::PosOverflow), Err(IntError::PosOverflow)) => true,
            _ => false,
        },
{
    if t.len() == 0 {
        return Err(IntError::Empty);
    }
    let mut v: i64 = 0;
    let mut i: usize = 0;
    while i < t.len()
        invariant
            i <= t@.len(),
            radix == 2 || radix == 10 || radix == 16,
            v >= 0,
            parse_digits(t@, i as int, radix as nat) == Ok::<int, IntError>(v as int),
        decreases t@.len() - i,
    {
        let d = match digit_value_exec(t[i], radix) {
            Some(d) => d,
            None => {
                proof {
                    lemma_parse_digits_err(t@, i + 1, t@.len() as int, radix as nat);
                }
                return Err(IntError::InvalidDigit);
            }
        };
        assert((v as int) * (radix as int) <= 16 * 0x7fff_ffff_ffff_ffffint) by (nonlinear_arith)
            requires
                0 <= v <= 0x7fff_ffff_ffff_ffffint,
                radix <= 16,
        ;
        assert((v as int) * (radix as int) >= 0) by (nonlinear_arith)
            requires
                0 <= v,
                0 <= radix,
        ;
        let w: i128 = (v as i128) * (radix as i128) + (d as i128);
        if w > 0x7fff_ffff_ffff_ffffi128 {
            proof {
                lemma_parse_digits_err(t@, i + 1, t@.len() as int, radix as nat);
            }
            return Err(IntError::PosOverflow);
        }
        v = w as i64;
        i = i + 1;
    }
    Ok(v)
}

fn digits_end_exec(t: &Vec<char>, i: usize) -> (r: usize)
    requires
        i <= t@.len(),
    ensures
        r as int == digits_end(t@, i as int),
        i <= r <= t@.len(),
{
    let mut k = i;
    while k < t.len() && is_ascii_digit(t[k])
        invariant
            i <= k <= t@.len(),
            digits_end(t@, i as int) == digits_end(t@, k as int),
        decreases t@.len() - k,
    {
        k = k + 1;
    }
    k
}

fn float_valid_exec(t: &Vec<char>) -> (r: bool)
    ensures
        r == float_valid(t@),
{
    let a = digits_end_exec(t, 0);
    if !(a >= 1 && a < t.len() && t[a] == '.') {
        return false;
    }
    let b = digits_end_exec(t, a + 1);
    if b == t.len() {
        return true;
    }
    if t[b] == 'e' || t[b] == 'E' {
        let c = digits_end_exec(t, b + 1);
        c > b + 1 && c == t.len()
    } else {
        false
    }
}

impl Lexer {
    fn lex_number(&mut self) -> (r: Result<TokenKind, String>)
        requires
            old(self).wf(),
            old(self).cursor < old(self).chars@.len(),
            spec_is_ascii_digit(old(self).chars@[old(self).cursor as int]),
        ensures
            final(self).wf(),
            final(self).same_except_pos(old(self)),
            number_at(old(self).chars@, old(self).cursor as int) == (kind_result(r), final(self).cursor as int),
    {
        let ghost s = self.chars@;
        let j = self.cursor;
        let mut num: Vec<char> = Vec::new();
        let mut radix: u64 = 10;
        let c = self.chars[j];
        if c == '0' && (self.peek_next_is('x') || self.peek_next_is('X')) {
            radix = 16;
            let c1 = self.chars[self.cursor];
            self.advance();
            num.push(c1);
            let c2 = self.chars[self.cursor];
            self.advance();
            num.push(c2);
        } else if c == '0' && (self.peek_next_is('b') || self.peek_next_is('B')) {
            radix = 2;
            let c1 = self.chars[self.cursor];
            self.advance();
            num.push(c1);
            let c2 = self.chars[self.cursor];
            self.advance();
            num.push(c2);
        }
        assert(num@ =~= s.subrange(j as int, self.cursor as int));
        let ghost k = self.cursor as int;
        assert(num_prefix(s, j as int) == (k, radix as nat));
        let prefixed = radix != 10;
        let mut is_float = false;
        let mut done = false;
        while !done && self.cursor < self.chars.len()
            invariant
                self.wf(),
                self.same_except_pos(old(self)),
                s == self.chars@,
                s == old(self).chars@,
                j == old(self).cursor,
                j <= k <= self.cursor,
                prefixed == (radix != 10),
                num@ == s.subrange(j as int, self.cursor as int),
                !done ==> num_scan(s, k, prefixed).0 == num_scan(s, self.cursor as int, prefixed).0
                    && num_scan(s, k, prefixed).1 == (is_float || num_scan(s, self.cursor as int, prefixed).1),
                done ==> num_scan(s, k, prefixed) == (self.cursor as int, is_float),
            decreases s.len() - self.cursor + if done { 0int } else { 1int },
        {
            let nc = self.chars[self.cursor];
            let digit = if prefixed { is_ascii_hexdigit(nc) } else { is_ascii_digit(nc) };
            if digit || nc == '_' || nc == '.' {
                if nc == '.' {
                    if radix != 10 {
                        done = true;
                    } else if self.cursor + 1 < self.chars.len() && is_ascii_digit(self.chars[self.cursor + 1]) {
                        is_float = true;
                        self.advance();
                        num.push(nc);
                    } else {
                        done = true;
                    }
                } else {
                    self.advance();
                    num.push(nc);
                }
            } else {
                done = true;
            }
            assert(num@ =~= s.subrange(j as int, self.cursor as int));
        }
        let e = self.cursor;
        assert(num_scan(s, k, prefixed) == (e as int, is_float));
        let mut suffix: Option<String> = None;
        if e < self.chars.len() && (self.chars[e] == 'u' || self.chars[e] == 'i' || self.chars[e] == 'f') {
            let mut sv: Vec<char> = Vec::new();
            while self.cursor < self.chars.len() && is_alphanumeric(self.chars[self.cursor])
                invariant
                    self.wf(),
                    self.same_except_pos(old(self)),
                    s == self.chars@,
                    e <= self.cursor,
                    sv@ == s.subrange(e as int, self.cursor as int),
                    alnum_end(s, e as int) == alnum_end(s, self.cursor as int),
                decreases s.len() - self.cursor,
            {
                let ch = self.chars[self.cursor];
                self.advance();
                sv.push(ch);
                assert(sv@ =~= s.subrange(e as int, self.cursor as int));
            }
            suffix = Some(string_of(&sv));
        }
        let cleaned = strip_underscores_exec(&num);
        if is_float {
            if float_valid_exec(&cleaned) {
                Ok(TokenKind::Float(string_of(&cleaned), suffix))
            } else {
                Err(owned("invalid float literal"))
            }
        } else {
            let digits = if radix == 16 {
                let a = strip_all_exec(&cleaned, &vec!['0', 'x']);
                strip_all_exec(&a, &vec!['0', 'X'])
            } else if radix == 2 {
                let a = strip_all_exec(&cleaned, &vec!['0', 'b']);
                strip_all_exec(&a, &vec!['0', 'B'])
            } else {
                cleaned
            };
            match parse_radix_exec(&digits, radix) {
                Ok(v) => Ok(TokenKind::Int(v, suffix)),
                Err(IntError::Empty) => Err(owned("cannot parse integer from empty string")),
                Err(IntError::InvalidDigit) => Err(owned("invalid digit found in string")),
                Err(IntError::PosOverflow) => Err(owned("number too large to fit in target type")),
            }
        }
    }
}


impl Lexer {
    /// Reads the next raw token, skipping whitespace and comments but
    /// yielding newlines.
    fn next_raw_token(&mut self) -> (r: Result<Option<Token>, String>)
        requires
            old(self).wf(),
        ensures
            final(self).wf(),
            final(self).same_except_pos(old(self)),
            match (r, raw_token(old(self).chars@, old(self).cursor as int)) {
                (Ok(None), RawOutcome::End) => final(self).cursor == old(self).chars@.len(),
                (Ok(Some(t)), RawOutcome::Tok(k, a, b)) => token_is(t, old(self).chars@, k, a, b)
                    && final(self).cursor as int == b,
                (Err(m), RawOutcome::Fail(msg, e)) => m@ == msg && final(self).cursor as int == e,
                _ => false,
            },
    {
        let ghost s = self.chars@;
        match self.skip_trivia() {
            Err(e) => return Err(e),
            Ok(()) => {}
        }
        let start_line = self.line;
        let start_col = self.col;
        let ghost j = self.cursor as int;
        let c = match self.peek() {
            Some(c) => c,
            None => return Ok(None),
        };
        if c == '\n' {
            self.advance();
            let span = self.current_span(start_line, start_col);
            return Ok(Some(Token { kind: TokenKind::Newline, span }));
        }
        if is_alphabetic(c) || c == '_' {
            let kind = self.lex_ident();
            let span = self.current_span(start_line, start_col);
            return Ok(Some(Token { kind, span }));
        }
        if is_ascii_digit(c) {
            let r = self.lex_number();
            let span = self.current_span(start_line, start_col);
            return match r {
                Ok(kind) => Ok(Some(Token { kind, span })),
                Err(e) => Err(e),
            };
        }
        if c == '"' {
            let r = self.lex_string();
            let span = self.current_span(start_line, start_col);
            return match r {
                Ok(kind) => Ok(Some(Token { kind, span })),
                Err(e) => Err(e),
            };
        }
        let r = self.lex_operator();
        let span = self.current_span(start_line, start_col);
        match r {
            Ok(kind) => Ok(Some(Token { kind, span })),
            Err(e) => Err(e),
        }
    }

    /// Retrieves the next token, turning line breaks into semicolons where a
    /// statement can end.
    pub fn next_token(&mut self) -> (r: Result<Token, String>)
        requires
            old(self).wf(),
        ensures
            final(self).wf(),
            final(self).source() == old(self).source(),
            ({
                let (o, st) = next_token_spec(old(self).source(), old(self).state());
                final(self).state() == st && result_is(r, old(self).source(), o)
            }),
    {
        let ghost s = self.chars@;
        let ghost st0 = self.state();
        loop
            invariant
                self.wf(),
                s == self.chars@,
                s == old(self).chars@,
                st0 == old(self).state(),
                next_token_spec(s, st0) == next_token_spec(s, self.state()),
            decreases s.len() - self.cursor,
        {
            let ghost before = self.state();
            let raw = self.next_raw_token();
            match raw {
                Err(e) => {
                    return Err(e);
                }
                Ok(None) => {
                    let start_line = self.line;
                    let start_col = self.col;
                    let eof_span = Span::new(start_line, start_col, start_line, start_col);
                    let ends = match &self.last_kind {
                        Some(last) => last.can_terminate_statement() && self.paren_nesting == 0
                            && self.bracket_nesting == 0,
                        None => false,
                    };
                    if ends {
                        self.last_kind = None;
                        return Ok(Token { kind: TokenKind::Semicolon, span: eof_span });
                    }
                    return Ok(Token { kind: TokenKind::EOF, span: eof_span });
                }
                Ok(Some(tok)) => {
                    let mut tok = tok;
                    if let TokenKind::Newline = tok.kind {
                        let ends = match &self.last_kind {
                            Some(last) => last.can_terminate_statement() && self.paren_nesting == 0
                                && self.bracket_nesting == 0,
                            None => false,
                        };
                        if ends {
                            self.last_kind = None;
                            tok.kind = TokenKind::Semicolon;
                            return Ok(tok);
                        }
                        proof {
                            lemma_raw_token(s, before.pos);
                        }
                        continue;
                    }
                    if let TokenKind::Semicolon = tok.kind {
                        self.last_kind = None;
                        return Ok(tok);
                    }
                    proof {
                        lemma_raw_token(s, before.pos);
                    }
                    match tok.kind {
                        TokenKind::LParen => {
                            self.paren_nesting = self.paren_nesting + 1;
                        }
                        TokenKind::RParen => {
                            self.paren_nesting = if self.paren_nesting > 0 { self.paren_nesting - 1 } else { 0 };
                        }
                        TokenKind::LBracket => {
                            self.bracket_nesting = self.bracket_nesting + 1;
                        }
                        TokenKind::RBracket => {
                            self.bracket_nesting = if self.bracket_nesting > 0 { self.bracket_nesting - 1 } else { 0 };
                        }
                        _ => {}
                    }
                    self.last_kind = Some(tok.kind.copy());
                    return Ok(tok);
                }
            }
        }
    }

    /// The potential of the lexer, computed.
    pub fn measure(&self) -> (r: u128)
        requires
            self.wf(),
        ensures
            r as int == potential(self.source(), self.state()),
    {
        let ends = match &self.last_kind {
            Some(last) => last.can_terminate_statement() && self.paren_nesting == 0
                && self.bracket_nesting == 0,
            None => false,
        };
        let rem = (self.chars.len() - self.cursor) as u128;
        3 * rem + if ends { 1u128 } else { 0u128 }
    }

    /// Lexes every token up to and including `EOF`.
    pub fn lex_all(&mut self) -> (r: Result<Vec<Token>, String>)
        requires
            old(self).wf(),
        ensures
            final(self).wf(),
            final(self).source() == old(self).source(),
            match (r, lex_all_spec(old(self).source(), old(self).state())) {
                (Ok(ts), Ok(vs)) => ts@.len() == vs.len() && forall|i: int|
                    0 <= i < ts@.len() ==> token_is(#[trigger] ts@[i], old(self).source(), vs[i].0, vs[i].1, vs[i].2),
                (Err(m), Err(msg)) => m@ == msg,
                _ => false,
            },
    {
        let ghost s = self.chars@;
        let ghost st0 = self.state();
        let mut tokens: Vec<Token> = Vec::new();
        let ghost mut done: Seq<(KindV, int, int)> = Seq::empty();
        loop
            invariant
                self.wf(),
                s == self.chars@,
                s == old(self).chars@,
                st0 == old(self).state(),
                state_ok(s, self.state()),
                tokens@.len() == done.len(),
                forall|i: int| 0 <= i < tokens@.len() ==> token_is(#[trigger] tokens@[i], s, done[i].0, done[i].1, done[i].2),
                lex_all_spec(s, st0) == (match lex_all_spec(s, self.state()) {
                    Ok(rest) => Ok(done + rest),
                    Err(m) => Err::<Seq<(KindV, int, int)>, Seq<char>>(m),
                }),
            decreases potential(s, self.state()),
        {
            let ghost before = self.state();
            proof {
                lemma_next_token(s, before);
            }
            let tok = self.next_token()?;
            let is_eof = match tok.kind {
                TokenKind::EOF => true,
                _ => false,
            };
            let ghost item = (tok.kind@, 0int, 0int);
            proof {
                let (o, st2) = next_token_spec(s, before);
                if let NextOutcome::Tok(k, a, b) = o {
                    item = (k, a, b);
                }
                let old_done = done;
                done = done.push(item);
                if !is_eof {
                    assert(lex_all_spec(s, before) == (match lex_all_spec(s, st2) {
                        Ok(rest) => Ok(seq![item] + rest),
                        Err(m) => Err::<Seq<(KindV, int, int)>, Seq<char>>(m),
                    }));
                    match lex_all_spec(s, st2) {
                        Ok(r2) => {
                            assert(old_done + (seq![item] + r2) =~= done + r2);
                        }
                        Err(_) => {}
                    }
                }
            }
            tokens.push(tok);
            if is_eof {
                assert(done =~= done.drop_last() + seq![item]);
                assert(done + Seq::<(KindV, int, int)>::empty() =~= done);
                return Ok(tokens);
            }
        }
    }
}


} // verus!
