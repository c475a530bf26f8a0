//! Tokens and the source positions they occupy.
use vstd::prelude::*;

use crate::interning::{handle_value, text_of, IntHandle, Text};

verus! {

/// A lexical unit together with where it stands in the input.
#[derive(Debug, PartialEq, Copy, Clone)]
pub struct Token {
    pub data: TokenData,
    pub span: Span,
}

/// The kind of a token, with its payload.
#[derive(Debug, PartialEq, Copy, Clone)]
pub enum TokenData {
    LParen,
    RParen,
    LBrack,
    RBrack,
    LBrace,
    RBrace,
    /// An identifier; a raw one (written with `#`) is never a reserved word.
    Ident { raw: bool, val: Text },
    KwTrue,
    KwFalse,
    IntLit(IntHandle),
}

/// The payload of a token with its handles resolved to their contents.
pub enum DataView {
    LParen,
    RParen,
    LBrack,
    RBrack,
    LBrace,
    RBrace,
    Ident { raw: bool, text: Seq<char> },
    KwTrue,
    KwFalse,
    IntLit(int),
}

/// A token with its handles resolved to their contents.
pub struct TokenView {
    pub data: DataView,
    pub span: Span,
}

impl View for TokenData {
    type V = DataView;

    open spec fn view(&self) -> DataView {
        match *self {
            TokenData::LParen => DataView::LParen,
            TokenData::RParen => DataView::RParen,
            TokenData::LBrack => DataView::LBrack,
            TokenData::RBrack => DataView::RBrack,
            TokenData::LBrace => DataView::LBrace,
            TokenData::RBrace => DataView::RBrace,
            TokenData::Ident { raw, val } => DataView::Ident { raw, text: text_of(val) },
            TokenData::KwTrue => DataView::KwTrue,
            TokenData::KwFalse => DataView::KwFalse,
            TokenData::IntLit(v) => DataView::IntLit(handle_value(v)),
        }
    }
}

impl TokenData {
    /// Every handle of the payload is the only handle to its contents, so any
    /// payload with the same contents is this one.
    pub open spec fn canonical(self) -> bool {
        match self {
            TokenData::Ident { val, .. } => forall|h: Text| text_of(h) == text_of(val) ==> h == val,
            TokenData::IntLit(v) => forall|h: IntHandle| handle_value(h) == handle_value(v) ==> h == v,
            _ => true,
        }
    }
}

/// Tokens with the same contents and span are equal when the payload of one
/// of them is canonical: scanning the same text twice gives the same token.
pub proof fn lemma_canonical_unique(a: Token, b: Token)
    requires
        a.data.canonical(),
        a@ == b@,
    ensures
        a == b,
{
    match a.data {
        TokenData::Ident { val, .. } => {
            if let TokenData::Ident { val: w, .. } = b.data {
                assert(text_of(w) == text_of(val));
            }
        },
        TokenData::IntLit(v) => {
            if let TokenData::IntLit(w) = b.data {
                assert(handle_value(w) == handle_value(v));
            }
        },
        _ => {},
    }
}

impl View for Token {
    type V = TokenView;

    open spec fn view(&self) -> TokenView {
        TokenView { data: self.data@, span: self.span }
    }
}

/// The stretch of input a token occupies: a single character when `end` is
/// `None`, else the characters from `start` up to but not including `end`.
#[derive(Debug, PartialEq, Eq, Copy, Clone, Structural)]
pub struct Span {
    pub start: Position,
    pub end: Option<Position>,
}

impl Span {
    /// A span of one character.
    pub fn point(point: Position) -> (r: Span)
        ensures
            r == (Span { start: point, end: None }),
    {
        Span { start: point, end: None }
    }

    /// A span from `start` up to `end`.
    pub fn new(start: Position, end: Position) -> (r: Span)
        ensures
            r == (Span { start, end: Some(end) }),
    {
        Span { start, end: Some(end) }
    }

    /// The end, when present, does not come before the start.
    pub open spec fn well_ordered(self) -> bool {
        match self.end {
            Some(e) => self.start.le(e),
            None => true,
        }
    }
}

/// A line and column in the input.
#[derive(Debug, PartialEq, Eq, Copy, Clone, Structural)]
pub struct Position {
    pub lin: u32,
    pub col: u32,
}

impl Position {
    pub fn new(lin: u32, col: u32) -> (r: Position)
        ensures
            r == (Position { lin, col }),
    {
        Position { lin, col }
    }

    /// The position that follows consuming `c` from this one: a newline starts
    /// the next line at column 1, a tab moves four columns on, anything else one.
    /// Both counters stop at `u32::MAX`.
    pub open spec fn after(self, c: char) -> Position {
        if c == '\n' {
            Position { lin: self.lin.saturating_add(1), col: 1 }
        } else if c == '\t' {
            Position { lin: self.lin, col: self.col.saturating_add(4) }
        } else {
            Position { lin: self.lin, col: self.col.saturating_add(1) }
        }
    }

    /// The position as `line:column` text, in decimal.
    pub fn to_string(&self) -> (r: String)
        ensures
            r@ == decimal(self.lin as nat) + seq![':'] + decimal(self.col as nat),
    {
        let mut out: Vec<char> = Vec::new();
        push_decimal(self.lin, &mut out);
        out.push(':');
        push_decimal(self.col, &mut out);
        proof {
            assert(out@ =~= decimal(self.lin as nat) + seq![':'] + decimal(self.col as nat));
        }
        string_from(&out)
    }

    /// Lexical order: by line, then by column.
    pub open spec fn le(self, other: Position) -> bool {
        self.lin < other.lin || (self.lin == other.lin && self.col <= other.col)
    }
}

/// The character of a decimal digit.
pub open spec fn digit_char(d: nat) -> char {
    ((48 + d) as u8) as char
}

/// The decimal digits of `n`, most significant first, with no leading zero.
pub open spec fn decimal(n: nat) -> Seq<char>
    decreases n,
{
    if n < 10 {
        seq![digit_char(n)]
    } else {
        decimal(n / 10).push(digit_char(n % 10))
    }
}

/// Appends the decimal digits of `n` to `out`.
fn push_decimal(n: u32, out: &mut Vec<char>)
    ensures
        final(out)@ == old(out)@ + decimal(n as nat),
    decreases n,
{
    if n >= 10 {
        push_decimal(n / 10, out);
    }
    let d: u8 = (n % 10) as u8;
    out.push((48u8 + d) as char);
    proof {
        if n >= 10 {
            assert(decimal(n as nat) == decimal((n / 10) as nat).push(digit_char((n % 10) as nat)));
        }
        assert(out@ =~= old(out)@ + decimal(n as nat));
    }
}

/// Relies on `String`'s `FromIterator<&char>`: the string holds the characters
/// in order.
#[verifier::external_body]
fn string_from(chars: &Vec<char>) -> (r: String)
    ensures
        r@ == chars@,
{
    chars.iter().collect()
}

} // verus!
