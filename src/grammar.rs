//! The token grammar, stated over the decoded characters of a byte sequence.
use vstd::prelude::*;

use crate::error::{Error, Kind};
use crate::token::{DataView, Position, Span, TokenView};
use crate::utf8::decode;

verus! {

/// Characters skipped between tokens: space, tab, carriage return and newline.
pub open spec fn is_blank(c: char) -> bool {
    c == ' ' || c == '\t' || c == '\r' || c == '\n'
}

pub open spec fn is_letter(c: char) -> bool {
    ('a' <= c && c <= 'z') || ('A' <= c && c <= 'Z')
}

pub open spec fn is_digit(c: char) -> bool {
    '0' <= c && c <= '9'
}

pub open spec fn is_hex_digit(c: char) -> bool {
    is_digit(c) || ('a' <= c && c <= 'f') || ('A' <= c && c <= 'F')
}

/// A character that may start an identifier.
pub open spec fn starts_ident(c: char) -> bool {
    c == '_' || is_letter(c)
}

/// The characters that a maximal run takes.
#[derive(PartialEq, Eq, Copy, Clone, Structural)]
pub enum Class {
    /// `_`, ASCII letters and ASCII digits.
    Ident,
    /// ASCII hexadecimal digits.
    Hex,
    /// ASCII decimal digits.
    Decimal,
}

impl Class {
    /// Whether `c` belongs to the class.
    pub fn accepts(self, c: char) -> (r: bool)
        ensures
            r == self.holds(c),
    {
        match self {
            Class::Ident => c == '_' || ('a' <= c && c <= 'z') || ('A' <= c && c <= 'Z') || ('0' <= c
                && c <= '9'),
            Class::Hex => ('0' <= c && c <= '9') || ('a' <= c && c <= 'f') || ('A' <= c && c <= 'F'),
            Class::Decimal => '0' <= c && c <= '9',
        }
    }

    pub open spec fn holds(self, c: char) -> bool {
        match self {
            Class::Ident => starts_ident(c) || is_digit(c),
            Class::Hex => is_hex_digit(c),
            Class::Decimal => is_digit(c),
        }
    }
}

/// Decoding moves forward and stays within the input.
pub proof fn lemma_decode_advances(b: Seq<u8>, i: int)
    ensures
        decode(b, i) matches Ok((_, e)) ==> i < e <= b.len(),
{
}

#[via_fn]
proof fn scan_decreases(b: Seq<u8>, i: int, p: Position, cl: Class) {
    lemma_decode_advances(b, i);
}

#[via_fn]
proof fn skip_decreases(b: Seq<u8>, i: int, p: Position) {
    lemma_decode_advances(b, i);
}

/// Every character of a run belongs to its class.
pub proof fn lemma_scan_class(b: Seq<u8>, i: int, p: Position, cl: Class)
    ensures
        forall|k: int| 0 <= k < scan(b, i, p, cl).0.len() ==> cl.holds(#[trigger] scan(b, i, p, cl).0[k]),
    decreases b.len() - i,
{
    lemma_decode_advances(b, i);
    if let Ok((c, e)) = decode(b, i) {
        if cl.holds(c) {
            lemma_scan_class(b, e, p.after(c), cl);
            let rest = scan(b, e, p.after(c), cl).0;
            assert forall|k: int| 0 <= k < scan(b, i, p, cl).0.len() implies cl.holds(
                #[trigger] scan(b, i, p, cl).0[k],
            ) by {
                if k > 0 {
                    assert(scan(b, i, p, cl).0[k] == rest[k - 1]);
                }
            }
        }
    }
}

/// The maximal run of characters of class `cl` from byte `i` and position
/// `p`: its text, the byte index after it and the position after it. The run
/// ends at the first character outside the class, or where decoding fails.
pub open spec fn scan(b: Seq<u8>, i: int, p: Position, cl: Class) -> (Seq<char>, int, Position)
    decreases b.len() - i,
    via scan_decreases
{
    match decode(b, i) {
        Ok((c, e)) => if cl.holds(c) {
            let rest = scan(b, e, p.after(c), cl);
            (seq![c] + rest.0, rest.1, rest.2)
        } else {
            (seq![], i, p)
        },
        Err(_) => (seq![], i, p),
    }
}

/// The byte index and position of the first character from `i` that is not
/// blank (or where decoding fails).
pub open spec fn skip(b: Seq<u8>, i: int, p: Position) -> (int, Position)
    decreases b.len() - i,
    via skip_decreases
{
    match decode(b, i) {
        Ok((c, e)) => if is_blank(c) {
            skip(b, e, p.after(c))
        } else {
            (i, p)
        },
        Err(_) => (i, p),
    }
}

/// The value of a hexadecimal digit.
pub open spec fn digit_value(c: char) -> int {
    if is_digit(c) {
        c as int - '0' as int
    } else if 'a' <= c && c <= 'f' {
        c as int - 'a' as int + 10
    } else {
        c as int - 'A' as int + 10
    }
}

/// Every digit is below the radix.
pub open spec fn digits_fit(t: Seq<char>, radix: int) -> bool {
    forall|k: int| 0 <= k < t.len() ==> digit_value(#[trigger] t[k]) < radix
}

/// The number that the digits `t` denote in `radix`, most significant first.
pub open spec fn digits_value(t: Seq<char>, radix: int) -> int
    decreases t.len(),
{
    if t.len() == 0 {
        0
    } else {
        digits_value(t.drop_last(), radix) * radix + digit_value(t.last())
    }
}

/// The radix that a letter after a leading `0` selects, 0 for none.
pub open spec fn radix_of(c: char) -> u32 {
    if c == 'b' {
        2
    } else if c == 'o' {
        8
    } else if c == 'd' {
        10
    } else if c == 'x' {
        16
    } else {
        0
    }
}

/// The single-character punctuation token for `c`, if it is one.
pub open spec fn punct(c: char) -> Option<DataView> {
    if c == '(' {
        Some(DataView::LParen)
    } else if c == ')' {
        Some(DataView::RParen)
    } else if c == '[' {
        Some(DataView::LBrack)
    } else if c == ']' {
        Some(DataView::RBrack)
    } else if c == '{' {
        Some(DataView::LBrace)
    } else if c == '}' {
        Some(DataView::RBrace)
    } else {
        None
    }
}

/// An unprefixed identifier's token: a reserved word or a plain identifier.
pub open spec fn word(text: Seq<char>) -> DataView {
    if text == seq!['t', 'r', 'u', 'e'] {
        DataView::KwTrue
    } else if text == seq!['f', 'a', 'l', 's', 'e'] {
        DataView::KwFalse
    } else {
        DataView::Ident { raw: false, text }
    }
}

pub open spec fn point(p: Position) -> Span {
    Span { start: p, end: None }
}

pub open spec fn range(p: Position, q: Position) -> Span {
    Span { start: p, end: Some(q) }
}

/// What scanning a token from byte `i` at position `p` gives: the token or the
/// error, the byte index after it and the position after it.
pub open spec fn lex(b: Seq<u8>, i: int, p: Position) -> (Result<TokenView, Error>, int, Position) {
    let (s, q) = skip(b, i, p);
    match decode(b, s) {
        Err(k) => (Err(Error { kind: k, span: point(q) }), s, q),
        Ok((c, e)) => {
            let q1 = q.after(c);
            if punct(c) is Some {
                (Ok(TokenView { data: punct(c)->Some_0, span: point(q) }), e, q1)
            } else if c == '#' {
                lex_raw(b, e, q, q1)
            } else if starts_ident(c) {
                let (t, j, r) = scan(b, e, q1, Class::Ident);
                (Ok(TokenView { data: word(seq![c] + t), span: range(q, r) }), j, r)
            } else if c == '0' && (decode(b, e) matches Ok((x, _)) && radix_of(x) != 0) {
                lex_prefixed(b, e, q, q1)
            } else if c == '0' && !(decode(b, e) matches Ok((x, _)) && is_digit(x)) {
                (Ok(TokenView { data: DataView::IntLit(0), span: point(q) }), e, q1)
            } else if is_digit(c) {
                let (t, j, r) = scan(b, e, q1, Class::Decimal);
                (
                    Ok(TokenView { data: DataView::IntLit(digits_value(seq![c] + t, 10)), span: range(q, r) }),
                    j,
                    r,
                )
            } else {
                (Err(Error { kind: Kind::UnsupportedCharacter, span: point(q) }), e, q1)
            }
        },
    }
}

/// A raw identifier after its `#`, which started at `q`; `e` and `q1` are the
/// byte index and position after the `#`.
pub open spec fn lex_raw(b: Seq<u8>, e: int, q: Position, q1: Position) -> (Result<TokenView, Error>, int, Position) {
    match decode(b, e) {
        Err(k) => (Err(Error { kind: k, span: point(q1) }), e, q1),
        Ok((c, e2)) => {
            let q2 = q1.after(c);
            if starts_ident(c) {
                let (t, j, r) = scan(b, e2, q2, Class::Ident);
                (Ok(TokenView { data: DataView::Ident { raw: true, text: seq![c] + t }, span: range(q, r) }), j, r)
            } else {
                (Err(Error { kind: Kind::InvalidRawIdent, span: range(q, q2) }), e2, q2)
            }
        },
    }
}

/// A radix-prefixed integer whose `0` started at `q`; `e` and `q1` are the byte
/// index and position after the `0`, where the radix letter stands.
pub open spec fn lex_prefixed(b: Seq<u8>, e: int, q: Position, q1: Position) -> (Result<TokenView, Error>, int, Position) {
    let (x, e2) = decode(b, e)->Ok_0;
    let radix = radix_of(x);
    let q2 = q1.after(x);
    let (t, j, r) = scan(b, e2, q2, Class::Hex);
    if t.len() == 0 {
        (Err(Error { kind: Kind::EmptyPrefixedInt, span: range(q, q2) }), e2, q2)
    } else if digits_fit(t, radix as int) {
        (Ok(TokenView { data: DataView::IntLit(digits_value(t, radix as int)), span: range(q, r) }), j, r)
    } else {
        (Err(Error { kind: Kind::InvalidPrefixedInt { radix }, span: range(q, r) }), j, r)
    }
}

} // verus!
