//! Facts about the grammar that hold for every input.
use vstd::prelude::*;

use crate::error::{Error, Kind};
use crate::grammar::{
    is_blank, lemma_decode_advances, lex, point, punct, scan, skip, starts_ident, Class,
};
use crate::token::{DataView, Position, TokenView};
use crate::utf8::decode;

verus! {

/// A punctuation token kind.
pub open spec fn is_punct(d: DataView) -> bool {
    d is LParen || d is RParen || d is LBrack || d is RBrack || d is LBrace || d is RBrace
}

/// A run never crosses a line and never moves the column back, as long as its
/// class holds no newline.
proof fn lemma_scan_forward(b: Seq<u8>, i: int, p: Position, cl: Class)
    requires
        !cl.holds('\n'),
    ensures
        scan(b, i, p, cl).2.lin == p.lin,
        scan(b, i, p, cl).2.col >= p.col,
    decreases b.len() - i,
{
    lemma_decode_advances(b, i);
    if let Ok((c, e)) = decode(b, i) {
        if cl.holds(c) {
            lemma_scan_forward(b, e, p.after(c), cl);
        }
    }
}

/// Every character of a run belongs to its class, so none is blank where the
/// class holds no blank.
proof fn lemma_scan_no_blank(b: Seq<u8>, i: int, p: Position, cl: Class)
    requires
        forall|c: char| cl.holds(c) ==> !is_blank(c),
    ensures
        forall|k: int| 0 <= k < scan(b, i, p, cl).0.len() ==> !is_blank(#[trigger] scan(b, i, p, cl).0[k]),
{
    crate::grammar::lemma_scan_class(b, i, p, cl);
    assert forall|k: int| 0 <= k < scan(b, i, p, cl).0.len() implies !is_blank(
        #[trigger] scan(b, i, p, cl).0[k],
    ) by {
        assert(cl.holds(scan(b, i, p, cl).0[k]));
    }
}

/// Every token's span is well ordered (its end, when present, does not come
/// before its start), and a punctuation token's span is a single point.
pub proof fn lemma_span_ordered(b: Seq<u8>, i: int, p: Position)
    ensures
        lex(b, i, p).0 matches Ok(t) ==> t.span.well_ordered() && (is_punct(t.data) ==> t.span.end is None),
{
    let (s, q) = skip(b, i, p);
    if let Ok((c, e)) = decode(b, s) {
        let q1 = q.after(c);
        lemma_scan_forward(b, e, q1, Class::Ident);
        lemma_scan_forward(b, e, q1, Class::Decimal);
        if let Ok((x, e2)) = decode(b, e) {
            let q2 = q1.after(x);
            lemma_scan_forward(b, e2, q2, Class::Ident);
            lemma_scan_forward(b, e2, q2, Class::Hex);
        }
    }
}

#[via_fn]
proof fn no_blank_decreases(b: Seq<u8>, i: int, j: int) {
    lemma_decode_advances(b, i);
}

/// The characters from byte `i` up to byte `j` decode without error and none
/// of them is blank.
pub open spec fn no_blank_between(b: Seq<u8>, i: int, j: int) -> bool
    decreases b.len() - i,
    via no_blank_decreases
{
    if i >= j {
        true
    } else {
        match decode(b, i) {
            Ok((c, e)) => !is_blank(c) && no_blank_between(b, e, j),
            Err(_) => false,
        }
    }
}

/// A run of a class without blanks holds no blank, and ends no earlier than it
/// starts.
proof fn lemma_scan_between(b: Seq<u8>, i: int, p: Position, cl: Class)
    requires
        forall|c: char| cl.holds(c) ==> !is_blank(c),
    ensures
        scan(b, i, p, cl).1 >= i,
        no_blank_between(b, i, scan(b, i, p, cl).1),
    decreases b.len() - i,
{
    lemma_decode_advances(b, i);
    if let Ok((c, e)) = decode(b, i) {
        if cl.holds(c) {
            lemma_scan_between(b, e, p.after(c), cl);
        }
    }
}

/// Blanks never fall inside any token: every character from the token's first
/// byte up to the byte after it is decoded and not blank.
pub proof fn lemma_token_has_no_blank(b: Seq<u8>, i: int, p: Position)
    ensures
        lex(b, i, p).0 is Ok ==> no_blank_between(b, skip(b, i, p).0, lex(b, i, p).1),
{
    let (s, q) = skip(b, i, p);
    lemma_decode_advances(b, s);
    if let Ok((c, e)) = decode(b, s) {
        let q1 = q.after(c);
        lemma_scan_between(b, e, q1, Class::Ident);
        lemma_scan_between(b, e, q1, Class::Decimal);
        lemma_decode_advances(b, e);
        if let Ok((x, e2)) = decode(b, e) {
            let q2 = q1.after(x);
            lemma_scan_between(b, e2, q2, Class::Ident);
            lemma_scan_between(b, e2, q2, Class::Hex);
            let j1 = scan(b, e2, q2, Class::Ident).1;
            let j2 = scan(b, e2, q2, Class::Hex).1;
            if !is_blank(x) {
                assert(no_blank_between(b, e, j1));
                assert(no_blank_between(b, e, j2));
            }
        }
        assert(no_blank_between(b, e, e));
    }
}

/// Blanks (space, tab, carriage return, newline) never fall inside a token: a
/// token starts where skipping blanks stops, at a character that is not blank,
/// and an identifier's text holds no blank.
pub proof fn lemma_blanks_outside(b: Seq<u8>, i: int, p: Position)
    ensures
        lex(b, i, p).0 matches Ok(t) ==> {
            &&& t.span.start == skip(b, i, p).1
            &&& decode(b, skip(b, i, p).0) matches Ok((c, _)) && !is_blank(c)
            &&& t.data matches DataView::Ident { text, .. } ==> forall|k: int|
                0 <= k < text.len() ==> !is_blank(#[trigger] text[k])
        },
{
    let (s, q) = skip(b, i, p);
    if let Ok((c, e)) = decode(b, s) {
        let q1 = q.after(c);
        lemma_scan_no_blank(b, e, q1, Class::Ident);
        if let Ok((x, e2)) = decode(b, e) {
            lemma_scan_no_blank(b, e2, q1.after(x), Class::Ident);
            let t = scan(b, e2, q1.after(x), Class::Ident).0;
            assert forall|k: int| 0 <= k < (seq![x] + t).len() && starts_ident(x) implies !is_blank(
                #[trigger] (seq![x] + t)[k],
            ) by {
                if k > 0 {
                    assert((seq![x] + t)[k] == t[k - 1]);
                }
            }
        }
        let t = scan(b, e, q1, Class::Ident).0;
        assert forall|k: int| 0 <= k < (seq![c] + t).len() && starts_ident(c) implies !is_blank(
            #[trigger] (seq![c] + t)[k],
        ) by {
            if k > 0 {
                assert((seq![c] + t)[k] == t[k - 1]);
            }
        }
    }
}

/// A tab moves the column exactly four places on (short of the counter's limit).
pub proof fn lemma_tab_width(p: Position)
    requires
        p.col + 4 <= u32::MAX,
    ensures
        p.after('\t') == (Position { lin: p.lin, col: (p.col + 4) as u32 }),
{
}

/// Consuming a character encoded in two bytes moves the column by one place,
/// not by its byte count (short of the counter's limit).
pub proof fn lemma_two_byte_column(b: Seq<u8>, i: int, p: Position)
    requires
        decode(b, i) matches Ok((_, e)) && e == i + 2,
        p.col < u32::MAX,
    ensures
        p.after(decode(b, i)->Ok_0.0) == (Position { lin: p.lin, col: (p.col + 1) as u32 }),
{
}

/// A lone punctuation character is one point-span token of its kind, after
/// which the input ends cleanly.
pub proof fn lemma_single_punct(c: u8, p: Position)
    requires
        punct(c as char) is Some,
    ensures
        lex(seq![c], 0, p) == (
            Ok::<TokenView, Error>(TokenView { data: punct(c as char)->Some_0, span: point(p) }),
            1int,
            p.after(c as char),
        ),
        lex(seq![c], 1, p.after(c as char)).0 == Err::<TokenView, Error>(
            Error { kind: Kind::UnexpectedEoi, span: point(p.after(c as char)) },
        ),
{
    let b = seq![c];
    assert(c < 0x80);
    assert(decode(b, 0) == Ok::<(char, int), Kind>((c as char, 1int)));
    assert(skip(b, 0, p) == (0int, p));
    assert(skip(b, 1, p.after(c as char)) == (1int, p.after(c as char)));
}

} // verus!
