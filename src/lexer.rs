//! The lexer: a byte source, the current position and two one-slot lookahead caches.
use vstd::prelude::*;

use crate::error::{Error, Kind};
use crate::grammar::{
    digit_value, digits_fit, digits_value, is_blank, lemma_decode_advances, lemma_scan_class, lex, point,
    punct, radix_of, scan, skip, starts_ident, word, Class,
};
use crate::interning::{intern_int, intern_text, parse_digits};
use crate::laws::{is_punct, lemma_span_ordered, lemma_token_has_no_blank, no_blank_between};
use crate::token::{DataView, Position, Span, Token, TokenData, TokenView};
use crate::utf8::{decode, decode_at};

verus! {

/// What a character peek sees at byte `i` and position `p`.
pub open spec fn peeked(b: Seq<u8>, i: int, p: Position) -> Result<char, Error> {
    match decode(b, i) {
        Ok((c, _)) => Ok(c),
        Err(k) => Err(Error { kind: k, span: point(p) }),
    }
}

/// The input ends cleanly at the token boundary at byte `i`: nothing but
/// blanks is left.
pub open spec fn ends_here(b: Seq<u8>, i: int, p: Position) -> bool {
    decode(b, skip(b, i, p).0) == Err::<(char, int), Kind>(Kind::UnexpectedEoi)
}

/// A token or an error with its handles resolved.
pub open spec fn result_view(r: Result<Token, Error>) -> Result<TokenView, Error> {
    match r {
        Ok(t) => Ok(t@),
        Err(e) => Err(e),
    }
}

/// The punctuation token that `c` stands for, if any.
fn punct_token(c: char) -> (r: Option<TokenData>)
    ensures
        match punct(c) {
            Some(d) => r matches Some(t) && t@ == d,
            None => r is None,
        },
{
    if c == '(' {
        Some(TokenData::LParen)
    } else if c == ')' {
        Some(TokenData::RParen)
    } else if c == '[' {
        Some(TokenData::LBrack)
    } else if c == ']' {
        Some(TokenData::RBrack)
    } else if c == '{' {
        Some(TokenData::LBrace)
    } else if c == '}' {
        Some(TokenData::RBrace)
    } else {
        None
    }
}

/// Whether `c` may start an identifier.
fn ident_start(c: char) -> (r: bool)
    ensures
        r == starts_ident(c),
{
    c == '_' || ('a' <= c && c <= 'z') || ('A' <= c && c <= 'Z')
}

/// The radix that the letter after a leading `0` selects, 0 for none.
fn radix_for(c: char) -> (r: u32)
    ensures
        r == radix_of(c),
{
    if c == 'b' {
        2
    } else if c == 'o' {
        8
    } else if c == 'd' {
        10
    } else if c == 'x' {
        16
    } else {
        0
    }
}

/// The token for unprefixed identifier text: a reserved word or an identifier.
fn word_token(text: &Vec<char>) -> (r: TokenData)
    ensures
        r@ == word(text@),
        r.canonical(),
{
    if text.len() == 4 && text[0] == 't' && text[1] == 'r' && text[2] == 'u' && text[3] == 'e' {
        assert(text@ =~= seq!['t', 'r', 'u', 'e']);
        TokenData::KwTrue
    } else if text.len() == 5 && text[0] == 'f' && text[1] == 'a' && text[2] == 'l' && text[3] == 's'
        && text[4] == 'e' {
        assert(text@ =~= seq!['f', 'a', 'l', 's', 'e']);
        TokenData::KwFalse
    } else {
        TokenData::Ident { raw: false, val: intern_text(text) }
    }
}

/// The integer token for `digits` in `radix`, or `None` when a digit is not
/// below the radix.
fn int_token(digits: &Vec<char>, radix: u32) -> (r: Option<TokenData>)
    requires
        2 <= radix <= 36,
        digits@.len() > 0,
        forall|k: int| 0 <= k < digits@.len() ==> Class::Hex.holds(#[trigger] digits@[k]),
    ensures
        r is Some <==> digits_fit(digits@, radix as int),
        r matches Some(d) ==> d@ == DataView::IntLit(digits_value(digits@, radix as int)) && d.canonical(),
{
    match parse_digits(digits, radix) {
        Some(v) => Some(TokenData::IntLit(intern_int(v))),
        None => None,
    }
}

/// Scans tokens from a byte sequence, one at a time.
pub struct Lexer {
    source: Vec<u8>,
    /// Byte index of the next character that has not been consumed.
    cursor: usize,
    /// Position of the next character that has not been consumed.
    pos: Position,
    /// A peeked token, with the byte index and position from which it was scanned.
    pending_tok: Option<(Token, usize, Position)>,
    /// A peeked character, with the byte index just past it.
    pending_chr: Option<(char, usize)>,
}

impl Lexer {
    /// The bytes being scanned.
    pub closed spec fn bytes(self) -> Seq<u8> {
        self.source@
    }

    /// The byte index from which the next token is scanned.
    pub closed spec fn at(self) -> int {
        match self.pending_tok {
            Some((_, i, _)) => i as int,
            None => self.cursor as int,
        }
    }

    /// The position from which the next token is scanned.
    pub closed spec fn position(self) -> Position {
        match self.pending_tok {
            Some((_, _, p)) => p,
            None => self.pos,
        }
    }

    /// The token that a peek left for the next consume, if any.
    pub closed spec fn pending(self) -> Option<Token> {
        match self.pending_tok {
            Some((t, _, _)) => Some(t),
            None => None,
        }
    }

    /// The character cache holds what decoding at the cursor gives.
    closed spec fn chars_ok(self) -> bool {
        &&& self.cursor <= self.source@.len()
        &&& (self.pending_chr matches Some((c, e)) ==> decode(self.source@, self.cursor as int)
            == Ok::<(char, int), Kind>((c, e as int)))
    }

    /// Both caches hold what scanning from the logical state gives.
    pub closed spec fn wf(self) -> bool {
        &&& self.chars_ok()
        &&& (self.pending_tok matches Some((t, i, p)) ==> {
            &&& i <= self.source@.len()
            &&& lex(self.source@, i as int, p) == (Ok::<TokenView, Error>(t@), self.cursor as int, self.pos)
            &&& t.data.canonical()
        })
    }

    /// A lexer at the start of `source`: line 1, column 0.
    pub fn new(source: Vec<u8>) -> (r: Lexer)
        ensures
            r.wf(),
            r.bytes() == source@,
            r.at() == 0,
            r.position() == (Position { lin: 1, col: 0 }),
    {
        Lexer { source, cursor: 0, pos: Position::new(1, 0), pending_tok: None, pending_chr: None }
    }

    /// Consumes and returns the next token, or the error met while scanning it.
    pub fn next_token(&mut self) -> (r: Result<Token, Error>)
        requires
            old(self).wf(),
        ensures
            final(self).wf(),
            final(self).bytes() == old(self).bytes(),
            result_view(r) == lex(old(self).bytes(), old(self).at(), old(self).position()).0,
            final(self).at() == lex(old(self).bytes(), old(self).at(), old(self).position()).1,
            final(self).position() == lex(old(self).bytes(), old(self).at(), old(self).position()).2,
            old(self).pending() matches Some(t) ==> r == Ok::<Token, Error>(t),
            final(self).pending() is None,
            r matches Ok(t) ==> t.data.canonical() && t.span.well_ordered() && (is_punct(t.data@) ==> t.span.end is None),
            r is Ok ==> no_blank_between(
                old(self).bytes(),
                skip(old(self).bytes(), old(self).at(), old(self).position()).0,
                final(self).at(),
            ),
    {
        proof {
            lemma_span_ordered(self.source@, self.at(), self.position());
            lemma_token_has_no_blank(self.source@, self.at(), self.position());
        }
        if let Some((token, _, _)) = self.pending_tok.take() {
            return Ok(token);
        }
        self._nx_tok()
    }

    /// Returns the next token without consuming it: until the next call of
    /// `next_token`, every `peek_token` returns this same token, and that call
    /// returns it once. An error is not kept, and the lexer stays where it was.
    pub fn peek_token(&mut self) -> (r: Result<Token, Error>)
        requires
            old(self).wf(),
        ensures
            final(self).wf(),
            final(self).bytes() == old(self).bytes(),
            result_view(r) == lex(old(self).bytes(), old(self).at(), old(self).position()).0,
            final(self).at() == old(self).at(),
            final(self).position() == old(self).position(),
            old(self).pending() matches Some(t) ==> r == Ok::<Token, Error>(t),
            r matches Ok(t) ==> final(self).pending() == Some(t),
            r is Err ==> final(self).pending() is None,
            r matches Ok(t) ==> t.data.canonical() && t.span.well_ordered() && (is_punct(t.data@) ==> t.span.end is None),
    {
        if let Some((token, _, _)) = self.pending_tok {
            proof {
                lemma_span_ordered(self.source@, self.at(), self.position());
            }
            return Ok(token);
        }
        let from = self.cursor;
        let at = self.pos;
        let chr = self.pending_chr;
        match self._nx_tok() {
            Ok(token) => {
                self.pending_tok = Some((token, from, at));
                Ok(token)
            },
            Err(e) => {
                self.cursor = from;
                self.pos = at;
                self.pending_chr = chr;
                Err(e)
            },
        }
    }

    /// The next item of the token stream: `None` where the input ends cleanly
    /// at a token boundary, else the next token or error. An end of input met
    /// inside a token is an error item like any other.
    pub fn next(&mut self) -> (r: Option<Result<Token, Error>>)
        requires
            old(self).wf(),
        ensures
            final(self).wf(),
            final(self).bytes() == old(self).bytes(),
            ends_here(old(self).bytes(), old(self).at(), old(self).position()) ==> r is None,
            !ends_here(old(self).bytes(), old(self).at(), old(self).position()) ==> (r matches Some(x)
                && result_view(x) == lex(old(self).bytes(), old(self).at(), old(self).position()).0),
            final(self).at() == lex(old(self).bytes(), old(self).at(), old(self).position()).1,
            final(self).position() == lex(old(self).bytes(), old(self).at(), old(self).position()).2,
            old(self).pending() matches Some(t) ==> r == Some(Ok::<Token, Error>(t)),
            final(self).pending() is None,
            r matches Some(Ok(t)) ==> t.data.canonical(),
    {
        if let Some((token, _, _)) = self.pending_tok.take() {
            return Some(Ok(token));
        }
        let ghost b = self.source@;
        match self.skip_blanks() {
            Err(e) => if e.kind == Kind::UnexpectedEoi {
                None
            } else {
                Some(Err(e))
            },
            Ok(()) => {
                proof {
                    assert(skip(b, self.cursor as int, self.pos) == (self.cursor as int, self.pos));
                }
                Some(self._nx_tok())
            },
        }
    }

    /// Decodes the character at the cursor, with the byte index after it.
    fn _nx_chr(&self) -> (r: Result<(char, usize), Error>)
        requires
            self.cursor <= self.source@.len(),
        ensures
            match r {
                Ok((c, e)) => decode(self.source@, self.cursor as int) == Ok::<(char, int), Kind>((c, e as int)),
                Err(err) => decode(self.source@, self.cursor as int) == Err::<(char, int), Kind>(err.kind)
                    && err.span == point(self.pos),
            },
    {
        match decode_at(&self.source, self.cursor) {
            Ok(x) => Ok(x),
            Err(kind) => Err(Error { kind, span: Span::point(self.pos) }),
        }
    }

    /// The next character, left in place.
    fn peek_char(&mut self) -> (r: Result<char, Error>)
        requires
            old(self).chars_ok(),
        ensures
            final(self).chars_ok(),
            r == peeked(old(self).source@, old(self).cursor as int, old(self).pos),
            final(self).source == old(self).source,
            final(self).cursor == old(self).cursor,
            final(self).pos == old(self).pos,
            final(self).pending_tok == old(self).pending_tok,
    {
        if let Some((c, _)) = self.pending_chr {
            return Ok(c);
        }
        let (c, e) = self._nx_chr()?;
        self.pending_chr = Some((c, e));
        Ok(c)
    }

    /// Consumes the next character and moves the position past it.
    fn next_char(&mut self) -> (r: Result<char, Error>)
        requires
            old(self).chars_ok(),
        ensures
            final(self).chars_ok(),
            r == peeked(old(self).source@, old(self).cursor as int, old(self).pos),
            final(self).source == old(self).source,
            final(self).pending_tok == old(self).pending_tok,
            match decode(old(self).source@, old(self).cursor as int) {
                Ok((c, e)) => final(self).cursor == e && final(self).pos == old(self).pos.after(c),
                Err(_) => final(self).cursor == old(self).cursor && final(self).pos == old(self).pos,
            },
    {
        let (c, e) = match self.pending_chr.take() {
            Some(x) => x,
            None => self._nx_chr()?,
        };
        proof {
            lemma_decode_advances(self.source@, self.cursor as int);
        }
        self.cursor = e;
        if c == '\n' {
            self.pos.lin = self.pos.lin.saturating_add(1);
            self.pos.col = 1;
        } else if c == '\t' {
            self.pos.col = self.pos.col.saturating_add(4);
        } else {
            self.pos.col = self.pos.col.saturating_add(1);
        }
        Ok(c)
    }

    /// Consumes the maximal run of characters of class `cl`, appending it to `buf`.
    fn scan_run(&mut self, cl: Class, buf: &mut Vec<char>)
        requires
            old(self).chars_ok(),
        ensures
            final(self).chars_ok(),
            final(self).source == old(self).source,
            final(self).pending_tok == old(self).pending_tok,
            final(buf)@ == old(buf)@ + scan(old(self).source@, old(self).cursor as int, old(self).pos, cl).0,
            final(self).cursor == scan(old(self).source@, old(self).cursor as int, old(self).pos, cl).1,
            final(self).pos == scan(old(self).source@, old(self).cursor as int, old(self).pos, cl).2,
    {
        let ghost b = self.source@;
        let ghost whole = scan(b, self.cursor as int, self.pos, cl);
        let ghost base = buf@;
        loop
            invariant
                self.chars_ok(),
                self.source == old(self).source,
                self.pending_tok == old(self).pending_tok,
                b == self.source@,
                whole == scan(old(self).source@, old(self).cursor as int, old(self).pos, cl),
                base == old(buf)@,
                scan(b, self.cursor as int, self.pos, cl).1 == whole.1,
                scan(b, self.cursor as int, self.pos, cl).2 == whole.2,
                base + whole.0 == buf@ + scan(b, self.cursor as int, self.pos, cl).0,
            ensures
                self.chars_ok(),
                self.source == old(self).source,
                self.pending_tok == old(self).pending_tok,
                buf@ == base + whole.0,
                self.cursor == whole.1,
                self.pos == whole.2,
            decreases self.source@.len() - self.cursor,
        {
            match self.peek_char() {
                Ok(c) => {
                    if !cl.accepts(c) {
                        assert(scan(b, self.cursor as int, self.pos, cl) == (Seq::<char>::empty(), self.cursor as int, self.pos));
                        assert(buf@ + Seq::<char>::empty() =~= buf@);
                        break;
                    }
                },
                Err(_) => {
                    assert(scan(b, self.cursor as int, self.pos, cl) == (Seq::<char>::empty(), self.cursor as int, self.pos));
                    assert(buf@ + Seq::<char>::empty() =~= buf@);
                    break;
                },
            }
            let ghost (i0, p0) = (self.cursor as int, self.pos);
            let c = match self.next_char() {
                Ok(c) => c,
                Err(_) => {
                        break;
                },
            };
            proof {
                lemma_decode_advances(b, i0);
                let rest = scan(b, self.cursor as int, self.pos, cl).0;
                assert(scan(b, i0, p0, cl).0 == seq![c] + rest);
                assert(buf@.push(c) + rest =~= buf@ + (seq![c] + rest));
            }
            buf.push(c);
        }
    }

    /// Consumes the blanks before the next token; fails where decoding the
    /// first character after them fails.
    fn skip_blanks(&mut self) -> (r: Result<(), Error>)
        requires
            old(self).chars_ok(),
        ensures
            final(self).chars_ok(),
            final(self).source == old(self).source,
            final(self).pending_tok == old(self).pending_tok,
            final(self).cursor == skip(old(self).source@, old(self).cursor as int, old(self).pos).0,
            final(self).pos == skip(old(self).source@, old(self).cursor as int, old(self).pos).1,
            match decode(final(self).source@, final(self).cursor as int) {
                Ok((c, _)) => r is Ok && !is_blank(c),
                Err(k) => r == Err::<(), Error>(Error { kind: k, span: point(final(self).pos) }),
            },
    {
        let ghost b = self.source@;
        let ghost sk = skip(b, self.cursor as int, self.pos);
        loop
            invariant
                self.chars_ok(),
                self.source == old(self).source,
                self.pending_tok == old(self).pending_tok,
                b == self.source@,
                sk == skip(b, old(self).cursor as int, old(self).pos),
                skip(b, self.cursor as int, self.pos) == sk,
            ensures
                self.chars_ok(),
                self.source == old(self).source,
                self.pending_tok == old(self).pending_tok,
                sk == (self.cursor as int, self.pos),
                decode(self.source@, self.cursor as int) matches Ok((c, _)) && !is_blank(c),
            decreases self.source@.len() - self.cursor,
        {
            let c = self.peek_char()?;
            if c == ' ' || c == '\t' || c == '\r' || c == '\n' {
                proof {
                    lemma_decode_advances(b, self.cursor as int);
                }
                let _ = self.next_char();
            } else {
                break;
            }
        }
        Ok(())
    }

    /// Skips blanks and scans one token from the cursor.
    fn _nx_tok(&mut self) -> (r: Result<Token, Error>)
        requires
            old(self).chars_ok(),
        ensures
            final(self).chars_ok(),
            final(self).source == old(self).source,
            final(self).pending_tok == old(self).pending_tok,
            result_view(r) == lex(old(self).source@, old(self).cursor as int, old(self).pos).0,
            final(self).cursor == lex(old(self).source@, old(self).cursor as int, old(self).pos).1,
            final(self).pos == lex(old(self).source@, old(self).cursor as int, old(self).pos).2,
            r matches Ok(t) ==> t.data.canonical() && t.span.well_ordered() && (is_punct(t.data@) ==> t.span.end is None),
    {
        let ghost b = self.source@;
        proof {
            lemma_span_ordered(b, self.cursor as int, self.pos);
        }
        self.skip_blanks()?;
        proof {
            assert(skip(b, self.cursor as int, self.pos) == (self.cursor as int, self.pos));
        }
        let start = self.pos;
        let c = self.next_char()?;
        let ghost e = self.cursor as int;
        let ghost q1 = self.pos;
        if let Some(data) = punct_token(c) {
            return Ok(Token { data, span: Span::point(start) });
        }
        if c == '#' {
            let c2 = self.next_char()?;
            if !ident_start(c2) {
                return Err(Error { kind: Kind::InvalidRawIdent, span: Span::new(start, self.pos) });
            }
            let mut buf = vec![c2];
            let ghost t = scan(b, self.cursor as int, self.pos, Class::Ident).0;
            self.scan_run(Class::Ident, &mut buf);
            assert(buf@ =~= seq![c2] + t);
            let val = intern_text(&buf);
            return Ok(Token { data: TokenData::Ident { raw: true, val }, span: Span::new(start, self.pos) });
        }
        if ident_start(c) {
            let mut buf = vec![c];
            let ghost t = scan(b, e, q1, Class::Ident).0;
            self.scan_run(Class::Ident, &mut buf);
            assert(buf@ =~= seq![c] + t);
            let data = word_token(&buf);
            return Ok(Token { data, span: Span::new(start, self.pos) });
        }
        if c == '0' {
            let radix = match self.peek_char() {
                Ok(x) => radix_for(x),
                Err(_) => 0,
            };
            if radix != 0 {
                return self.lex_prefixed(start, radix);
            }
            let more = match self.peek_char() {
                Ok(x) => Class::Decimal.accepts(x),
                Err(_) => false,
            };
            if !more {
                let zero = vec!['0'];
                proof {
                    assert(zero@.drop_last() =~= Seq::<char>::empty());
                    assert(digits_value(Seq::<char>::empty(), 10) == 0);
                    assert(zero@.last() == '0');
                    assert(digits_value(zero@, 10) == 0);
                }
                let data = int_token(&zero, 10).unwrap();
                return Ok(Token { data, span: Span::point(start) });
            }
        }
        if Class::Decimal.accepts(c) {
            let mut buf = vec![c];
            let ghost t = scan(b, e, q1, Class::Decimal).0;
            self.scan_run(Class::Decimal, &mut buf);
            proof {
                lemma_scan_class(b, e, q1, Class::Decimal);
                assert(buf@ =~= seq![c] + t);
                assert forall|k: int| 0 <= k < buf@.len() implies digit_value(#[trigger] buf@[k]) < 10 by {
                    if k > 0 {
                        assert(buf@[k] == t[k - 1]);
                    }
                }
            }
            let data = int_token(&buf, 10).unwrap();
            return Ok(Token { data, span: Span::new(start, self.pos) });
        }
        Err(Error { kind: Kind::UnsupportedCharacter, span: Span::point(start) })
    }

    /// Scans the rest of a radix-prefixed integer whose `0` started at `start`;
    /// the radix letter is next.
    fn lex_prefixed(&mut self, start: Position, radix: u32) -> (r: Result<Token, Error>)
        requires
            old(self).chars_ok(),
            decode(old(self).source@, old(self).cursor as int) matches Ok((x, _)) && radix_of(x) == radix,
            radix != 0,
        ensures
            final(self).chars_ok(),
            final(self).source == old(self).source,
            final(self).pending_tok == old(self).pending_tok,
            ({
                let (res, j, p) = crate::grammar::lex_prefixed(old(self).source@, old(self).cursor as int, start, old(self).pos);
                result_view(r) == res && final(self).cursor == j && final(self).pos == p
            }),
            r matches Ok(t) ==> t.data.canonical(),
    {
        let ghost b = self.source@;
        let _ = self.next_char();
        let ghost e2 = self.cursor as int;
        let ghost q2 = self.pos;
        let mut buf: Vec<char> = Vec::new();
        self.scan_run(Class::Hex, &mut buf);
        proof {
            lemma_scan_class(b, e2, q2, Class::Hex);
            assert(buf@ =~= scan(b, e2, q2, Class::Hex).0);
        }
        if buf.len() == 0 {
            return Err(Error { kind: Kind::EmptyPrefixedInt, span: Span::new(start, self.pos) });
        }
        match int_token(&buf, radix) {
            Some(data) => Ok(Token { data, span: Span::new(start, self.pos) }),
            None => Err(Error { kind: Kind::InvalidPrefixedInt { radix }, span: Span::new(start, self.pos) }),
        }
    }
}

} // verus!
