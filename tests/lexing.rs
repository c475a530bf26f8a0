use internment::Intern;
use lexer::error::{Error, Kind};
use lexer::lexer::Lexer;
use lexer::token::{Position, Span, Token, TokenData};

fn lexer_of(s: &str) -> Lexer {
    Lexer::new(s.as_bytes().to_vec())
}

fn pos(lin: u32, col: u32) -> Position {
    Position::new(lin, col)
}

fn ident(raw: bool, text: &str) -> TokenData {
    TokenData::Ident { raw, val: Intern::from(text) }
}

fn int_lit(v: i64) -> TokenData {
    TokenData::IntLit(Intern::new(num::BigInt::from(v)))
}

fn eoi_at(p: Position) -> Error {
    Error { kind: Kind::UnexpectedEoi, span: Span::point(p) }
}

#[test]
fn single_punctuation_is_one_point_token() {
    let cases = [
        ("(", TokenData::LParen),
        (")", TokenData::RParen),
        ("[", TokenData::LBrack),
        ("]", TokenData::RBrack),
        ("{", TokenData::LBrace),
        ("}", TokenData::RBrace),
    ];
    for (src, data) in cases {
        let mut lx = lexer_of(src);
        let tok = lx.next().unwrap().unwrap();
        assert_eq!(tok, Token { data, span: Span::point(pos(1, 0)) });
        assert_eq!(tok.span.end, None);
        assert!(lx.next().is_none());
    }
}

#[test]
fn punctuation_then_clean_end_via_next_token() {
    let mut lx = lexer_of("(");
    assert_eq!(lx.next_token().unwrap().data, TokenData::LParen);
    assert_eq!(lx.next_token(), Err(eoi_at(pos(1, 1))));
}

#[test]
fn identifiers_are_maximal() {
    let mut lx = lexer_of("abc123_d ef");
    let a = lx.next_token().unwrap();
    assert_eq!(a, Token { data: ident(false, "abc123_d"), span: Span::new(pos(1, 0), pos(1, 8)) });
    let b = lx.next_token().unwrap();
    assert_eq!(b, Token { data: ident(false, "ef"), span: Span::new(pos(1, 9), pos(1, 11)) });
    assert!(lx.next().is_none());
}

#[test]
fn raw_identifier_skips_reserved_words() {
    let mut lx = lexer_of("#true");
    assert_eq!(
        lx.next_token().unwrap(),
        Token { data: ident(true, "true"), span: Span::new(pos(1, 0), pos(1, 5)) }
    );
    assert_eq!(lexer_of("true").next_token().unwrap().data, TokenData::KwTrue);
    assert_eq!(lexer_of("false").next_token().unwrap().data, TokenData::KwFalse);
    assert_eq!(lexer_of("#_x9").next_token().unwrap().data, ident(true, "_x9"));
    assert_eq!(lexer_of("truex").next_token().unwrap().data, ident(false, "truex"));
}

#[test]
fn raw_prefix_needs_identifier_start() {
    assert_eq!(
        lexer_of("#1").next_token(),
        Err(Error { kind: Kind::InvalidRawIdent, span: Span::new(pos(1, 0), pos(1, 2)) })
    );
    assert_eq!(lexer_of("#").next_token(), Err(eoi_at(pos(1, 1))));
}

#[test]
fn integer_literals() {
    assert_eq!(lexer_of("0").next_token().unwrap(), Token { data: int_lit(0), span: Span::point(pos(1, 0)) });
    assert_eq!(
        lexer_of("007").next_token().unwrap(),
        Token { data: int_lit(7), span: Span::new(pos(1, 0), pos(1, 3)) }
    );
    assert_eq!(
        lexer_of("0x1F").next_token().unwrap(),
        Token { data: int_lit(31), span: Span::new(pos(1, 0), pos(1, 4)) }
    );
    assert_eq!(lexer_of("0b101").next_token().unwrap().data, int_lit(5));
    assert_eq!(lexer_of("0o17").next_token().unwrap().data, int_lit(15));
    assert_eq!(lexer_of("0d99").next_token().unwrap().data, int_lit(99));
    assert_eq!(lexer_of("42").next_token().unwrap().data, int_lit(42));
}

#[test]
fn large_decimal_literal() {
    let big: num::BigInt = "123456789012345678901234567890".parse().unwrap();
    assert_eq!(
        lexer_of("123456789012345678901234567890").next_token().unwrap().data,
        TokenData::IntLit(Intern::new(big))
    );
}

#[test]
fn zero_then_other_token() {
    let mut lx = lexer_of("0(");
    assert_eq!(lx.next_token().unwrap(), Token { data: int_lit(0), span: Span::point(pos(1, 0)) });
    assert_eq!(lx.next_token().unwrap(), Token { data: TokenData::LParen, span: Span::point(pos(1, 1)) });
}

#[test]
fn prefixed_integer_errors() {
    assert_eq!(
        lexer_of("0b2").next_token(),
        Err(Error { kind: Kind::InvalidPrefixedInt { radix: 2 }, span: Span::new(pos(1, 0), pos(1, 3)) })
    );
    assert_eq!(
        lexer_of("0x").next_token(),
        Err(Error { kind: Kind::EmptyPrefixedInt, span: Span::new(pos(1, 0), pos(1, 2)) })
    );
    assert_eq!(
        lexer_of("0o8").next_token(),
        Err(Error { kind: Kind::InvalidPrefixedInt { radix: 8 }, span: Span::new(pos(1, 0), pos(1, 3)) })
    );
}

#[test]
fn blanks_stay_outside_spans() {
    let mut lx = lexer_of(" \r a\tb");
    let a = lx.next_token().unwrap();
    assert_eq!(a.span, Span::new(pos(1, 3), pos(1, 4)));
    let b = lx.next_token().unwrap();
    assert_eq!(b, Token { data: ident(false, "b"), span: Span::new(pos(1, 8), pos(1, 9)) });
}

#[test]
fn tab_moves_four_columns() {
    let mut lx = lexer_of("x\ty");
    let x = lx.next_token().unwrap();
    let y = lx.next_token().unwrap();
    assert_eq!(x.span.end, Some(pos(1, 1)));
    assert_eq!(y.span.start, pos(1, 5));
}

#[test]
fn newline_starts_next_line() {
    let mut lx = lexer_of("a\nbc");
    lx.next_token().unwrap();
    let b = lx.next_token().unwrap();
    assert_eq!(b.span, Span::new(pos(2, 1), pos(2, 3)));
}

#[test]
fn peek_is_idempotent() {
    let mut lx = lexer_of("foo [");
    let p1 = lx.peek_token().unwrap();
    let p2 = lx.peek_token().unwrap();
    assert_eq!(p1, p2);
    let n = lx.next_token().unwrap();
    assert_eq!(n, p1);
    let after = lx.next_token().unwrap();
    assert_eq!(after, Token { data: TokenData::LBrack, span: Span::point(pos(1, 4)) });
    assert!(lx.next().is_none());
}

#[test]
fn two_byte_character_counts_one_column() {
    let mut lx = lexer_of("\u{e9}(");
    assert_eq!(
        lx.next_token(),
        Err(Error { kind: Kind::UnsupportedCharacter, span: Span::point(pos(1, 0)) })
    );
    assert_eq!(lx.next_token().unwrap(), Token { data: TokenData::LParen, span: Span::point(pos(1, 1)) });
}

#[test]
fn four_byte_character_is_unsupported() {
    let mut lx = lexer_of("\u{1F600}a");
    assert_eq!(lx.next_token().unwrap_err().kind, Kind::UnsupportedCharacter);
    assert_eq!(lx.next_token().unwrap().span.start, pos(1, 1));
}

#[test]
fn malformed_utf8() {
    let bad: [&[u8]; 5] = [&[0xFF], &[0x80], &[0xC3], &[0xC0, 0x80], &[0xED, 0xA0, 0x80]];
    for bytes in bad {
        let mut lx = Lexer::new(bytes.to_vec());
        assert_eq!(
            lx.next_token(),
            Err(Error { kind: Kind::InvalidUtf8, span: Span::point(pos(1, 0)) })
        );
    }
    let mut lx = Lexer::new(vec![0xF8, 0x80, 0x80, 0x80, 0x80]);
    assert_eq!(lx.next_token().unwrap_err().kind, Kind::InvalidUtf8);
}

#[test]
fn bad_continuation_ends_identifier() {
    let mut lx = Lexer::new(vec![b'a', b'b', 0xC3, b'(']);
    assert_eq!(lx.next_token().unwrap().data, ident(false, "ab"));
    assert_eq!(
        lx.next_token(),
        Err(Error { kind: Kind::InvalidUtf8, span: Span::point(pos(1, 2)) })
    );
}

#[test]
fn empty_input_ends_cleanly() {
    let mut lx = lexer_of("");
    assert_eq!(lx.peek_token(), Err(eoi_at(pos(1, 0))));
    assert!(lexer_of("  \t ").next().is_none());
}

#[test]
fn iteration_yields_all_tokens() {
    let mut lx = lexer_of("(a 1)\n");
    let mut seen = Vec::new();
    while let Some(item) = lx.next() {
        seen.push(item.unwrap().data);
    }
    assert_eq!(seen, vec![TokenData::LParen, ident(false, "a"), int_lit(1), TokenData::RParen]);
}

#[test]
fn unsupported_character_is_reported() {
    let mut lx = lexer_of("+");
    assert_eq!(
        lx.next(),
        Some(Err(Error { kind: Kind::UnsupportedCharacter, span: Span::point(pos(1, 0)) }))
    );
}

#[test]
fn end_of_input_inside_token_is_an_error_item() {
    let mut lx = lexer_of("a #");
    assert_eq!(lx.next().unwrap().unwrap().data, ident(false, "a"));
    assert_eq!(lx.next(), Some(Err(eoi_at(pos(1, 3)))));
    let mut lx = lexer_of("x  ");
    assert!(lx.next().unwrap().is_ok());
    assert_eq!(lx.next(), None);
}

#[test]
fn equal_text_gives_equal_tokens() {
    let mut lx = lexer_of("ab ab 12 12");
    let a1 = lx.next_token().unwrap();
    let a2 = lx.next_token().unwrap();
    assert_eq!(a1.data, a2.data);
    assert!(a2.span.start.col > a1.span.start.col);
    let n1 = lx.next_token().unwrap();
    let n2 = lx.next_token().unwrap();
    assert_eq!(n1.data, n2.data);
}

#[test]
fn peek_after_error_stays_put() {
    let mut lx = lexer_of("0x");
    let e1 = lx.peek_token();
    let e2 = lx.peek_token();
    assert_eq!(e1, e2);
    assert_eq!(lx.next_token(), e1);
}

#[test]
fn peek_returns_pending_token() {
    let mut lx = lexer_of("abc");
    let p1 = lx.peek_token().unwrap();
    assert_eq!(lx.peek_token().unwrap(), p1);
    assert_eq!(p1.data, ident(false, "abc"));
    assert_eq!(lx.next(), Some(Ok(p1)));
    assert_eq!(lx.next(), None);
}

#[test]
fn position_as_text() {
    assert_eq!(pos(1, 0).to_string(), "1:0");
    assert_eq!(pos(12, 305).to_string(), "12:305");
    assert_eq!(pos(4294967295, 10).to_string(), "4294967295:10");
}
