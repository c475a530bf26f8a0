//! Decoding one Unicode scalar value from a byte sequence.
use vstd::prelude::*;

use crate::error::Kind;

verus! {

/// The length of the sequence that a leading byte announces, from its
/// high-order bits (`0xxxxxxx` 1, `110xxxxx` 2, ... `1111110x` 6); 0 when the
/// byte cannot lead a sequence.
pub open spec fn lead_len(b: u8) -> nat {
    if b < 0x80 {
        1
    } else if 0xC0 <= b < 0xE0 {
        2
    } else if 0xE0 <= b < 0xF0 {
        3
    } else if 0xF0 <= b < 0xF8 {
        4
    } else if 0xF8 <= b < 0xFC {
        5
    } else if 0xFC <= b < 0xFE {
        6
    } else {
        0
    }
}

/// A continuation byte: `10xxxxxx`.
pub open spec fn is_cont(b: u8) -> bool {
    0x80 <= b < 0xC0
}

/// The code point that the `n` bytes from `i` encode (for `n` from 1 to 4).
pub open spec fn code_point(b: Seq<u8>, i: int, n: nat) -> int {
    if n == 1 {
        b[i] as int
    } else if n == 2 {
        (b[i] % 32) * 64 + b[i + 1] % 64
    } else if n == 3 {
        (b[i] % 16) * 4096 + (b[i + 1] % 64) * 64 + b[i + 2] % 64
    } else {
        (b[i] % 8) * 262144 + (b[i + 1] % 64) * 4096 + (b[i + 2] % 64) * 64 + b[i + 3] % 64
    }
}

/// The smallest code point that needs `n` bytes; anything less is overlong.
pub open spec fn min_code_point(n: nat) -> int {
    if n == 1 {
        0
    } else if n == 2 {
        0x80
    } else if n == 3 {
        0x800
    } else {
        0x10000
    }
}

/// A Unicode scalar value: a code point that is not a surrogate.
pub open spec fn is_scalar(v: int) -> bool {
    0 <= v <= 0x10FFFF && !(0xD800 <= v <= 0xDFFF)
}

/// The well-formed sequence structure at `i`: a leading byte and as many
/// continuation bytes as it announces, all present.
pub open spec fn well_framed(b: Seq<u8>, i: int) -> bool {
    &&& lead_len(b[i]) > 0
    &&& i + lead_len(b[i]) <= b.len()
    &&& forall|k: int| 1 <= k < lead_len(b[i]) ==> is_cont(#[trigger] b[i + k])
}

/// The character that starts at byte `i`, with the index just past it.
///
/// The end of input at `i` is `UnexpectedEoi`; a bad leading byte, a missing or
/// bad continuation byte, a five- or six-byte sequence, an overlong encoding or
/// a value that is no scalar value is `InvalidUtf8`.
pub open spec fn decode(b: Seq<u8>, i: int) -> Result<(char, int), Kind> {
    if i >= b.len() {
        Err(Kind::UnexpectedEoi)
    } else if !well_framed(b, i) || lead_len(b[i]) > 4 {
        Err(Kind::InvalidUtf8)
    } else {
        let n = lead_len(b[i]);
        let v = code_point(b, i, n);
        if v < min_code_point(n) || !is_scalar(v) {
            Err(Kind::InvalidUtf8)
        } else {
            Ok((v as char, i + n))
        }
    }
}

/// Relies on `char::from_u32`: `Some` exactly for scalar values.
#[verifier::external_body]
fn char_from(v: u32) -> (r: Option<char>)
    ensures
        is_scalar(v as int) ==> r == Some(v as char),
        !is_scalar(v as int) ==> r is None,
{
    char::from_u32(v)
}

/// The leading byte's sequence length, 0 for a byte that cannot lead.
fn lead_length(b: u8) -> (n: usize)
    ensures
        n == lead_len(b),
{
    if b < 0x80 {
        1
    } else if b < 0xC0 {
        0
    } else if b < 0xE0 {
        2
    } else if b < 0xF0 {
        3
    } else if b < 0xF8 {
        4
    } else if b < 0xFC {
        5
    } else if b < 0xFE {
        6
    } else {
        0
    }
}

/// Decodes the character that starts at byte `i`.
pub fn decode_at(bytes: &Vec<u8>, i: usize) -> (r: Result<(char, usize), Kind>)
    ensures
        match r {
            Ok((c, e)) => decode(bytes@, i as int) == Ok::<(char, int), Kind>((c, e as int)),
            Err(k) => decode(bytes@, i as int) == Err::<(char, int), Kind>(k),
        },
{
    if i >= bytes.len() {
        return Err(Kind::UnexpectedEoi);
    }
    let b0 = bytes[i];
    let n = lead_length(b0);
    if n == 0 || n > bytes.len() - i {
        return Err(Kind::InvalidUtf8);
    }
    let mut k: usize = 1;
    while k < n
        invariant
            1 <= k <= n,
            n == lead_len(b0),
            b0 == bytes@[i as int],
            i + n <= bytes.len(),
            forall|j: int| 1 <= j < k ==> is_cont(#[trigger] bytes@[i + j]),
        decreases n - k,
    {
        let b = bytes[i + k];
        if b < 0x80 || b >= 0xC0 {
            return Err(Kind::InvalidUtf8);
        }
        k = k + 1;
    }
    assert(well_framed(bytes@, i as int));
    if n > 4 {
        return Err(Kind::InvalidUtf8);
    }
    let v: u32 = if n == 1 {
        b0 as u32
    } else if n == 2 {
        (b0 % 32) as u32 * 64 + (bytes[i + 1] % 64) as u32
    } else if n == 3 {
        (b0 % 16) as u32 * 4096 + (bytes[i + 1] % 64) as u32 * 64 + (bytes[i + 2] % 64) as u32
    } else {
        (b0 % 8) as u32 * 262144 + (bytes[i + 1] % 64) as u32 * 4096 + (bytes[i + 2] % 64) as u32
            * 64 + (bytes[i + 3] % 64) as u32
    };
    assert(v == code_point(bytes@, i as int, n as nat));
    let least: u32 = if n == 1 {
        0
    } else if n == 2 {
        0x80
    } else if n == 3 {
        0x800
    } else {
        0x10000
    };
    if v < least {
        return Err(Kind::InvalidUtf8);
    }
    match char_from(v) {
        Some(c) => Ok((c, i + n)),
        None => Err(Kind::InvalidUtf8),
    }
}

} // verus!
