//! Canonical handles for identifier text and integer values, and the parsing
//! of integer literals.
//!
//! Handles come from the `internment` crate: equal contents give equal handles,
//! so comparing and copying a handle is cheap.
use num::Num;
use vstd::prelude::*;

use crate::grammar::{digits_fit, digits_value, is_hex_digit};

verus! {

/// An interned value: a pointer to a process-wide canonical copy.
#[verifier::external_type_specification]
#[verifier::external_body]
#[verifier::reject_recursive_types(T)]
pub struct ExIntern<T: 'static + ?Sized>(internment::Intern<T>);

/// An arbitrary-precision signed integer.
#[verifier::external_type_specification]
#[verifier::external_body]
pub struct ExBigInt(num::BigInt);

/// Handle to interned identifier text.
pub type Text = internment::Intern<str>;

/// Handle to an interned arbitrary-precision integer.
pub type IntHandle = internment::Intern<num::BigInt>;

/// The text that an interned string handle points to.
pub uninterp spec fn text_of(h: internment::Intern<str>) -> Seq<char>;

/// The number that an interned integer handle points to.
pub uninterp spec fn handle_value(h: internment::Intern<num::BigInt>) -> int;

/// The number that a `num::BigInt` holds.
pub uninterp spec fn big_value(b: num::BigInt) -> int;

/// Relies on `internment::Intern::<str>::from(&str)`: the handle points to a
/// copy of the given text, and, since interning keeps one copy of each text,
/// every handle to that text is this one.
#[verifier::external_body]
pub(crate) fn intern_text(chars: &Vec<char>) -> (r: Text)
    ensures
        text_of(r) == chars@,
        forall|h: internment::Intern<str>| text_of(h) == chars@ ==> h == r,
{
    let s: String = chars.iter().collect();
    internment::Intern::from(s.as_str())
}

/// Relies on `internment::Intern::new`: the handle points to the given number,
/// and, since interning keeps one copy of each value, every handle to that
/// number is this one.
#[verifier::external_body]
pub(crate) fn intern_int(b: num::BigInt) -> (r: IntHandle)
    ensures
        handle_value(r) == big_value(b),
        forall|h: internment::Intern<num::BigInt>| handle_value(h) == big_value(b) ==> h == r,
{
    internment::Intern::new(b)
}

/// Relies on `num::BigInt::from_str_radix` (radix 2 to 36): on a non-empty
/// string of ASCII hexadecimal digits (no sign, no `_`) it succeeds exactly
/// when every digit is below the radix, with the number the digits denote.
#[verifier::external_body]
pub(crate) fn parse_digits(digits: &Vec<char>, radix: u32) -> (r: Option<num::BigInt>)
    requires
        2 <= radix <= 36,
        digits@.len() > 0,
        forall|k: int| 0 <= k < digits@.len() ==> is_hex_digit(#[trigger] digits@[k]),
    ensures
        r is Some <==> digits_fit(digits@, radix as int),
        r matches Some(v) ==> big_value(v) == digits_value(digits@, radix as int),
{
    let s: String = digits.iter().collect();
    num::BigInt::from_str_radix(&s, radix).ok()
}

} // verus!
