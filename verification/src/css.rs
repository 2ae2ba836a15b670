//! Shared value traits for the generic CSS types: zero and one elements,
//! and serialization of values into CSS text.

use vstd::prelude::*;
use vstd::arithmetic::div_mod::lemma_div_decreases;
use vstd::string::StringExecFns;
use vstd::utf8::*;

verus! {

/// A value with a zero element.
pub trait Zero: Sized {
    /// The zero element.
    spec fn zero_spec() -> Self;

    /// Returns the zero element.
    fn zero() -> (r: Self)
        ensures
            r == Self::zero_spec(),
    ;

    /// Whether this value is the zero element.
    fn is_zero(&self) -> (r: bool)
        ensures
            r == (*self == Self::zero_spec()),
    ;
}

/// A value with a one element.
pub trait One: Sized {
    /// The one element.
    spec fn one_spec() -> Self;

    /// Returns the one element.
    fn one() -> (r: Self)
        ensures
            r == Self::one_spec(),
    ;

    /// Whether this value is the one element.
    fn is_one(&self) -> (r: bool)
        ensures
            r == (*self == Self::one_spec()),
    ;
}

/// A value that serializes itself into CSS text.
pub trait CssValue: Sized {
    /// The CSS text of this value.
    spec fn css_spec(&self) -> Seq<char>;

    /// Serializes this value into CSS text.
    fn to_css_string(&self) -> (r: String)
        ensures
            r@ == self.css_spec(),
    ;

    /// Whether the two values are equal.
    fn eq_value(&self, other: &Self) -> (r: bool)
        ensures
            r == (*self == *other),
    ;
}

impl Zero for u32 {
    open spec fn zero_spec() -> u32 {
        0
    }

    fn zero() -> u32 {
        0
    }

    fn is_zero(&self) -> bool {
        *self == 0
    }
}

impl One for u32 {
    open spec fn one_spec() -> u32 {
        1
    }

    fn one() -> u32 {
        1
    }

    fn is_one(&self) -> bool {
        *self == 1
    }
}

/// The characters of a sequence of ASCII bytes.
pub open spec fn ascii_chars(bs: Seq<u8>) -> Seq<char> {
    bs.map_values(|b: u8| b as char)
}

/// Decodes bytes as UTF-8 text, yielding the empty string for bytes that
/// are not valid UTF-8.
///
/// Relies on `String::from_utf8`: it returns the string encoded by the
/// bytes exactly when they are valid UTF-8, and an error otherwise.
#[verifier::external_body]
pub fn utf8_string_or_empty(bytes: Vec<u8>) -> (r: String)
    ensures
        valid_utf8(bytes@) ==> r@ == decode_utf8(bytes@),
        !valid_utf8(bytes@) ==> r@ == Seq::<char>::empty(),
{
    String::from_utf8(bytes).unwrap_or_default()
}

/// ASCII bytes are valid UTF-8 and decode to one character per byte, with
/// the same scalar values.
pub proof fn lemma_ascii_bytes_decode(bs: Seq<u8>)
    requires
        forall|k: int| 0 <= k < bs.len() ==> bs[k] < 0x80,
    ensures
        valid_utf8(bs),
        decode_utf8(bs) == ascii_chars(bs),
    decreases bs.len(),
{
    if bs.len() == 0 {
        assert(decode_utf8(bs) =~= ascii_chars(bs));
    } else {
        let b = bs[0];
        assert(is_leading_byte_width_1(b));
        assert(b & 0x7F == b) by (bit_vector)
            requires
                b < 0x80,
        ;
        assert(valid_first_scalar(bs));
        assert(length_of_first_scalar(bs) == 1);
        assert(pop_first_scalar(bs) =~= bs.skip(1));
        assert forall|k: int| 0 <= k < bs.skip(1).len() implies bs.skip(1)[k] < 0x80 by {
            assert(bs.skip(1)[k] == bs[k + 1]);
        }
        lemma_ascii_bytes_decode(bs.skip(1));
        assert(valid_utf8(bs));
        assert(decode_first_scalar(bs) == b as u32);
        assert((b as u32) as char == b as char);
        assert(decode_utf8(bs) == seq![(b as u32) as char] + decode_utf8(bs.skip(1)));
        assert(decode_utf8(bs) =~= ascii_chars(bs));
    }
}

/// Builds the string of a sequence of ASCII bytes.
pub fn ascii_string(bytes: Vec<u8>) -> (r: String)
    requires
        forall|k: int| 0 <= k < bytes@.len() ==> bytes@[k] < 0x80,
    ensures
        r@ == ascii_chars(bytes@),
{
    proof {
        lemma_ascii_bytes_decode(bytes@);
    }
    utf8_string_or_empty(bytes)
}

/// The lowercase hexadecimal digit of a value below sixteen.
pub open spec fn lower_hex_digit(v: u32) -> char {
    if v < 10 {
        ((0x30 + v) as u32) as char
    } else {
        ((0x57 + v) as u32) as char
    }
}

/// The lowercase hexadecimal digits of a byte value: one digit below
/// sixteen, two otherwise.
pub open spec fn lower_hex_chars(v: u32) -> Seq<char> {
    if v < 0x10 {
        seq![lower_hex_digit(v)]
    } else {
        seq![lower_hex_digit(v / 16), lower_hex_digit(v % 16)]
    }
}

/// How one character is written inside a double-quoted CSS string: quotes
/// and backslashes get a backslash, a NUL becomes the replacement
/// character, other controls become a hexadecimal escape closed by a
/// space, and everything else stays as it is.
pub open spec fn css_escape_char(c: char) -> Seq<char> {
    if c == '"' {
        seq!['\\', '"']
    } else if c == '\\' {
        seq!['\\', '\\']
    } else if c as u32 == 0 {
        seq!['\u{fffd}']
    } else if c as u32 <= 0x1f || c as u32 == 0x7f {
        seq!['\\'] + lower_hex_chars(c as u32) + seq![' ']
    } else {
        seq![c]
    }
}

/// The body of a double-quoted CSS string.
pub open spec fn css_escape(s: Seq<char>) -> Seq<char>
    decreases s.len(),
{
    if s.len() == 0 {
        Seq::empty()
    } else {
        css_escape_char(s[0]) + css_escape(s.skip(1))
    }
}

/// A double-quoted CSS string: quotes around the escaped content.
pub open spec fn css_quoted(s: Seq<char>) -> Seq<char> {
    seq!['"'] + css_escape(s) + seq!['"']
}

/// Writes a value as a double-quoted CSS string.
///
/// Relies on `cssparser::serialize_string`: it writes a double quote, the
/// value with `"` and `\` backslash-escaped, NUL replaced by U+FFFD and
/// the other control bytes as lowercase hexadecimal escapes closed by a
/// space, then a double quote; writing into a `String` cannot fail.
#[verifier::external_body]
pub fn serialize_css_string(value: &str) -> (r: String)
    ensures
        r@ == css_quoted(value@),
{
    let mut out = String::new();
    let _ = cssparser::serialize_string(value, &mut out);
    out
}

/// The ASCII byte of a decimal digit.
pub open spec fn dec_digit(d: int) -> u8 {
    (0x30 + d) as u8
}

/// The decimal digits of a non-negative number, most significant first.
pub open spec fn dec_bytes(n: int) -> Seq<u8>
    decreases n,
    via dec_bytes_decreases
{
    if n < 10 {
        seq![dec_digit(n)]
    } else {
        dec_bytes(n / 10) + seq![dec_digit(n % 10)]
    }
}

#[via_fn]
proof fn dec_bytes_decreases(n: int) {
    if n >= 10 {
        lemma_div_decreases(n, 10);
    }
}

/// The decimal digits of a number below ten to the tenth are digit bytes,
/// in particular ASCII.
pub proof fn lemma_dec_bytes_ascii(n: int)
    requires
        0 <= n,
    ensures
        forall|k: int|
            0 <= k < dec_bytes(n).len() ==> 0x30 <= #[trigger] dec_bytes(n)[k] <= 0x39,
    decreases n,
{
    if n < 10 {
    } else {
        lemma_div_decreases(n, 10);
        lemma_dec_bytes_ascii(n / 10);
        assert forall|k: int|
            0 <= k < dec_bytes(n).len() implies 0x30 <= #[trigger] dec_bytes(n)[k] <= 0x39 by {
            if k < dec_bytes(n / 10).len() {
                assert(dec_bytes(n)[k] == dec_bytes(n / 10)[k]);
            } else {
                assert(dec_bytes(n)[k] == dec_digit(n % 10));
            }
        }
    }
}

/// The decimal digit bytes of `n`.
pub fn u32_dec_bytes(n: u32) -> (r: Vec<u8>)
    ensures
        r@ == dec_bytes(n as int),
    decreases n,
{
    if n < 10 {
        let mut v: Vec<u8> = Vec::new();
        v.push(0x30 + n as u8);
        proof {
            assert(v@ =~= seq![dec_digit(n as int)]);
        }
        v
    } else {
        proof {
            lemma_div_decreases(n as int, 10);
        }
        let mut v = u32_dec_bytes(n / 10);
        v.push(0x30 + (n % 10) as u8);
        proof {
            assert(v@ =~= dec_bytes((n / 10) as int) + seq![dec_digit((n % 10) as int)]);
        }
        v
    }
}

impl CssValue for u32 {
    open spec fn css_spec(&self) -> Seq<char> {
        ascii_chars(dec_bytes(*self as int))
    }

    fn to_css_string(&self) -> (r: String) {
        let bytes = u32_dec_bytes(*self);
        proof {
            lemma_dec_bytes_ascii(*self as int);
        }
        ascii_string(bytes)
    }

    fn eq_value(&self, other: &Self) -> (r: bool) {
        *self == *other
    }
}

} // verus!
