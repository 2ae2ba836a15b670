//! Percent-encoding and -decoding of directive parts, over bytes.
//!
//! The wire grammar reserves `-`, `,` and `&` as structure, and a fragment
//! cannot carry `#`, controls or raw non-ASCII bytes; those bytes (and `%`
//! itself) are written as `%XX` escapes. Decoding turns every well-formed
//! `%XX` escape back into its byte and leaves everything else alone.

use vstd::prelude::*;

verus! {

pub const PERCENT: u8 = 0x25;

pub const DASH: u8 = 0x2d;

pub const COMMA: u8 = 0x2c;

pub const AMPERSAND: u8 = 0x26;

pub const NUMBER_SIGN: u8 = 0x23;

/// Whether `b` is an ASCII hexadecimal digit.
pub open spec fn is_hex_digit(b: u8) -> bool {
    (0x30 <= b && b <= 0x39) || (0x41 <= b && b <= 0x46) || (0x61 <= b && b <= 0x66)
}

/// The numeric value of a hexadecimal digit.
pub open spec fn hex_digit_value(b: u8) -> u8 {
    if 0x30 <= b && b <= 0x39 {
        (b - 0x30) as u8
    } else if 0x41 <= b && b <= 0x46 {
        (b - 0x41 + 10) as u8
    } else if 0x61 <= b && b <= 0x66 {
        (b - 0x61 + 10) as u8
    } else {
        0
    }
}

/// The upper-case hexadecimal digit for a value below 16.
pub open spec fn hex_digit_of(v: u8) -> u8 {
    if v < 10 {
        (0x30 + v) as u8
    } else {
        (0x41 + v - 10) as u8
    }
}

/// Whether a byte must be written as a `%XX` escape: controls and DEL,
/// non-ASCII bytes, the grammar's separators `-`, `,`, `&`, the fragment
/// terminator `#`, and `%` itself.
pub open spec fn needs_escape(b: u8) -> bool {
    b < 0x20 || b >= 0x7f || b == PERCENT || b == DASH || b == COMMA || b == AMPERSAND || b
        == NUMBER_SIGN
}

/// The encoding of one byte: itself, or a three-byte `%XX` escape.
pub open spec fn encode_byte(b: u8) -> Seq<u8> {
    if needs_escape(b) {
        seq![PERCENT, hex_digit_of(b / 16), hex_digit_of(b % 16)]
    } else {
        seq![b]
    }
}

/// The percent-encoding of a byte sequence.
pub open spec fn encode_spec(s: Seq<u8>) -> Seq<u8>
    decreases s.len(),
{
    if s.len() == 0 {
        Seq::empty()
    } else {
        encode_byte(s[0]) + encode_spec(s.skip(1))
    }
}

/// The percent-decoding of a byte sequence: each well-formed `%XX` escape
/// becomes its byte, every other byte stays as it is.
pub open spec fn decode_spec(s: Seq<u8>) -> Seq<u8>
    decreases s.len(),
{
    if s.len() == 0 {
        Seq::empty()
    } else if s[0] == PERCENT && s.len() >= 3 && is_hex_digit(s[1]) && is_hex_digit(s[2]) {
        seq![(hex_digit_value(s[1]) * 16 + hex_digit_value(s[2])) as u8] + decode_spec(s.skip(3))
    } else {
        seq![s[0]] + decode_spec(s.skip(1))
    }
}

/// Exec mirror of `is_hex_digit`.
fn is_hex_digit_exec(b: u8) -> (r: bool)
    ensures
        r == is_hex_digit(b),
{
    (0x30 <= b && b <= 0x39) || (0x41 <= b && b <= 0x46) || (0x61 <= b && b <= 0x66)
}

/// Exec mirror of `hex_digit_value`.
fn hex_digit_value_exec(b: u8) -> (r: u8)
    ensures
        r == hex_digit_value(b),
{
    if 0x30 <= b && b <= 0x39 {
        b - 0x30
    } else if 0x41 <= b && b <= 0x46 {
        b - 0x41 + 10
    } else if 0x61 <= b && b <= 0x66 {
        b - 0x61 + 10
    } else {
        0
    }
}

/// Exec mirror of `hex_digit_of`.
fn hex_digit_of_exec(v: u8) -> (r: u8)
    requires
        v < 16,
    ensures
        r == hex_digit_of(v),
{
    if v < 10 {
        0x30 + v
    } else {
        0x41 + v - 10
    }
}

/// Percent-decodes a byte string.
pub fn percent_decode(s: &Vec<u8>) -> (r: Vec<u8>)
    ensures
        r@ == decode_spec(s@),
{
    let mut r: Vec<u8> = Vec::new();
    let mut i: usize = 0;
    proof {
        assert(s@.skip(0) =~= s@);
        assert(r@ + decode_spec(s@) =~= decode_spec(s@));
    }
    while i < s.len()
        invariant
            i <= s.len(),
            decode_spec(s@) == r@ + decode_spec(s@.skip(i as int)),
        decreases s.len() - i,
    {
        if s[i] == PERCENT && s.len() - i >= 3 && is_hex_digit_exec(s[i + 1]) && is_hex_digit_exec(
            s[i + 2],
        ) {
            let b: u8 = hex_digit_value_exec(s[i + 1]) * 16 + hex_digit_value_exec(s[i + 2]);
            r.push(b);
            proof {
                assert(s@.skip(i as int).skip(3) =~= s@.skip(i as int + 3));
                assert(decode_spec(s@.skip(i as int)) == seq![b] + decode_spec(
                    s@.skip(i as int + 3),
                ));
                assert(r@ == (r@.drop_last()) + seq![b]);
                assert((r@.drop_last() + seq![b]) + decode_spec(s@.skip(i as int + 3))
                    =~= r@.drop_last() + (seq![b] + decode_spec(s@.skip(i as int + 3))));
            }
            i = i + 3;
        } else {
            let b: u8 = s[i];
            r.push(b);
            proof {
                assert(s@.skip(i as int).skip(1) =~= s@.skip(i as int + 1));
                assert(decode_spec(s@.skip(i as int)) == seq![b] + decode_spec(
                    s@.skip(i as int + 1),
                ));
                assert(r@ == (r@.drop_last()) + seq![b]);
                assert((r@.drop_last() + seq![b]) + decode_spec(s@.skip(i as int + 1))
                    =~= r@.drop_last() + (seq![b] + decode_spec(s@.skip(i as int + 1))));
            }
            i = i + 1;
        }
    }
    proof {
        assert(s@.skip(i as int) =~= Seq::empty());
        assert(r@ + decode_spec(Seq::empty()) =~= r@);
    }
    r
}

/// Percent-encodes a byte string.
pub fn percent_encode(s: &Vec<u8>) -> (r: Vec<u8>)
    ensures
        r@ == encode_spec(s@),
{
    let mut r: Vec<u8> = Vec::new();
    let mut i: usize = 0;
    proof {
        assert(s@.skip(0) =~= s@);
        assert(r@ + encode_spec(s@) =~= encode_spec(s@));
    }
    while i < s.len()
        invariant
            i <= s.len(),
            encode_spec(s@) == r@ + encode_spec(s@.skip(i as int)),
        decreases s.len() - i,
    {
        let b = s[i];
        let ghost r_old = r@;
        if b < 0x20 || b >= 0x7f || b == PERCENT || b == DASH || b == COMMA || b == AMPERSAND || b
            == NUMBER_SIGN {
            r.push(PERCENT);
            r.push(hex_digit_of_exec(b / 16));
            r.push(hex_digit_of_exec(b % 16));
            proof {
                assert(r@ =~= r_old + encode_byte(b));
            }
        } else {
            r.push(b);
            proof {
                assert(r@ =~= r_old + encode_byte(b));
            }
        }
        proof {
            assert(s@.skip(i as int).skip(1) =~= s@.skip(i as int + 1));
            assert(encode_spec(s@.skip(i as int)) == encode_byte(b) + encode_spec(
                s@.skip(i as int + 1),
            ));
            assert((r_old + encode_byte(b)) + encode_spec(s@.skip(i as int + 1)) =~= r_old + (
            encode_byte(b) + encode_spec(s@.skip(i as int + 1))));
        }
        i = i + 1;
    }
    proof {
        assert(s@.skip(i as int) =~= Seq::empty());
        assert(r@ + encode_spec(Seq::empty()) =~= r@);
    }
    r
}

/// Encoding a byte and decoding it again gives the byte back.
proof fn lemma_decode_encode_byte(b: u8)
    ensures
        decode_spec(encode_byte(b)) == seq![b],
{
    if needs_escape(b) {
        let e = encode_byte(b);
        let hi = b / 16;
        let lo = b % 16;
        assert(hi < 16 && lo < 16);
        assert(e == seq![PERCENT, hex_digit_of(hi), hex_digit_of(lo)]);
        assert(e[0] == PERCENT && e[1] == hex_digit_of(hi) && e[2] == hex_digit_of(lo));
        assert(is_hex_digit(hex_digit_of(hi)));
        assert(is_hex_digit(hex_digit_of(lo)));
        assert(hex_digit_value(hex_digit_of(hi)) == hi);
        assert(hex_digit_value(hex_digit_of(lo)) == lo);
        let v = (hex_digit_value(e[1]) * 16 + hex_digit_value(e[2])) as u8;
        assert(hi * 16 + lo == b);
        assert(v == b);
        assert(decode_spec(e) == seq![v] + decode_spec(e.skip(3)));
        assert(e.skip(3) =~= Seq::<u8>::empty());
        assert(decode_spec(Seq::<u8>::empty()) == Seq::<u8>::empty());
        assert(seq![v] + Seq::<u8>::empty() =~= seq![b]);
    } else {
        let e = encode_byte(b);
        assert(e == seq![b]);
        assert(e[0] == b && b != PERCENT);
        assert(decode_spec(e) == seq![b] + decode_spec(e.skip(1)));
        assert(e.skip(1) =~= Seq::<u8>::empty());
        assert(decode_spec(Seq::<u8>::empty()) == Seq::<u8>::empty());
        assert(seq![b] + Seq::<u8>::empty() =~= seq![b]);
    }
}

/// Decoding inverts encoding: the round trip over any byte string is the
/// identity.
pub proof fn lemma_decode_encode(s: Seq<u8>)
    ensures
        decode_spec(encode_spec(s)) == s,
    decreases s.len(),
{
    if s.len() == 0 {
        assert(decode_spec(encode_spec(s)) =~= s);
    } else {
        let b = s[0];
        let e = encode_byte(b);
        lemma_decode_encode(s.skip(1));
        lemma_decode_encode_byte(b);
        assert(encode_spec(s) == e + encode_spec(s.skip(1)));
        if needs_escape(b) {
            assert(e.len() == 3);
            assert((e + encode_spec(s.skip(1))).skip(3) =~= encode_spec(s.skip(1)));
            assert(encode_spec(s)[0] == PERCENT);
            assert(encode_spec(s)[1] == e[1] && encode_spec(s)[2] == e[2]);
            assert(decode_spec(encode_spec(s)) == seq![(hex_digit_value(e[1]) * 16
                + hex_digit_value(e[2])) as u8] + decode_spec(encode_spec(s.skip(1))));
            assert(decode_spec(e) == seq![(hex_digit_value(e[1]) * 16 + hex_digit_value(
                e[2],
            )) as u8] + decode_spec(e.skip(3)));
            assert(e.skip(3) =~= Seq::<u8>::empty());
            assert(seq![(hex_digit_value(e[1]) * 16 + hex_digit_value(e[2])) as u8] + Seq::<
                u8,
            >::empty() =~= seq![(hex_digit_value(e[1]) * 16 + hex_digit_value(e[2])) as u8]);
            assert(seq![(hex_digit_value(e[1]) * 16 + hex_digit_value(e[2])) as u8] == seq![b]);
            assert(decode_spec(encode_spec(s)) =~= s);
        } else {
            assert(e.len() == 1);
            assert(encode_spec(s)[0] == b);
            assert(b != PERCENT);
            assert((e + encode_spec(s.skip(1))).skip(1) =~= encode_spec(s.skip(1)));
            assert(decode_spec(encode_spec(s)) == seq![b] + decode_spec(encode_spec(s.skip(1))));
            assert(decode_spec(encode_spec(s)) =~= s);
        }
    }
}

/// Every byte of an encoded string is either an unescaped byte that needed
/// no escape, a `%`, or a hexadecimal digit; in particular none of the
/// grammar's separators `-`, `,`, `&` ever appears in an encoding.
pub proof fn lemma_encode_no_separators(s: Seq<u8>)
    ensures
        forall|i: int|
            0 <= i < encode_spec(s).len() ==> encode_spec(s)[i] != DASH && encode_spec(s)[i]
                != COMMA && encode_spec(s)[i] != AMPERSAND,
    decreases s.len(),
{
    if s.len() == 0 {
    } else {
        let b = s[0];
        let e = encode_byte(b);
        lemma_encode_no_separators(s.skip(1));
        assert(encode_spec(s) == e + encode_spec(s.skip(1)));
        assert forall|i: int| 0 <= i < e.len() implies e[i] != DASH && e[i] != COMMA && e[i]
            != AMPERSAND by {
            if needs_escape(b) {
                assert(is_hex_digit(hex_digit_of(b / 16)));
                assert(is_hex_digit(hex_digit_of(b % 16)));
            }
        }
        assert forall|i: int| 0 <= i < encode_spec(s).len() implies encode_spec(s)[i] != DASH
            && encode_spec(s)[i] != COMMA && encode_spec(s)[i] != AMPERSAND by {
            if i < e.len() {
            } else {
                assert(encode_spec(s)[i] == encode_spec(s.skip(1))[i - e.len()]);
            }
        }
    }
}

/// An encoding is at least as long as what it encodes; in particular the
/// encoding of a non-empty string is non-empty.
pub proof fn lemma_encode_len(s: Seq<u8>)
    ensures
        encode_spec(s).len() >= s.len(),
    decreases s.len(),
{
    if s.len() == 0 {
    } else {
        lemma_encode_len(s.skip(1));
    }
}

} // verus!
