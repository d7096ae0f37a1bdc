//! Form-urlencoding: the byte-level percent-encoding used in query strings.
//!
//! ASCII letters and digits and `*`, `-`, `.`, `_` pass through, a space
//! becomes `+`, and every other byte becomes `%XX` with uppercase hexadecimal
//! digits.  A string is encoded by encoding its UTF-8 bytes.  Decoding is the
//! exact inverse; [`lemma_decode_encode_str`] proves the round trip.

use vstd::prelude::*;

verus! {

use vstd::utf8::{
    valid_utf8, encode_utf8, decode_utf8, encode_scalar, char_is_scalar, char_u32_cast,
    has_width_1_encoding, leading_byte_width_1, encode_utf8_decode_utf8,
};
use crate::strutil::{hex_char_of, hex_val_of, is_hex_digit, hex_char, hex_val, push_char};

// ---------------------------------------------------------------------------
// Specification
// ---------------------------------------------------------------------------

/// Bytes that the encoder passes through unchanged: ASCII letters and digits
/// and `*`, `-`, `.`, `_`.
pub open spec fn is_unreserved_byte(b: u8) -> bool {
    (0x30 <= b && b <= 0x39) || (0x41 <= b && b <= 0x5a) || (0x61 <= b && b <= 0x7a) || b == 0x2a
        || b == 0x2d || b == 0x2e || b == 0x5f
}

/// The encoding of one byte: kept as is, `+` for a space, `%XX` otherwise.
pub open spec fn encoded_byte(b: u8) -> Seq<char> {
    if is_unreserved_byte(b) {
        seq![b as char]
    } else if b == 0x20 {
        seq!['+']
    } else {
        seq!['%', hex_char_of(b as int / 16), hex_char_of(b as int % 16)]
    }
}

/// The form-urlencoding of a byte sequence.
pub open spec fn encoded_bytes(bs: Seq<u8>) -> Seq<char>
    decreases bs.len(),
{
    if bs.len() == 0 {
        seq![]
    } else {
        encoded_byte(bs[0]) + encoded_bytes(bs.drop_first())
    }
}

/// The form-urlencoding of a string, applied to its UTF-8 bytes.
pub open spec fn encoded_str(s: Seq<char>) -> Seq<char> {
    encoded_bytes(encode_utf8(s))
}

/// Percent-decoding back to bytes.  `+` stands for a space, `%XX` for one
/// byte, and any other character for its own UTF-8 bytes.  A `%` that two
/// hexadecimal digits do not follow makes the whole text undecodable.
pub open spec fn decoded_bytes(s: Seq<char>) -> Option<Seq<u8>>
    decreases s.len(),
{
    if s.len() == 0 {
        Some(seq![])
    } else if s[0] == '%' {
        if s.len() >= 3 && is_hex_digit(s[1]) && is_hex_digit(s[2]) {
            match decoded_bytes(s.subrange(3, s.len() as int)) {
                Some(rest) => Some(
                    seq![(hex_val_of(s[1]) * 16 + hex_val_of(s[2])) as u8] + rest,
                ),
                None => None,
            }
        } else {
            None
        }
    } else {
        let head = if s[0] == '+' {
            seq![0x20u8]
        } else {
            encode_utf8(seq![s[0]])
        };
        match decoded_bytes(s.drop_first()) {
            Some(rest) => Some(head + rest),
            None => None,
        }
    }
}

/// Percent-decoding all the way back to characters: the decoded bytes must
/// form valid UTF-8.
pub open spec fn decoded_str(s: Seq<char>) -> Option<Seq<char>> {
    match decoded_bytes(s) {
        Some(bs) => if valid_utf8(bs) {
            Some(decode_utf8(bs))
        } else {
            None
        },
        None => None,
    }
}

// ---------------------------------------------------------------------------
// Executable encoder
// ---------------------------------------------------------------------------

fn unreserved_byte(b: u8) -> (r: bool)
    ensures
        r == is_unreserved_byte(b),
{
    (0x30 <= b && b <= 0x39) || (0x41 <= b && b <= 0x5a) || (0x61 <= b && b <= 0x7a) || b == 0x2a
        || b == 0x2d || b == 0x2e || b == 0x5f
}

proof fn lemma_encoded_bytes_snoc(bs: Seq<u8>, b: u8)
    ensures
        encoded_bytes(bs.push(b)) == encoded_bytes(bs) + encoded_byte(b),
    decreases bs.len(),
{
    if bs.len() == 0 {
        assert(bs.push(b)[0] == b);
        assert(bs.push(b).drop_first() =~= Seq::<u8>::empty());
        assert(encoded_bytes(bs.push(b)) =~= encoded_byte(b) + encoded_bytes(
            Seq::<u8>::empty(),
        ));
        assert(encoded_bytes(bs.push(b)) =~= encoded_byte(b));
        assert(encoded_bytes(bs) + encoded_byte(b) =~= encoded_byte(b));
    } else {
        assert(bs.push(b).drop_first() =~= bs.drop_first().push(b));
        lemma_encoded_bytes_snoc(bs.drop_first(), b);
        assert(encoded_bytes(bs.push(b)) =~= encoded_bytes(bs) + encoded_byte(b));
    }
}

/// Appends the encoding of one byte to the output string.
fn push_encoded_byte(out: &mut String, b: u8)
    ensures
        final(out)@ == old(out)@ + encoded_byte(b),
{
    if unreserved_byte(b) {
        push_char(out, b as char);
        assert(out@ =~= old(out)@ + encoded_byte(b));
    } else if b == 0x20 {
        push_char(out, '+');
        assert(out@ =~= old(out)@ + encoded_byte(b));
    } else {
        push_char(out, '%');
        push_char(out, hex_char(b / 16));
        push_char(out, hex_char(b % 16));
        assert(out@ =~= old(out)@ + encoded_byte(b));
    }
}

/// Form-urlencodes a string.
pub fn form_encode(s: &str) -> (r: String)
    ensures
        r@ == encoded_str(s@),
{
    let bytes = s.as_bytes_vec();
    let mut out = String::new();
    let mut i: usize = 0;
    while i < bytes.len()
        invariant
            i <= bytes@.len(),
            out@ == encoded_bytes(bytes@.subrange(0, i as int)),
        decreases bytes@.len() - i,
    {
        push_encoded_byte(&mut out, bytes[i]);
        proof {
            lemma_encoded_bytes_snoc(bytes@.subrange(0, i as int), bytes@[i as int]);
            assert(bytes@.subrange(0, i as int + 1) =~= bytes@.subrange(0, i as int).push(
                bytes@[i as int],
            ));
        }
        i = i + 1;
    }
    proof {
        assert(bytes@.subrange(0, bytes@.len() as int) =~= bytes@);
    }
    out
}

// ---------------------------------------------------------------------------
// Executable decoder
// ---------------------------------------------------------------------------

/// Appends the UTF-8 bytes of one character.
pub fn push_utf8_char(out: &mut Vec<u8>, c: char)
    ensures
        final(out)@ == old(out)@ + encode_utf8(seq![c]),
{
    proof {
        char_is_scalar(c);
        assert(encode_utf8(seq![c]) =~= encode_scalar(c as u32) + encode_utf8(
            seq![c].drop_first(),
        ));
        assert(seq![c].drop_first() =~= Seq::<char>::empty());
        assert(encode_utf8(seq![c]) =~= encode_scalar(c as u32));
    }
    let u = c as u32;
    if u < 0x80 {
        out.push((u & 0x7F) as u8);
        assert(out@ =~= old(out)@ + encode_scalar(c as u32));
    } else if u < 0x800 {
        out.push(0xC0 | ((u >> 6) & 0x1F) as u8);
        out.push(0x80 | (u & 0x3F) as u8);
        assert(out@ =~= old(out)@ + encode_scalar(c as u32));
    } else if u < 0x10000 {
        out.push(0xE0 | ((u >> 12) & 0x0F) as u8);
        out.push(0x80 | ((u >> 6) & 0x3F) as u8);
        out.push(0x80 | (u & 0x3F) as u8);
        assert(out@ =~= old(out)@ + encode_scalar(c as u32));
    } else {
        out.push(0xF0 | ((u >> 18) & 0x7) as u8);
        out.push(0x80 | ((u >> 12) & 0x3F) as u8);
        out.push(0x80 | ((u >> 6) & 0x3F) as u8);
        out.push(0x80 | (u & 0x3F) as u8);
        assert(out@ =~= old(out)@ + encode_scalar(c as u32));
    }
}

/// Percent-decodes the characters `cs[from..to]` to bytes.
pub fn form_decode_range(cs: &Vec<char>, from: usize, to: usize) -> (r: Option<Vec<u8>>)
    requires
        from <= to <= cs@.len(),
    ensures
        match r {
            Some(v) => decoded_bytes(cs@.subrange(from as int, to as int)) == Some(v@),
            None => decoded_bytes(cs@.subrange(from as int, to as int)) is None,
        },
{
    let mut out: Vec<u8> = Vec::new();
    let mut i: usize = from;
    while i < to
        invariant
            from <= i <= to <= cs@.len(),
            match decoded_bytes(cs@.subrange(i as int, to as int)) {
                Some(rest) => decoded_bytes(cs@.subrange(from as int, to as int)) == Some(
                    out@ + rest,
                ),
                None => decoded_bytes(cs@.subrange(from as int, to as int)) is None,
            },
        decreases to - i,
    {
        let ghost s = cs@.subrange(i as int, to as int);
        let c = cs[i];
        if c == '%' {
            if to - i >= 3 {
                let h = hex_val(cs[i + 1]);
                let l = hex_val(cs[i + 2]);
                match (h, l) {
                    (Some(hv), Some(lv)) => {
                        proof {
                            assert(s.subrange(3, s.len() as int) =~= cs@.subrange(
                                i as int + 3,
                                to as int,
                            ));
                        }
                        out.push(hv * 16 + lv);
                        proof {
                            if let Some(rest) = decoded_bytes(
                                cs@.subrange(i as int + 3, to as int),
                            ) {
                                assert(out@ + rest =~= out@.subrange(0, out@.len() - 1) + (seq![
                                    (hex_val_of(s[1]) * 16 + hex_val_of(s[2])) as u8] + rest));
                            }
                        }
                        i = i + 3;
                    },
                    _ => {
                        return None;
                    },
                }
            } else {
                return None;
            }
        } else if c == '+' {
            proof {
                assert(s.drop_first() =~= cs@.subrange(i as int + 1, to as int));
            }
            out.push(0x20);
            proof {
                if let Some(rest) = decoded_bytes(cs@.subrange(i as int + 1, to as int)) {
                    assert(out@ + rest =~= out@.subrange(0, out@.len() - 1) + (seq![0x20u8]
                        + rest));
                }
            }
            i = i + 1;
        } else {
            proof {
                assert(s.drop_first() =~= cs@.subrange(i as int + 1, to as int));
            }
            push_utf8_char(&mut out, c);
            proof {
                if let Some(rest) = decoded_bytes(cs@.subrange(i as int + 1, to as int)) {
                    assert(out@ + rest =~= out@.subrange(
                        0,
                        out@.len() - encode_utf8(seq![c]).len(),
                    ) + (encode_utf8(seq![c]) + rest));
                }
            }
            i = i + 1;
        }
    }
    proof {
        assert(cs@.subrange(to as int, to as int) =~= Seq::<char>::empty());
        assert(out@ + Seq::<u8>::empty() =~= out@);
    }
    Some(out)
}

/// Percent-decodes the characters `cs[from..to]` to a string.
pub fn form_decode_str_range(cs: &Vec<char>, from: usize, to: usize) -> (r: Option<String>)
    requires
        from <= to <= cs@.len(),
    ensures
        match r {
            Some(v) => decoded_str(cs@.subrange(from as int, to as int)) == Some(v@),
            None => decoded_str(cs@.subrange(from as int, to as int)) is None,
        },
{
    match form_decode_range(cs, from, to) {
        None => None,
        Some(bytes) => {
            match crate::strutil::string_from_utf8(bytes) {
                None => None,
                Some(s) => {
                    proof {
                        encode_utf8_decode_utf8(s@);
                    }
                    Some(s)
                },
            }
        },
    }
}

/// Percent-decodes a whole string.
pub fn form_decode(s: &str) -> (r: Option<String>)
    ensures
        match r {
            Some(v) => decoded_str(s@) == Some(v@),
            None => decoded_str(s@) is None,
        },
{
    let cs = crate::strutil::chars_of(s);
    let n = cs.len();
    let r = form_decode_str_range(&cs, 0, n);
    proof {
        assert(cs@.subrange(0, n as int) =~= s@);
    }
    r
}

// ---------------------------------------------------------------------------
// Round trip
// ---------------------------------------------------------------------------

/// The empty text decodes to the empty string.
pub proof fn lemma_decoded_empty()
    ensures
        decoded_str(Seq::<char>::empty()) == Some(Seq::<char>::empty()),
{
    assert(decoded_bytes(Seq::<char>::empty()) == Some(Seq::<u8>::empty()));
    assert(valid_utf8(Seq::<u8>::empty()));
    assert(decode_utf8(Seq::<u8>::empty()) =~= Seq::<char>::empty());
}

/// Each value below sixteen is recovered from its hexadecimal digit.
proof fn lemma_hex_char_val(v: int)
    requires
        0 <= v < 16,
    ensures
        hex_val_of(hex_char_of(v)) == v,
        is_hex_digit(hex_char_of(v)),
{
}

/// A single ASCII byte is the UTF-8 encoding of its own character.
proof fn lemma_ascii_byte_utf8(b: u8)
    requires
        b < 0x80,
    ensures
        encode_utf8(seq![b as char]) == seq![b],
{
    let c = b as char;
    assert(c as u32 == b as u32);
    char_is_scalar(c);
    assert(has_width_1_encoding(c as u32));
    let u = c as u32;
    assert((u & 0x7F) as u8 == b as u8) by (bit_vector)
        requires
            u == b as u32 && b < 0x80,
    ;
    assert(leading_byte_width_1(c as u32) == b);
    assert(seq![c].drop_first() =~= Seq::<char>::empty());
    assert(encode_utf8(seq![c]) =~= encode_scalar(c as u32) + encode_utf8(Seq::<char>::empty()));
    assert(encode_utf8(seq![c]) =~= seq![b]);
}

/// Decoding inverts encoding, at the byte level.
pub proof fn lemma_decode_encode_bytes(bs: Seq<u8>)
    ensures
        decoded_bytes(encoded_bytes(bs)) == Some(bs),
    decreases bs.len(),
{
    if bs.len() == 0 {
        assert(encoded_bytes(bs) =~= Seq::<char>::empty());
        assert(bs =~= Seq::<u8>::empty());
    } else {
        let b = bs[0];
        let e = encoded_byte(b);
        let rest = encoded_bytes(bs.drop_first());
        let s = encoded_bytes(bs);
        assert(s == e + rest);
        lemma_decode_encode_bytes(bs.drop_first());
        if is_unreserved_byte(b) {
            let c = b as char;
            assert(s[0] == c);
            assert(c as u32 == b as u32);
            assert(b != 0x25 && b != 0x2b);
            assert('%' as u32 == 0x25 && '+' as u32 == 0x2b);
            assert(c != '%' && c != '+');
            lemma_ascii_byte_utf8(b);
            assert(s.drop_first() =~= rest);
            assert(seq![b] + bs.drop_first() =~= bs);
        } else if b == 0x20 {
            assert(s[0] == '+');
            assert(s.drop_first() =~= rest);
            assert(seq![0x20u8] + bs.drop_first() =~= bs);
        } else {
            assert(s[0] == '%');
            let hv = b as int / 16;
            let lv = b as int % 16;
            assert(0 <= hv < 16 && 0 <= lv < 16);
            lemma_hex_char_val(hv);
            lemma_hex_char_val(lv);
            assert(s[1] == hex_char_of(hv) && s[2] == hex_char_of(lv));
            assert(s.len() >= 3);
            assert(s.subrange(3, s.len() as int) =~= rest);
            assert(hv * 16 + lv == b as int) by {
                vstd::arithmetic::div_mod::lemma_fundamental_div_mod(b as int, 16);
            }
            assert(seq![(hex_val_of(s[1]) * 16 + hex_val_of(s[2])) as u8] =~= seq![b]);
            assert(seq![b] + bs.drop_first() =~= bs);
        }
    }
}

/// Decoding inverts encoding, all the way back to the characters: the
/// round-trip law for a single encoded value.
pub proof fn lemma_decode_encode_str(s: Seq<char>)
    ensures
        decoded_str(encoded_str(s)) == Some(s),
{
    lemma_decode_encode_bytes(encode_utf8(s));
    vstd::utf8::encode_utf8_valid_utf8(s);
    encode_utf8_decode_utf8(s);
}

} // verus!
