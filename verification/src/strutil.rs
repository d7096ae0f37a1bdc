//! Small string helpers: character access, hexadecimal digits, and the two
//! standard-library calls (`String::push`, `String::from_utf8`) that vstd does
//! not specify.

use vstd::prelude::*;

verus! {

use vstd::string::StrSliceExecFns;
use vstd::utf8::{valid_utf8, encode_utf8};

/// Relies on `String::push`: appends exactly one character to the string.
#[verifier::external_body]
pub fn push_char(s: &mut String, c: char)
    ensures
        final(s)@ == old(s)@.push(c),
{
    s.push(c);
}

/// Relies on `String::from_utf8`: succeeds exactly on valid UTF-8 input, and
/// the returned string is backed by exactly the given bytes.
#[verifier::external_body]
pub fn string_from_utf8(v: Vec<u8>) -> (r: Option<String>)
    ensures
        match r {
            Some(s) => valid_utf8(v@) && encode_utf8(s@) == v@,
            None => !valid_utf8(v@),
        },
{
    match String::from_utf8(v) {
        Ok(s) => Some(s),
        Err(_) => None,
    }
}

/// The characters of a string slice, as a vector.
pub fn chars_of(s: &str) -> (r: Vec<char>)
    ensures
        r@ == s@,
{
    let n = s.unicode_len();
    let mut r: Vec<char> = Vec::new();
    let mut i: usize = 0;
    while i < n
        invariant
            n == s@.len(),
            i <= n,
            r@ == s@.subrange(0, i as int),
        decreases n - i,
    {
        r.push(s.get_char(i));
        i = i + 1;
        proof {
            assert(r@ =~= s@.subrange(0, i as int));
        }
    }
    proof {
        assert(r@ =~= s@);
    }
    r
}

/// A string holding exactly the given characters.
pub fn string_of(chars: &Vec<char>) -> (r: String)
    ensures
        r@ == chars@,
{
    let mut r = String::new();
    let mut i: usize = 0;
    while i < chars.len()
        invariant
            i <= chars@.len(),
            r@ == chars@.subrange(0, i as int),
        decreases chars@.len() - i,
    {
        push_char(&mut r, chars[i]);
        i = i + 1;
        proof {
            assert(r@ =~= chars@.subrange(0, i as int));
        }
    }
    proof {
        assert(r@ =~= chars@);
    }
    r
}

/// The uppercase hexadecimal digit for a value below sixteen.
pub open spec fn hex_char_of(v: int) -> char {
    if v == 0 { '0' } else if v == 1 { '1' } else if v == 2 { '2' } else if v == 3 { '3' }
    else if v == 4 { '4' } else if v == 5 { '5' } else if v == 6 { '6' } else if v == 7 { '7' }
    else if v == 8 { '8' } else if v == 9 { '9' } else if v == 10 { 'A' } else if v == 11 { 'B' }
    else if v == 12 { 'C' } else if v == 13 { 'D' } else if v == 14 { 'E' } else { 'F' }
}

/// The value of a hexadecimal digit, upper- or lowercase; `-1` otherwise.
pub open spec fn hex_val_of(c: char) -> int {
    if c == '0' { 0 } else if c == '1' { 1 } else if c == '2' { 2 } else if c == '3' { 3 }
    else if c == '4' { 4 } else if c == '5' { 5 } else if c == '6' { 6 } else if c == '7' { 7 }
    else if c == '8' { 8 } else if c == '9' { 9 }
    else if c == 'A' || c == 'a' { 10 } else if c == 'B' || c == 'b' { 11 }
    else if c == 'C' || c == 'c' { 12 } else if c == 'D' || c == 'd' { 13 }
    else if c == 'E' || c == 'e' { 14 } else if c == 'F' || c == 'f' { 15 }
    else { -1 }
}

pub open spec fn is_hex_digit(c: char) -> bool {
    hex_val_of(c) >= 0
}

pub fn hex_char(v: u8) -> (r: char)
    requires
        v < 16,
    ensures
        r == hex_char_of(v as int),
{
    match v {
        0 => '0', 1 => '1', 2 => '2', 3 => '3', 4 => '4', 5 => '5', 6 => '6', 7 => '7',
        8 => '8', 9 => '9', 10 => 'A', 11 => 'B', 12 => 'C', 13 => 'D', 14 => 'E', _ => 'F',
    }
}

pub fn hex_val(c: char) -> (r: Option<u8>)
    ensures
        match r {
            Some(v) => v == hex_val_of(c) && v < 16,
            None => !is_hex_digit(c),
        },
{
    if '0' <= c && c <= '9' {
        Some((c as u8) - 48)
    } else if 'A' <= c && c <= 'F' {
        Some((c as u8) - 65 + 10)
    } else if 'a' <= c && c <= 'f' {
        Some((c as u8) - 97 + 10)
    } else {
        None
    }
}

/// True of ASCII letters and digits.
pub open spec fn is_alnum_char(c: char) -> bool {
    ('0' <= c && c <= '9') || ('A' <= c && c <= 'Z') || ('a' <= c && c <= 'z')
}

pub fn alnum_char(c: char) -> (r: bool)
    ensures
        r == is_alnum_char(c),
{
    ('0' <= c && c <= '9') || ('A' <= c && c <= 'Z') || ('a' <= c && c <= 'z')
}

} // verus!
