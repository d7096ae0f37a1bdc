//! A verified reader for flat JSON objects, which is all the token endpoint
//! sends: one object whose values are strings or integers.
//!
//! The grammar is deliberately small: string escapes are the single-character
//! ones (`\" \\ \/ \b \f \n \r \t`), and integers have at most nine digits
//! and no leading zero.  Anything else — nested values, arrays, floats —
//! makes the document unreadable, which the flow reports as a decode error.

use vstd::prelude::*;

verus! {

use crate::strutil::{chars_of, push_char};

// ---------------------------------------------------------------------------
// Character-level pieces
// ---------------------------------------------------------------------------

pub open spec fn is_json_ws(c: char) -> bool {
    c == ' ' || c == '\t' || c == '\n' || c == '\r'
}

pub open spec fn is_digit(c: char) -> bool {
    '0' <= c && c <= '9'
}

pub open spec fn digit_val(c: char) -> int {
    c as u32 - 48
}

/// The character an escape letter stands for, if it is one we read.
pub open spec fn unescaped(c: char) -> Option<char> {
    if c == '"' {
        Some('"')
    } else if c == '\\' {
        Some('\\')
    } else if c == '/' {
        Some('/')
    } else if c == 'n' {
        Some('\n')
    } else if c == 't' {
        Some('\t')
    } else if c == 'r' {
        Some('\r')
    } else if c == 'b' {
        Some('\u{8}')
    } else if c == 'f' {
        Some('\u{c}')
    } else {
        None
    }
}

/// Position just after the closing quote of a string whose body starts at
/// `i`; `-1` when the string never closes properly.
pub open spec fn str_end(s: Seq<char>, i: int) -> int
    decreases s.len() - i,
    when 0 <= i <= s.len()
{
    if i >= s.len() {
        -1
    } else if s[i] == '"' {
        i + 1
    } else if s[i] == '\\' {
        if i + 1 < s.len() && unescaped(s[i + 1]) is Some {
            str_end(s, i + 2)
        } else {
            -1
        }
    } else if (s[i] as u32) < 0x20 {
        -1
    } else {
        str_end(s, i + 1)
    }
}

/// The unescaped content of the string whose body starts at `i`.
pub open spec fn str_val(s: Seq<char>, i: int) -> Seq<char>
    decreases s.len() - i,
    when 0 <= i <= s.len()
{
    if i >= s.len() {
        seq![]
    } else if s[i] == '"' {
        seq![]
    } else if s[i] == '\\' {
        if i + 1 < s.len() && unescaped(s[i + 1]) is Some {
            match unescaped(s[i + 1]) {
                Some(c) => seq![c] + str_val(s, i + 2),
                None => seq![],
            }
        } else {
            seq![]
        }
    } else if (s[i] as u32) < 0x20 {
        seq![]
    } else {
        seq![s[i]] + str_val(s, i + 1)
    }
}

proof fn lemma_str_end_bounds(s: Seq<char>, i: int)
    requires
        0 <= i <= s.len(),
    ensures
        str_end(s, i) == -1 || (i < str_end(s, i) <= s.len()),
    decreases s.len() - i,
{
    if i >= s.len() {
    } else if s[i] == '"' {
    } else if s[i] == '\\' {
        if i + 1 < s.len() && unescaped(s[i + 1]) is Some {
            lemma_str_end_bounds(s, i + 2);
        }
    } else if (s[i] as u32) < 0x20 {
    } else {
        lemma_str_end_bounds(s, i + 1);
    }
}

/// First position at or after `i` that does not hold a digit.
pub open spec fn digits_end(s: Seq<char>, i: int) -> int
    decreases s.len() - i,
    when 0 <= i <= s.len()
{
    if i < s.len() && is_digit(s[i]) {
        digits_end(s, i + 1)
    } else {
        i
    }
}

proof fn lemma_digits_end_bounds(s: Seq<char>, i: int)
    requires
        0 <= i <= s.len(),
    ensures
        i <= digits_end(s, i) <= s.len(),
    decreases s.len() - i,
{
    if i < s.len() && is_digit(s[i]) {
        lemma_digits_end_bounds(s, i + 1);
    }
}

/// The value of the digits `s[from..to]`.
pub open spec fn digits_val(s: Seq<char>, from: int, to: int) -> int
    decreases to - from,
    when from <= to
{
    if to <= from {
        0
    } else {
        digits_val(s, from, to - 1) * 10 + digit_val(s[to - 1])
    }
}

pub open spec fn pow10(n: nat) -> int
    decreases n,
{
    if n == 0 {
        1
    } else {
        10 * pow10((n - 1) as nat)
    }
}

proof fn lemma_digits_val_bound(s: Seq<char>, from: int, to: int)
    requires
        from <= to,
        forall|t: int| from <= t < to ==> is_digit(s[t]),
    ensures
        0 <= digits_val(s, from, to) < pow10((to - from) as nat),
    decreases to - from,
{
    if to <= from {
    } else {
        lemma_digits_val_bound(s, from, to - 1);
        assert(0 <= digit_val(s[to - 1]) < 10);
    }
}

/// A readable digit run: at most nine digits, and a leading zero only alone.
pub open spec fn digit_run_ok(s: Seq<char>, from: int, to: int) -> bool {
    to - from <= 9 && (s[from] == '0' ==> to == from + 1)
}

// ---------------------------------------------------------------------------
// Tokens
// ---------------------------------------------------------------------------

pub enum JsonToken {
    LBrace,
    RBrace,
    Colon,
    Comma,
    Text(String),
    Number(i64),
}

pub enum JsonTokV {
    LBrace,
    RBrace,
    Colon,
    Comma,
    Text(Seq<char>),
    Number(int),
}

impl View for JsonToken {
    type V = JsonTokV;

    open spec fn view(&self) -> JsonTokV {
        match self {
            JsonToken::LBrace => JsonTokV::LBrace,
            JsonToken::RBrace => JsonTokV::RBrace,
            JsonToken::Colon => JsonTokV::Colon,
            JsonToken::Comma => JsonTokV::Comma,
            JsonToken::Text(t) => JsonTokV::Text(t@),
            JsonToken::Number(n) => JsonTokV::Number(*n as int),
        }
    }
}

pub open spec fn tok_views(ts: Seq<JsonToken>) -> Seq<JsonTokV> {
    Seq::new(ts.len(), |i: int| ts[i]@)
}

pub open spec fn cons_tok(t: JsonTokV, rest: Option<Seq<JsonTokV>>) -> Option<Seq<JsonTokV>> {
    match rest {
        Some(r) => Some(seq![t] + r),
        None => None,
    }
}

/// The token list of the text from position `i` on; `None` when a character
/// fits no token.
pub open spec fn tokens_from(s: Seq<char>, i: int) -> Option<Seq<JsonTokV>>
    decreases s.len() - i,
    when 0 <= i <= s.len()
    via tokens_from_dec
{
    if i >= s.len() {
        Some(seq![])
    } else if is_json_ws(s[i]) {
        tokens_from(s, i + 1)
    } else if s[i] == '{' {
        cons_tok(JsonTokV::LBrace, tokens_from(s, i + 1))
    } else if s[i] == '}' {
        cons_tok(JsonTokV::RBrace, tokens_from(s, i + 1))
    } else if s[i] == ':' {
        cons_tok(JsonTokV::Colon, tokens_from(s, i + 1))
    } else if s[i] == ',' {
        cons_tok(JsonTokV::Comma, tokens_from(s, i + 1))
    } else if s[i] == '"' {
        let e = str_end(s, i + 1);
        if e == -1 {
            None
        } else {
            cons_tok(JsonTokV::Text(str_val(s, i + 1)), tokens_from(s, e))
        }
    } else if s[i] == '-' {
        if i + 1 < s.len() && is_digit(s[i + 1]) {
            let e = digits_end(s, i + 1);
            if digit_run_ok(s, i + 1, e) {
                cons_tok(JsonTokV::Number(-digits_val(s, i + 1, e)), tokens_from(s, e))
            } else {
                None
            }
        } else {
            None
        }
    } else if is_digit(s[i]) {
        let e = digits_end(s, i);
        if digit_run_ok(s, i, e) {
            cons_tok(JsonTokV::Number(digits_val(s, i, e)), tokens_from(s, e))
        } else {
            None
        }
    } else {
        None
    }
}

#[via_fn]
proof fn tokens_from_dec(s: Seq<char>, i: int) {
    if 0 <= i && i < s.len() {
        if s[i] == '"' {
            lemma_str_end_bounds(s, i + 1);
        }
        if s[i] == '-' && i + 1 < s.len() && is_digit(s[i + 1]) {
            lemma_digits_end_bounds(s, i + 2);
        }
        if is_digit(s[i]) {
            lemma_digits_end_bounds(s, i + 1);
        }
    }
}

// ---------------------------------------------------------------------------
// Objects
// ---------------------------------------------------------------------------

/// A member value: a string or an integer.
pub enum JsonValV {
    Text(Seq<char>),
    Number(int),
}

/// An exec member value.
pub enum JsonField {
    Text(String),
    Number(i64),
}

impl View for JsonField {
    type V = JsonValV;

    open spec fn view(&self) -> JsonValV {
        match self {
            JsonField::Text(t) => JsonValV::Text(t@),
            JsonField::Number(n) => JsonValV::Number(*n as int),
        }
    }
}

pub open spec fn member_views(ms: Seq<(String, JsonField)>) -> Seq<(Seq<char>, JsonValV)> {
    Seq::new(ms.len(), |i: int| (ms[i].0@, ms[i].1@))
}

pub open spec fn member_val(t: JsonTokV) -> Option<JsonValV> {
    match t {
        JsonTokV::Text(s) => Some(JsonValV::Text(s)),
        JsonTokV::Number(n) => Some(JsonValV::Number(n)),
        _ => None,
    }
}

/// The members read from token position `i`, which must sit right after `{`
/// or a comma: `"key" : value` then a comma or the final `}`.
pub open spec fn members_from(toks: Seq<JsonTokV>, i: int) -> Option<
    Seq<(Seq<char>, JsonValV)>,
>
    decreases toks.len() - i,
    when 0 <= i
{
    if i + 4 > toks.len() {
        None
    } else {
        match (toks[i], toks[i + 1], member_val(toks[i + 2]), toks[i + 3]) {
            (JsonTokV::Text(k), JsonTokV::Colon, Some(v), JsonTokV::Comma) => {
                match members_from(toks, i + 4) {
                    Some(rest) => Some(seq![(k, v)] + rest),
                    None => None,
                }
            },
            (JsonTokV::Text(k), JsonTokV::Colon, Some(v), JsonTokV::RBrace) => {
                if i + 4 == toks.len() {
                    Some(seq![(k, v)])
                } else {
                    None
                }
            },
            _ => None,
        }
    }
}

/// The members of a flat JSON object, or `None` when the text is not one.
pub open spec fn spec_json_object(s: Seq<char>) -> Option<Seq<(Seq<char>, JsonValV)>> {
    match tokens_from(s, 0) {
        None => None,
        Some(tk) => {
            if tk.len() >= 1 && tk[0] is LBrace {
                if tk.len() == 2 && tk[1] is RBrace {
                    Some(seq![])
                } else {
                    members_from(tk, 1)
                }
            } else {
                None
            }
        },
    }
}

/// The value of the first member with the given key.
pub open spec fn lookup_member(ms: Seq<(Seq<char>, JsonValV)>, key: Seq<char>) -> Option<JsonValV>
    decreases ms.len(),
{
    if ms.len() == 0 {
        None
    } else if ms[0].0 == key {
        Some(ms[0].1)
    } else {
        lookup_member(ms.drop_first(), key)
    }
}

pub open spec fn lookup_text(ms: Seq<(Seq<char>, JsonValV)>, key: Seq<char>) -> Option<Seq<char>> {
    match lookup_member(ms, key) {
        Some(JsonValV::Text(t)) => Some(t),
        _ => None,
    }
}

pub open spec fn lookup_number(ms: Seq<(Seq<char>, JsonValV)>, key: Seq<char>) -> Option<int> {
    match lookup_member(ms, key) {
        Some(JsonValV::Number(n)) => Some(n),
        _ => None,
    }
}

// ---------------------------------------------------------------------------
// Executable tokenizer
// ---------------------------------------------------------------------------

fn unescape(c: char) -> (r: Option<char>)
    ensures
        r == unescaped(c),
{
    if c == '"' {
        Some('"')
    } else if c == '\\' {
        Some('\\')
    } else if c == '/' {
        Some('/')
    } else if c == 'n' {
        Some('\n')
    } else if c == 't' {
        Some('\t')
    } else if c == 'r' {
        Some('\r')
    } else if c == 'b' {
        Some('\u{8}')
    } else if c == 'f' {
        Some('\u{c}')
    } else {
        None
    }
}

proof fn lemma_tok_step(prefix: Seq<JsonToken>, t: JsonToken, rest: Seq<JsonTokV>)
    ensures
        tok_views(prefix.push(t)) + rest =~= tok_views(prefix) + (seq![t@] + rest),
{
    assert(tok_views(prefix.push(t)) =~= tok_views(prefix).push(t@));
}

/// Turns the characters into tokens, exactly as [`tokens_from`] reads them.
fn tokenize(cs: &Vec<char>) -> (r: Option<Vec<JsonToken>>)
    ensures
        match r {
            Some(v) => tokens_from(cs@, 0) == Some(tok_views(v@)),
            None => tokens_from(cs@, 0) is None,
        },
{
    let n = cs.len();
    let mut out: Vec<JsonToken> = Vec::new();
    let mut i: usize = 0;
    proof {
        assert(tok_views(out@) =~= Seq::<JsonTokV>::empty());
        if let Some(rest) = tokens_from(cs@, 0) {
            assert(tok_views(out@) + rest =~= rest);
        }
    }
    while i < n
        invariant
            i <= n,
            n == cs@.len(),
            match tokens_from(cs@, i as int) {
                Some(rest) => tokens_from(cs@, 0) == Some(tok_views(out@) + rest),
                None => tokens_from(cs@, 0) is None,
            },
        decreases n - i,
    {
        let c = cs[i];
        if c == ' ' || c == '\t' || c == '\n' || c == '\r' {
            i = i + 1;
        } else if c == '{' || c == '}' || c == ':' || c == ',' {
            let t = if c == '{' {
                JsonToken::LBrace
            } else if c == '}' {
                JsonToken::RBrace
            } else if c == ':' {
                JsonToken::Colon
            } else {
                JsonToken::Comma
            };
            let ghost old_out = out@;
            out.push(t);
            proof {
                assert(tokens_from(cs@, i as int) == cons_tok(
                    t@,
                    tokens_from(cs@, i as int + 1),
                ));
                if let Some(rest) = tokens_from(cs@, i as int + 1) {
                    lemma_tok_step(old_out, t, rest);
                }
            }
            i = i + 1;
        } else if c == '"' {
            let start = i + 1;
            let mut j = start;
            let mut text = String::new();
            loop
                invariant_except_break
                    i < n,
                    n == cs@.len(),
                    start == i + 1,
                    start <= j <= n,
                    cs@[i as int] == '"',
                    str_end(cs@, start as int) == str_end(cs@, j as int),
                    str_val(cs@, start as int) == text@ + str_val(cs@, j as int),
                    match tokens_from(cs@, i as int) {
                        Some(rest) => tokens_from(cs@, 0) == Some(tok_views(out@) + rest),
                        None => tokens_from(cs@, 0) is None,
                    },
                ensures
                    i < n,
                    n == cs@.len(),
                    start == i + 1,
                    start <= j < n,
                    cs@[i as int] == '"',
                    cs@[j as int] == '"',
                    str_end(cs@, start as int) == j + 1,
                    str_val(cs@, start as int) == text@,
                    match tokens_from(cs@, i as int) {
                        Some(rest) => tokens_from(cs@, 0) == Some(tok_views(out@) + rest),
                        None => tokens_from(cs@, 0) is None,
                    },
                decreases n - j,
            {
                if j == n {
                    proof {
                        assert(str_end(cs@, start as int) == -1);
                        assert(tokens_from(cs@, i as int) is None);
                    }
                    return None;
                }
                let c2 = cs[j];
                if c2 == '"' {
                    proof {
                        assert(str_end(cs@, j as int) == j + 1);
                        assert(str_val(cs@, j as int) =~= Seq::<char>::empty());
                        assert(text@ + Seq::<char>::empty() =~= text@);
                    }
                    break;
                }
                if c2 == '\\' {
                    if j + 1 == n {
                        proof {
                            assert(str_end(cs@, j as int) == -1);
                            assert(tokens_from(cs@, i as int) is None);
                        }
                        return None;
                    }
                    match unescape(cs[j + 1]) {
                        Some(u) => {
                            push_char(&mut text, u);
                            proof {
                                assert(str_val(cs@, j as int) =~= seq![u] + str_val(
                                    cs@,
                                    j as int + 2,
                                ));
                                assert(text@ + str_val(cs@, j as int + 2) =~= text@.subrange(
                                    0,
                                    text@.len() - 1,
                                ) + str_val(cs@, j as int));
                            }
                            j = j + 2;
                        },
                        None => {
                            proof {
                                assert(str_end(cs@, j as int) == -1);
                                assert(tokens_from(cs@, i as int) is None);
                            }
                            return None;
                        },
                    }
                } else if (c2 as u32) < 0x20 {
                    proof {
                        assert(str_end(cs@, j as int) == -1);
                        assert(tokens_from(cs@, i as int) is None);
                    }
                    return None;
                } else {
                    push_char(&mut text, c2);
                    proof {
                        assert(str_val(cs@, j as int) =~= seq![cs@[j as int]] + str_val(
                            cs@,
                            j as int + 1,
                        ));
                        assert(text@ + str_val(cs@, j as int + 1) =~= text@.subrange(
                            0,
                            text@.len() - 1,
                        ) + str_val(cs@, j as int));
                    }
                    j = j + 1;
                }
            }
            let ghost old_out = out@;
            let t = JsonToken::Text(text);
            out.push(t);
            proof {
                assert(tokens_from(cs@, i as int) == cons_tok(
                    t@,
                    tokens_from(cs@, j as int + 1),
                ));
                if let Some(rest) = tokens_from(cs@, j as int + 1) {
                    lemma_tok_step(old_out, t, rest);
                }
            }
            i = j + 1;
        } else if c == '-' || ('0' <= c && c <= '9') {
            let neg = c == '-';
            let start = if neg { i + 1 } else { i };
            if neg {
                if start == n {
                    return None;
                }
                let d0 = cs[start];
                if !('0' <= d0 && d0 <= '9') {
                    return None;
                }
            }
            // First digit, then the rest of the run.
            let mut acc: u32 = {
                let d0 = cs[start];
                (d0 as u32) - 48
            };
            let mut j = start + 1;
            proof {
                reveal_with_fuel(digits_val, 2);
                assert(digits_val(cs@, start as int, start as int + 1) == digit_val(
                    cs@[start as int],
                ));
            }
            loop
                invariant_except_break
                    i < n,
                    n == cs@.len(),
                    start == if neg { i + 1 } else { i as int },
                    neg ==> cs@[i as int] == '-',
                    start < j <= n,
                    is_digit(cs@[start as int]),
                    forall|t: int| start <= t < j ==> is_digit(cs@[t]),
                    j - start <= 9,
                    acc == digits_val(cs@, start as int, j as int),
                    digits_end(cs@, start as int) == digits_end(cs@, j as int),
                    match tokens_from(cs@, i as int) {
                        Some(rest) => tokens_from(cs@, 0) == Some(tok_views(out@) + rest),
                        None => tokens_from(cs@, 0) is None,
                    },
                ensures
                    i < n,
                    n == cs@.len(),
                    start == if neg { i + 1 } else { i as int },
                    neg ==> cs@[i as int] == '-',
                    start < j <= n,
                    is_digit(cs@[start as int]),
                    forall|t: int| start <= t < j ==> is_digit(cs@[t]),
                    j - start <= 9,
                    acc == digits_val(cs@, start as int, j as int),
                    digits_end(cs@, start as int) == j,
                    match tokens_from(cs@, i as int) {
                        Some(rest) => tokens_from(cs@, 0) == Some(tok_views(out@) + rest),
                        None => tokens_from(cs@, 0) is None,
                    },
                decreases n - j,
            {
                if j == n {
                    break;
                }
                let d = cs[j];
                if !('0' <= d && d <= '9') {
                    break;
                }
                if j - start >= 9 {
                    // A tenth digit: the run is too long to be readable.
                    proof {
                        lemma_digits_end_bounds(cs@, j as int + 1);
                        assert(digits_end(cs@, j as int) == digits_end(cs@, j as int + 1));
                        assert(digits_end(cs@, start as int) - start >= 10);
                        assert(!digit_run_ok(
                            cs@,
                            start as int,
                            digits_end(cs@, start as int),
                        ));
                        assert(tokens_from(cs@, i as int) is None);
                    }
                    return None;
                }
                proof {
                    lemma_digits_val_bound(cs@, start as int, j as int);
                    reveal_with_fuel(pow10, 10);
                    assert(pow10((j - start) as nat) <= pow10(8)) by {
                        lemma_pow10_mono((j - start) as nat, 8);
                    }
                    assert(acc < 100000000);
                }
                acc = acc * 10 + ((d as u32) - 48);
                j = j + 1;
            }
            // Leading zeros are not readable.
            if cs[start] == '0' && j > start + 1 {
                proof {
                    assert(!digit_run_ok(cs@, start as int, digits_end(cs@, start as int)));
                    assert(tokens_from(cs@, i as int) is None);
                }
                return None;
            }
            proof {
                lemma_digits_val_bound(cs@, start as int, j as int);
                reveal_with_fuel(pow10, 10);
                assert(acc < 1000000000);
            }
            let val: i64 = if neg {
                -(acc as i64)
            } else {
                acc as i64
            };
            let ghost old_out = out@;
            let t = JsonToken::Number(val);
            out.push(t);
            proof {
                assert(digit_run_ok(cs@, start as int, digits_end(cs@, start as int)));
                assert(tokens_from(cs@, i as int) == cons_tok(
                    t@,
                    tokens_from(cs@, j as int),
                ));
                if let Some(rest) = tokens_from(cs@, j as int) {
                    lemma_tok_step(old_out, t, rest);
                }
            }
            i = j;
        } else {
            proof {
                assert(tokens_from(cs@, i as int) is None);
            }
            return None;
        }
    }
    proof {
        assert(tokens_from(cs@, n as int) == Some(Seq::<JsonTokV>::empty()));
        assert(tok_views(out@) + Seq::<JsonTokV>::empty() =~= tok_views(out@));
    }
    Some(out)
}

proof fn lemma_pow10_mono(a: nat, b: nat)
    requires
        a <= b,
    ensures
        pow10(a) <= pow10(b),
        pow10(a) >= 1,
    decreases b,
{
    if b == 0 {
    } else if a == b {
        lemma_pow10_mono((b - 1) as nat, (b - 1) as nat);
    } else {
        lemma_pow10_mono(a, (b - 1) as nat);
    }
}

// ---------------------------------------------------------------------------
// Executable object reader
// ---------------------------------------------------------------------------

/// Reads the text as a flat JSON object and returns its members in order.
pub fn json_object_members(s: &str) -> (r: Option<Vec<(String, JsonField)>>)
    ensures
        match r {
            Some(ms) => spec_json_object(s@) == Some(member_views(ms@)),
            None => spec_json_object(s@) is None,
        },
{
    let cs = chars_of(s);
    let toks = match tokenize(&cs) {
        Some(t) => t,
        None => {
            return None;
        },
    };
    let ghost tv = tok_views(toks@);
    if toks.len() == 0 {
        return None;
    }
    match &toks[0] {
        JsonToken::LBrace => {},
        _ => {
            return None;
        },
    }
    if toks.len() == 2 {
        match &toks[1] {
            JsonToken::RBrace => {
                let out: Vec<(String, JsonField)> = Vec::new();
                proof {
                    assert(member_views(out@) =~= Seq::<(Seq<char>, JsonValV)>::empty());
                }
                return Some(out);
            },
            _ => {},
        }
    }
    let ghost target = members_from(tv, 1);
    proof {
        assert(spec_json_object(s@) == target);
    }
    let mut out: Vec<(String, JsonField)> = Vec::new();
    let mut i: usize = 1;
    proof {
        if let Some(rest) = members_from(tv, i as int) {
            assert(member_views(out@) + rest =~= rest);
        }
    }
    loop
        invariant_except_break
            1 <= i <= toks.len(),
            tv == tok_views(toks@),
            target == members_from(tv, 1),
            spec_json_object(s@) == target,
            match members_from(tv, i as int) {
                Some(rest) => target == Some(member_views(out@) + rest),
                None => target is None,
            },
        ensures
            spec_json_object(s@) == Some(member_views(out@)),
        decreases toks.len() - i,
    {
        if toks.len() - i < 4 {
            proof {
                assert(members_from(tv, i as int) is None);
            }
            return None;
        }
        let k = match &toks[i] {
            JsonToken::Text(t) => t.clone(),
            _ => {
                proof {
                    assert(members_from(tv, i as int) is None);
                }
                return None;
            },
        };
        match &toks[i + 1] {
            JsonToken::Colon => {},
            _ => {
                proof {
                    assert(members_from(tv, i as int) is None);
                }
                return None;
            },
        }
        let v: JsonField = match &toks[i + 2] {
            JsonToken::Text(t) => JsonField::Text(t.clone()),
            JsonToken::Number(m) => JsonField::Number(*m),
            _ => {
                proof {
                    assert(members_from(tv, i as int) is None);
                }
                return None;
            },
        };
        let ghost old_out = out@;
        let ghost pair = (k@, v@);
        match &toks[i + 3] {
            JsonToken::Comma => {
                out.push((k, v));
                proof {
                    if let Some(rest) = members_from(tv, i as int + 4) {
                        assert(members_from(tv, i as int) == Some(seq![pair] + rest));
                        assert(member_views(out@) =~= member_views(old_out).push(pair));
                        assert(member_views(old_out) + (seq![pair] + rest) =~= member_views(
                            out@,
                        ) + rest);
                    }
                }
                i = i + 4;
            },
            JsonToken::RBrace => {
                if toks.len() - i == 4 {
                    out.push((k, v));
                    proof {
                        assert(members_from(tv, i as int) == Some(seq![pair]));
                        assert(member_views(out@) =~= member_views(old_out).push(pair));
                        assert(member_views(old_out) + seq![pair] =~= member_views(out@));
                    }
                    break;
                } else {
                    proof {
                        assert(members_from(tv, i as int) is None);
                    }
                    return None;
                }
            },
            _ => {
                proof {
                    assert(members_from(tv, i as int) is None);
                }
                return None;
            },
        }
    }
    Some(out)
}

/// The first member with the given key, when it is a string.
pub fn find_text(ms: &Vec<(String, JsonField)>, key: &str) -> (r: Option<String>)
    ensures
        match r {
            Some(t) => lookup_text(member_views(ms@), key@) == Some(t@),
            None => lookup_text(member_views(ms@), key@) is None,
        },
{
    let needle = key.to_owned();
    let mut i: usize = 0;
    proof {
        assert(member_views(ms@).subrange(0, ms@.len() as int) =~= member_views(ms@));
    }
    while i < ms.len()
        invariant
            i <= ms@.len(),
            needle@ == key@,
            lookup_member(member_views(ms@), key@) == lookup_member(
                member_views(ms@).subrange(i as int, ms@.len() as int),
                key@,
            ),
        decreases ms@.len() - i,
    {
        let ghost rest = member_views(ms@).subrange(i as int, ms@.len() as int);
        proof {
            assert(rest[0] == member_views(ms@)[i as int]);
            assert(rest.drop_first() =~= member_views(ms@).subrange(
                i as int + 1,
                ms@.len() as int,
            ));
        }
        if ms[i].0 == needle {
            match &ms[i].1 {
                JsonField::Text(t) => {
                    return Some(t.clone());
                },
                _ => {
                    return None;
                },
            }
        }
        i = i + 1;
    }
    proof {
        assert(member_views(ms@).subrange(ms@.len() as int, ms@.len() as int)
            =~= Seq::<(Seq<char>, JsonValV)>::empty());
    }
    None
}

/// The first member with the given key, when it is an integer.
pub fn find_number(ms: &Vec<(String, JsonField)>, key: &str) -> (r: Option<i64>)
    ensures
        match r {
            Some(n) => lookup_number(member_views(ms@), key@) == Some(n as int),
            None => lookup_number(member_views(ms@), key@) is None,
        },
{
    let needle = key.to_owned();
    let mut i: usize = 0;
    proof {
        assert(member_views(ms@).subrange(0, ms@.len() as int) =~= member_views(ms@));
    }
    while i < ms.len()
        invariant
            i <= ms@.len(),
            needle@ == key@,
            lookup_member(member_views(ms@), key@) == lookup_member(
                member_views(ms@).subrange(i as int, ms@.len() as int),
                key@,
            ),
        decreases ms@.len() - i,
    {
        let ghost rest = member_views(ms@).subrange(i as int, ms@.len() as int);
        proof {
            assert(rest[0] == member_views(ms@)[i as int]);
            assert(rest.drop_first() =~= member_views(ms@).subrange(
                i as int + 1,
                ms@.len() as int,
            ));
        }
        if ms[i].0 == needle {
            match &ms[i].1 {
                JsonField::Number(m) => {
                    return Some(*m);
                },
                _ => {
                    return None;
                },
            }
        }
        i = i + 1;
    }
    proof {
        assert(member_views(ms@).subrange(ms@.len() as int, ms@.len() as int)
            =~= Seq::<(Seq<char>, JsonValV)>::empty());
    }
    None
}

} // verus!
