//! Query strings: building `k1=v1&k2=v2` texts from pairs and parsing them
//! back.  Keys and values are form-urlencoded, so a parsed query recovers the
//! input pairs exactly; [`lemma_query_round_trip`] proves that law.

use vstd::prelude::*;

verus! {

use crate::urlencode::{
    encoded_str, encoded_bytes, encoded_byte, decoded_str, is_unreserved_byte, form_encode,
    form_decode_str_range, lemma_decode_encode_str,
};
use crate::strutil::{chars_of, hex_char_of, is_hex_digit};
use vstd::string::StringExecFns;

// ---------------------------------------------------------------------------
// Splitting text at a separator
// ---------------------------------------------------------------------------

/// Index of the first occurrence of `sep`, or the length when absent.
pub open spec fn first_index(s: Seq<char>, sep: char) -> int
    decreases s.len(),
{
    if s.len() == 0 {
        0
    } else if s[0] == sep {
        0
    } else {
        1 + first_index(s.drop_first(), sep)
    }
}

pub proof fn lemma_first_index(s: Seq<char>, sep: char)
    ensures
        0 <= first_index(s, sep) <= s.len(),
        first_index(s, sep) < s.len() ==> s[first_index(s, sep)] == sep,
        forall|j: int| 0 <= j < first_index(s, sep) ==> s[j] != sep,
    decreases s.len(),
{
    if s.len() == 0 {
    } else if s[0] == sep {
    } else {
        lemma_first_index(s.drop_first(), sep);
        let fi = first_index(s, sep);
        assert forall|j: int| 0 <= j < fi implies s[j] != sep by {
            if j > 0 {
                assert(s[j] == s.drop_first()[j - 1]);
            }
        }
    }
}

/// `first_index` is the unique position carrying the separator first.
pub proof fn lemma_first_index_is(s: Seq<char>, sep: char, k: int)
    requires
        0 <= k < s.len(),
        s[k] == sep,
        forall|j: int| 0 <= j < k ==> s[j] != sep,
    ensures
        first_index(s, sep) == k,
{
    lemma_first_index(s, sep);
}

pub proof fn lemma_first_index_absent(s: Seq<char>, sep: char)
    requires
        forall|j: int| 0 <= j < s.len() ==> s[j] != sep,
    ensures
        first_index(s, sep) == s.len(),
{
    lemma_first_index(s, sep);
}

/// The parts of a non-empty text, split at every separator.
pub open spec fn split_ne(s: Seq<char>, sep: char) -> Seq<Seq<char>>
    decreases s.len(),
    via split_ne_dec
{
    let i = first_index(s, sep);
    if i == s.len() {
        seq![s]
    } else {
        seq![s.subrange(0, i)] + split_ne(s.subrange(i + 1, s.len() as int), sep)
    }
}

#[via_fn]
proof fn split_ne_dec(s: Seq<char>, sep: char) {
    lemma_first_index(s, sep);
}

/// The parts of a text, split at every separator; an empty text has none.
pub open spec fn split_parts(s: Seq<char>, sep: char) -> Seq<Seq<char>> {
    if s.len() == 0 {
        seq![]
    } else {
        split_ne(s, sep)
    }
}

/// First position `>= start` holding `sep`, or the length when none does.
pub(crate) fn find_from(cs: &Vec<char>, start: usize, sep: char) -> (r: usize)
    requires
        start <= cs@.len(),
    ensures
        start <= r <= cs@.len(),
        r - start == first_index(cs@.subrange(start as int, cs@.len() as int), sep),
{
    let n = cs.len();
    let mut j = start;
    while j < n
        invariant
            start <= j <= n,
            n == cs@.len(),
            forall|t: int| start <= t < j ==> cs@[t] != sep,
        decreases n - j,
    {
        if cs[j] == sep {
            proof {
                let sub = cs@.subrange(start as int, n as int);
                assert(sub[j - start] == sep);
                assert forall|t: int| 0 <= t < j - start implies sub[t] != sep by {
                    assert(sub[t] == cs@[start + t]);
                }
                lemma_first_index_is(sub, sep, j - start);
            }
            return j;
        }
        j = j + 1;
    }
    proof {
        let sub = cs@.subrange(start as int, n as int);
        assert forall|t: int| 0 <= t < sub.len() implies sub[t] != sep by {
            assert(sub[t] == cs@[start + t]);
        }
        lemma_first_index_absent(sub, sep);
    }
    n
}

/// Copies `cs[from..to]` out as a new vector.
pub(crate) fn subvec(cs: &Vec<char>, from: usize, to: usize) -> (r: Vec<char>)
    requires
        from <= to <= cs@.len(),
    ensures
        r@ == cs@.subrange(from as int, to as int),
{
    let mut r: Vec<char> = Vec::new();
    let mut i = from;
    while i < to
        invariant
            from <= i <= to <= cs@.len(),
            r@ == cs@.subrange(from as int, i as int),
        decreases to - i,
    {
        r.push(cs[i]);
        i = i + 1;
        proof {
            assert(r@ =~= cs@.subrange(from as int, i as int));
        }
    }
    r
}

/// The views of a sequence of character vectors.
pub open spec fn part_views(ps: Seq<Vec<char>>) -> Seq<Seq<char>> {
    Seq::new(ps.len(), |i: int| ps[i]@)
}

/// Splits the characters at every separator.
fn split_chars(cs: &Vec<char>, sep: char) -> (r: Vec<Vec<char>>)
    requires
        cs@.len() > 0,
    ensures
        part_views(r@) == split_ne(cs@, sep),
{
    let n = cs.len();
    let mut parts: Vec<Vec<char>> = Vec::new();
    let mut start: usize = 0;
    proof {
        assert(part_views(parts@) =~= Seq::<Seq<char>>::empty());
        assert(cs@.subrange(0, n as int) =~= cs@);
        assert(split_ne(cs@, sep) =~= part_views(parts@) + split_ne(
            cs@.subrange(0, n as int),
            sep,
        ));
    }
    loop
        invariant_except_break
            start <= n,
            n == cs@.len(),
            split_ne(cs@, sep) == part_views(parts@) + split_ne(
                cs@.subrange(start as int, n as int),
                sep,
            ),
        ensures
            part_views(parts@) == split_ne(cs@, sep),
        decreases n - start,
    {
        let e = find_from(cs, start, sep);
        let part = subvec(cs, start, e);
        let ghost rem = cs@.subrange(start as int, n as int);
        let ghost fi = first_index(rem, sep);
        proof {
            lemma_first_index(rem, sep);
            assert(fi == e - start);
            assert(rem.subrange(0, fi) =~= cs@.subrange(start as int, e as int));
        }
        parts.push(part);
        if e == n {
            proof {
                assert(rem.subrange(0, fi) =~= rem);
                assert(split_ne(rem, sep) =~= seq![rem]);
                assert(part_views(parts@) =~= part_views(parts@.drop_last()) + seq![rem]);
                assert(part_views(parts@) =~= split_ne(cs@, sep));
            }
            break;
        }
        proof {
            assert(rem.subrange(fi + 1, rem.len() as int) =~= cs@.subrange(
                e as int + 1,
                n as int,
            ));
            assert(split_ne(rem, sep) =~= seq![cs@.subrange(start as int, e as int)] + split_ne(
                cs@.subrange(e as int + 1, n as int),
                sep,
            ));
            assert(part_views(parts@) =~= part_views(parts@.drop_last()) + seq![
                cs@.subrange(start as int, e as int)]);
            assert(split_ne(cs@, sep) =~= part_views(parts@) + split_ne(
                cs@.subrange(e as int + 1, n as int),
                sep,
            ));
        }
        start = e + 1;
    }
    parts
}

// ---------------------------------------------------------------------------
// Building a query
// ---------------------------------------------------------------------------

/// One encoded pair: `key=value`.
pub open spec fn encoded_pair(k: Seq<char>, v: Seq<char>) -> Seq<char> {
    encoded_str(k) + seq!['='] + encoded_str(v)
}

/// The encoded query for a list of pairs, joined with `&`.
pub open spec fn encoded_query(pairs: Seq<(Seq<char>, Seq<char>)>) -> Seq<char>
    decreases pairs.len(),
{
    if pairs.len() == 0 {
        seq![]
    } else if pairs.len() == 1 {
        encoded_pair(pairs[0].0, pairs[0].1)
    } else {
        encoded_pair(pairs[0].0, pairs[0].1) + seq!['&'] + encoded_query(pairs.drop_first())
    }
}

/// The views of a list of string pairs.
pub open spec fn pair_views(ps: Seq<(String, String)>) -> Seq<(Seq<char>, Seq<char>)> {
    Seq::new(ps.len(), |i: int| (ps[i].0@, ps[i].1@))
}

proof fn lemma_encoded_query_snoc(ps: Seq<(Seq<char>, Seq<char>)>, p: (Seq<char>, Seq<char>))
    ensures
        encoded_query(ps.push(p)) == if ps.len() == 0 {
            encoded_pair(p.0, p.1)
        } else {
            encoded_query(ps) + seq!['&'] + encoded_pair(p.0, p.1)
        },
    decreases ps.len(),
{
    if ps.len() == 0 {
        assert(ps.push(p)[0] == p);
    } else {
        assert(ps.push(p).drop_first() =~= ps.drop_first().push(p));
        lemma_encoded_query_snoc(ps.drop_first(), p);
        assert(ps.push(p)[0] == ps[0]);
        if ps.len() == 1 {
            assert(encoded_query(ps.push(p)) =~= encoded_query(ps) + seq!['&'] + encoded_pair(
                p.0,
                p.1,
            ));
        } else {
            assert(encoded_query(ps.push(p)) =~= encoded_query(ps) + seq!['&'] + encoded_pair(
                p.0,
                p.1,
            ));
        }
    }
}

/// Builds the encoded query text for the given pairs.
pub fn build_query(pairs: &Vec<(String, String)>) -> (r: String)
    ensures
        r@ == encoded_query(pair_views(pairs@)),
{
    let mut out = String::new();
    let mut i: usize = 0;
    while i < pairs.len()
        invariant
            i <= pairs@.len(),
            out@ == encoded_query(pair_views(pairs@).subrange(0, i as int)),
        decreases pairs@.len() - i,
    {
        if i > 0 {
            out.append("&");
            proof {
                reveal_strlit("&");
            }
        }
        let ek = form_encode(pairs[i].0.as_str());
        out.append(ek.as_str());
        out.append("=");
        proof {
            reveal_strlit("=");
        }
        let ev = form_encode(pairs[i].1.as_str());
        out.append(ev.as_str());
        proof {
            let ghost prefix = pair_views(pairs@).subrange(0, i as int);
            let ghost pv = pair_views(pairs@)[i as int];
            lemma_encoded_query_snoc(prefix, pv);
            assert(pair_views(pairs@).subrange(0, i as int + 1) =~= prefix.push(pv));
            if i == 0 {
                assert(out@ =~= encoded_pair(pv.0, pv.1));
            } else {
                assert(out@ =~= encoded_query(prefix) + seq!['&'] + encoded_pair(pv.0, pv.1));
            }
        }
        i = i + 1;
    }
    proof {
        assert(pair_views(pairs@).subrange(0, pairs@.len() as int) =~= pair_views(pairs@));
    }
    out
}

// ---------------------------------------------------------------------------
// Parsing a query
// ---------------------------------------------------------------------------

/// Parses one `key=value` part; a part with no `=` is a key with an empty
/// value.
pub open spec fn parse_part(p: Seq<char>) -> Option<(Seq<char>, Seq<char>)> {
    let i = first_index(p, '=');
    let ktext = p.subrange(0, i);
    let vtext = if i == p.len() {
        Seq::<char>::empty()
    } else {
        p.subrange(i + 1, p.len() as int)
    };
    match (decoded_str(ktext), decoded_str(vtext)) {
        (Some(k), Some(v)) => Some((k, v)),
        _ => None,
    }
}

pub open spec fn parse_parts(parts: Seq<Seq<char>>) -> Option<Seq<(Seq<char>, Seq<char>)>>
    decreases parts.len(),
{
    if parts.len() == 0 {
        Some(seq![])
    } else {
        match (parse_part(parts[0]), parse_parts(parts.drop_first())) {
            (Some(p), Some(rest)) => Some(seq![p] + rest),
            _ => None,
        }
    }
}

/// The pairs of a query text, decoded; `None` when any part is undecodable.
pub open spec fn parsed_query(q: Seq<char>) -> Option<Seq<(Seq<char>, Seq<char>)>> {
    parse_parts(split_parts(q, '&'))
}

proof fn lemma_parse_parts_snoc(parts: Seq<Seq<char>>, p: Seq<char>)
    ensures
        parse_parts(parts.push(p)) == match (parse_parts(parts), parse_part(p)) {
            (Some(rest), Some(pr)) => Some(rest.push(pr)),
            _ => None::<Seq<(Seq<char>, Seq<char>)>>,
        },
    decreases parts.len(),
{
    if parts.len() == 0 {
        assert(parts.push(p)[0] == p);
        assert(parts.push(p).drop_first() =~= Seq::<Seq<char>>::empty());
        assert(parse_parts(parts) == Some(Seq::<(Seq<char>, Seq<char>)>::empty()));
        reveal_with_fuel(parse_parts, 2);
        match parse_part(p) {
            Some(pr) => {
                assert(parse_parts(parts.push(p)) == Some(
                    seq![pr] + Seq::<(Seq<char>, Seq<char>)>::empty(),
                ));
                assert(seq![pr] + Seq::<(Seq<char>, Seq<char>)>::empty() =~= Seq::<(
                    Seq<char>,
                    Seq<char>,
                )>::empty().push(pr));
            },
            None => {
                assert(parse_parts(parts.push(p)) is None);
            },
        }
    } else {
        assert(parts.push(p)[0] == parts[0]);
        assert(parts.push(p).drop_first() =~= parts.drop_first().push(p));
        lemma_parse_parts_snoc(parts.drop_first(), p);
        match (parse_part(parts[0]), parse_parts(parts.drop_first()), parse_part(p)) {
            (Some(p0), Some(rest), Some(pr)) => {
                assert(parse_parts(parts.drop_first().push(p)) == Some(rest.push(pr)));
                assert(parse_parts(parts.push(p)) == Some(seq![p0] + rest.push(pr)));
                assert(parse_parts(parts) == Some(seq![p0] + rest));
                assert(seq![p0] + rest.push(pr) =~= (seq![p0] + rest).push(pr));
            },
            (Some(p0), Some(rest), None) => {
                assert(parse_parts(parts.drop_first().push(p)) is None);
                assert(parse_parts(parts.push(p)) is None);
            },
            (Some(p0), None, _) => {
                assert(parse_parts(parts.drop_first().push(p)) is None);
                assert(parse_parts(parts.push(p)) is None);
                assert(parse_parts(parts) is None);
            },
            (None, _, _) => {
                assert(parse_parts(parts.push(p)) is None);
                assert(parse_parts(parts) is None);
            },
        }
    }
}

/// Parses a query text into its decoded pairs.
pub fn parse_query(s: &str) -> (r: Option<Vec<(String, String)>>)
    ensures
        match r {
            Some(ps) => parsed_query(s@) == Some(pair_views(ps@)),
            None => parsed_query(s@) is None,
        },
{
    let cs = chars_of(s);
    parse_query_chars(&cs)
}

/// Parses a query given as characters.
pub fn parse_query_chars(cs: &Vec<char>) -> (r: Option<Vec<(String, String)>>)
    ensures
        match r {
            Some(ps) => parsed_query(cs@) == Some(pair_views(ps@)),
            None => parsed_query(cs@) is None,
        },
{
    if cs.len() == 0 {
        let out: Vec<(String, String)> = Vec::new();
        proof {
            assert(pair_views(out@) =~= Seq::<(Seq<char>, Seq<char>)>::empty());
            assert(parsed_query(cs@) == Some(Seq::<(Seq<char>, Seq<char>)>::empty()));
        }
        return Some(out);
    }
    let parts = split_chars(cs, '&');
    let mut out: Vec<(String, String)> = Vec::new();
    let mut i: usize = 0;
    while i < parts.len()
        invariant
            i <= parts@.len(),
            part_views(parts@) == split_ne(cs@, '&'),
            cs@.len() > 0,
            parse_parts(part_views(parts@).subrange(0, i as int)) == Some(pair_views(out@)),
        decreases parts@.len() - i,
    {
        let p = &parts[i];
        let e = find_from(p, 0, '=');
        let ghost pv = p@;
        proof {
            assert(p@.subrange(0, p@.len() as int) =~= p@);
            lemma_first_index(p@, '=');
        }
        let k = match form_decode_str_range(p, 0, e) {
            Some(k) => k,
            None => {
                proof {
                    assert(pv.subrange(0, first_index(pv, '=')) =~= pv.subrange(0, e as int));
                    assert(parse_part(pv) is None);
                    lemma_parse_parts_prefix_none(part_views(parts@), i as int);
                }
                return None;
            },
        };
        let v = if e == p.len() {
            let ghost empty_text = Seq::<char>::empty();
            proof {
                assert(decoded_str(empty_text) == Some(Seq::<char>::empty())) by {
                    crate::urlencode::lemma_decoded_empty();
                }
            }
            String::new()
        } else {
            match form_decode_str_range(p, e + 1, p.len()) {
                Some(v) => v,
                None => {
                    proof {
                        assert(pv.subrange(first_index(pv, '=') + 1, pv.len() as int)
                            =~= pv.subrange(e as int + 1, pv.len() as int));
                        assert(parse_part(pv) is None);
                        lemma_parse_parts_prefix_none(part_views(parts@), i as int);
                    }
                    return None;
                },
            }
        };
        proof {
            assert(pv.subrange(0, first_index(pv, '=')) =~= pv.subrange(0, e as int));
            if e < p@.len() {
                assert(pv.subrange(first_index(pv, '=') + 1, pv.len() as int) =~= pv.subrange(
                    e as int + 1,
                    pv.len() as int,
                ));
            }
            assert(parse_part(pv) == Some((k@, v@)));
        }
        out.push((k, v));
        proof {
            lemma_parse_parts_snoc(
                part_views(parts@).subrange(0, i as int),
                part_views(parts@)[i as int],
            );
            assert(part_views(parts@).subrange(0, i as int + 1) =~= part_views(
                parts@,
            ).subrange(0, i as int).push(part_views(parts@)[i as int]));
            assert(pair_views(out@) =~= pair_views(out@.drop_last()).push((
                out@.last().0@,
                out@.last().1@,
            )));
        }
        i = i + 1;
    }
    proof {
        assert(part_views(parts@).subrange(0, parts@.len() as int) =~= part_views(parts@));
    }
    Some(out)
}

/// If one part fails to parse, the whole list fails.
proof fn lemma_parse_parts_prefix_none(parts: Seq<Seq<char>>, i: int)
    requires
        0 <= i < parts.len(),
        parse_part(parts[i]) is None,
    ensures
        parse_parts(parts) is None,
    decreases parts.len(),
{
    if i == 0 {
    } else {
        lemma_parse_parts_prefix_none(parts.drop_first(), i - 1);
    }
}

// ---------------------------------------------------------------------------
// Round trip
// ---------------------------------------------------------------------------

/// No character of an encoded text is a separator (`&`, `=`).
proof fn lemma_encoded_no_meta(bs: Seq<u8>)
    ensures
        forall|j: int|
            0 <= j < encoded_bytes(bs).len() ==> encoded_bytes(bs)[j] != '&' && encoded_bytes(
                bs,
            )[j] != '=',
    decreases bs.len(),
{
    if bs.len() == 0 {
    } else {
        let b = bs[0];
        lemma_encoded_no_meta(bs.drop_first());
        assert forall|j: int| 0 <= j < encoded_byte(b).len() implies encoded_byte(b)[j] != '&'
            && encoded_byte(b)[j] != '=' by {
            if is_unreserved_byte(b) {
                let c = b as char;
                assert(c as u32 == b as u32);
                assert('&' as u32 == 0x26 && '=' as u32 == 0x3d);
                assert(b != 0x26 && b != 0x3d);
            } else if b == 0x20 {
            } else {
                assert(encoded_byte(b)[0] == '%');
                assert(encoded_byte(b)[1] == hex_char_of(b as int / 16));
                assert(encoded_byte(b)[2] == hex_char_of(b as int % 16));
            }
        }
        assert forall|j: int| 0 <= j < encoded_bytes(bs).len() implies encoded_bytes(bs)[j] != '&'
            && encoded_bytes(bs)[j] != '=' by {
            if j < encoded_byte(b).len() {
                assert(encoded_bytes(bs)[j] == encoded_byte(b)[j]);
            } else {
                assert(encoded_bytes(bs)[j] == encoded_bytes(bs.drop_first())[j - encoded_byte(
                    b,
                ).len()]);
            }
        }
    }
}

/// One encoded pair parses back to its two values.
proof fn lemma_parse_encoded_pair(k: Seq<char>, v: Seq<char>)
    ensures
        parse_part(encoded_pair(k, v)) == Some((k, v)),
{
    let p = encoded_pair(k, v);
    let ek = encoded_str(k);
    let ev = encoded_str(v);
    lemma_encoded_no_meta(vstd::utf8::encode_utf8(k));
    lemma_encoded_no_meta(vstd::utf8::encode_utf8(v));
    assert(p[ek.len() as int] == '=');
    assert forall|j: int| 0 <= j < ek.len() implies p[j] != '=' by {
        assert(p[j] == ek[j]);
    }
    lemma_first_index_is(p, '=', ek.len() as int);
    assert(p.subrange(0, ek.len() as int) =~= ek);
    assert(p.subrange(ek.len() as int + 1, p.len() as int) =~= ev);
    lemma_decode_encode_str(k);
    lemma_decode_encode_str(v);
}

/// The encoded query splits back into the encoded pairs.
proof fn lemma_split_encoded_query(pairs: Seq<(Seq<char>, Seq<char>)>)
    requires
        pairs.len() >= 1,
    ensures
        split_ne(encoded_query(pairs), '&') == Seq::new(
            pairs.len(),
            |i: int| encoded_pair(pairs[i].0, pairs[i].1),
        ),
    decreases pairs.len(),
{
    let q = encoded_query(pairs);
    let ep = encoded_pair(pairs[0].0, pairs[0].1);
    lemma_encoded_no_meta(vstd::utf8::encode_utf8(pairs[0].0));
    lemma_encoded_no_meta(vstd::utf8::encode_utf8(pairs[0].1));
    if pairs.len() == 1 {
        assert forall|j: int| 0 <= j < q.len() implies q[j] != '&' by {
            if j < encoded_str(pairs[0].0).len() {
                assert(q[j] == encoded_str(pairs[0].0)[j]);
            } else if j == encoded_str(pairs[0].0).len() {
                assert(q[j] == '=');
            } else {
                assert(q[j] == encoded_str(pairs[0].1)[j - encoded_str(pairs[0].0).len() - 1]);
            }
        }
        lemma_first_index_absent(q, '&');
        assert(split_ne(q, '&') =~= seq![q]);
        assert(split_ne(q, '&') =~= Seq::new(
            pairs.len(),
            |i: int| encoded_pair(pairs[i].0, pairs[i].1),
        ));
    } else {
        let rest = encoded_query(pairs.drop_first());
        assert(q == ep + seq!['&'] + rest);
        assert(q[ep.len() as int] == '&');
        assert forall|j: int| 0 <= j < ep.len() implies q[j] != '&' by {
            assert(q[j] == ep[j]);
            if j < encoded_str(pairs[0].0).len() {
                assert(ep[j] == encoded_str(pairs[0].0)[j]);
            } else if j == encoded_str(pairs[0].0).len() {
                assert(ep[j] == '=');
            } else {
                assert(ep[j] == encoded_str(pairs[0].1)[j - encoded_str(pairs[0].0).len() - 1]);
            }
        }
        lemma_first_index_is(q, '&', ep.len() as int);
        assert(q.subrange(0, ep.len() as int) =~= ep);
        assert(q.subrange(ep.len() as int + 1, q.len() as int) =~= rest);
        lemma_split_encoded_query(pairs.drop_first());
        assert(split_ne(q, '&') =~= seq![ep] + split_ne(rest, '&'));
        assert(split_ne(q, '&') =~= Seq::new(
            pairs.len(),
            |i: int| encoded_pair(pairs[i].0, pairs[i].1),
        ));
    }
}

proof fn lemma_parse_parts_of_pairs(pairs: Seq<(Seq<char>, Seq<char>)>)
    ensures
        parse_parts(Seq::new(pairs.len(), |i: int| encoded_pair(pairs[i].0, pairs[i].1)))
            == Some(pairs),
    decreases pairs.len(),
{
    let parts = Seq::new(pairs.len(), |i: int| encoded_pair(pairs[i].0, pairs[i].1));
    if pairs.len() == 0 {
        assert(parts.len() == 0);
        assert(pairs =~= Seq::<(Seq<char>, Seq<char>)>::empty());
    } else {
        lemma_parse_encoded_pair(pairs[0].0, pairs[0].1);
        lemma_parse_parts_of_pairs(pairs.drop_first());
        assert(parts.drop_first() =~= Seq::new(
            pairs.drop_first().len(),
            |i: int| encoded_pair(pairs.drop_first()[i].0, pairs.drop_first()[i].1),
        ));
        assert(seq![(pairs[0].0, pairs[0].1)] + pairs.drop_first() =~= pairs);
    }
}

/// The query round trip: parsing the built query recovers every pair exactly.
pub proof fn lemma_query_round_trip(pairs: Seq<(Seq<char>, Seq<char>)>)
    ensures
        parsed_query(encoded_query(pairs)) == Some(pairs),
{
    let q = encoded_query(pairs);
    if pairs.len() == 0 {
        assert(q.len() == 0);
        assert(pairs =~= Seq::<(Seq<char>, Seq<char>)>::empty());
    } else {
        assert(q.len() > 0) by {
            if pairs.len() == 1 {
                assert(q.len() == encoded_pair(pairs[0].0, pairs[0].1).len());
            }
        }
        lemma_split_encoded_query(pairs);
        lemma_parse_parts_of_pairs(pairs);
    }
}

} // verus!
