//! Resource identifiers: a bare id, a `spotify:<type>:<id>` URI, or an
//! `https://open.spotify.com/<type>/<id>` URL, each carrying an alphanumeric
//! id of bounded length.  The accepted shapes are spelled out as spec
//! functions and the readers are verified against them.

use vstd::prelude::*;

verus! {

use core::marker::PhantomData;
use vstd::string::{StrSliceExecFns, StringExecFns};
use crate::strutil::{chars_of, is_alnum_char, alnum_char, string_of};
use crate::query::{first_index, find_from, subvec};
use crate::error::SfsError;

// ---------------------------------------------------------------------------
// The accepted shapes
// ---------------------------------------------------------------------------

/// An id run: only letters and digits, with a length in the given range.
pub open spec fn is_id_run(s: Seq<char>, lo: int, hi: int) -> bool {
    lo <= s.len() <= hi && forall|i: int| 0 <= i < s.len() ==> is_alnum_char(s[i])
}

pub open spec fn is_resource_word(w: Seq<char>) -> bool {
    w == "track"@ || w == "playlist"@ || w == "user"@
}

/// The id inside `spotify:<type>:<id>`, when the text has exactly that shape.
pub open spec fn spec_uri_id(s: Seq<char>, lo: int, hi: int) -> Option<Seq<char>> {
    if s.len() >= 8 && s.subrange(0, 8) == "spotify:"@ {
        let rest = s.subrange(8, s.len() as int);
        let ci = first_index(rest, ':');
        if ci < rest.len() && is_resource_word(rest.subrange(0, ci)) && is_id_run(
            rest.subrange(ci + 1, rest.len() as int),
            lo,
            hi,
        ) {
            Some(rest.subrange(ci + 1, rest.len() as int))
        } else {
            None
        }
    } else {
        None
    }
}

/// The id inside `https://open.spotify.com/<type>/<id>`, allowing a trailing
/// `?si=` share tag.
pub open spec fn spec_url_id(s: Seq<char>, lo: int, hi: int) -> Option<Seq<char>> {
    if s.len() >= 25 && s.subrange(0, 25) == "https://open.spotify.com/"@ {
        let rest = s.subrange(25, s.len() as int);
        let si = first_index(rest, '/');
        if si < rest.len() && is_resource_word(rest.subrange(0, si)) {
            let after = rest.subrange(si + 1, rest.len() as int);
            let qi = first_index(after, '?');
            let id = after.subrange(0, qi);
            if is_id_run(id, lo, hi) {
                if qi == after.len() {
                    Some(id)
                } else {
                    let tail = after.subrange(qi, after.len() as int);
                    if tail.len() >= 5 && tail.subrange(0, 4) == "?si="@ && (forall|i: int|
                        4 <= i < tail.len() ==> is_alnum_char(tail[i])) {
                        Some(id)
                    } else {
                        None
                    }
                }
            } else {
                None
            }
        } else {
            None
        }
    } else {
        None
    }
}

/// The id of a text in any accepted shape.
pub open spec fn spec_resource_id(s: Seq<char>, lo: int, hi: int) -> Option<Seq<char>> {
    if is_id_run(s, lo, hi) {
        Some(s)
    } else if spec_uri_id(s, lo, hi) is Some {
        spec_uri_id(s, lo, hi)
    } else {
        spec_url_id(s, lo, hi)
    }
}

// ---------------------------------------------------------------------------
// Executable readers
// ---------------------------------------------------------------------------

/// Are all of `cs[from..to]` letters or digits?
pub(crate) fn alnum_range(cs: &Vec<char>, from: usize, to: usize) -> (r: bool)
    requires
        from <= to <= cs@.len(),
    ensures
        r == (forall|i: int| from <= i < to ==> is_alnum_char(cs@[i])),
{
    let mut k = from;
    while k < to
        invariant
            from <= k <= to <= cs@.len(),
            forall|i: int| from <= i < k ==> is_alnum_char(cs@[i]),
        decreases to - k,
    {
        if !alnum_char(cs[k]) {
            return false;
        }
        k = k + 1;
    }
    true
}

pub(crate) fn id_run_range(cs: &Vec<char>, from: usize, to: usize, lo: usize, hi: usize) -> (r:
    bool)
    requires
        from <= to <= cs@.len(),
    ensures
        r == is_id_run(cs@.subrange(from as int, to as int), lo as int, hi as int),
{
    let ghost sub = cs@.subrange(from as int, to as int);
    let len = to - from;
    if len < lo || len > hi {
        return false;
    }
    let ok = alnum_range(cs, from, to);
    proof {
        assert forall|i: int| 0 <= i < sub.len() implies sub[i] == cs@[from + i] by {}
        if ok {
            assert forall|i: int| 0 <= i < sub.len() implies is_alnum_char(sub[i]) by {
                assert(sub[i] == cs@[from + i]);
            }
        } else {
            let w = choose|i: int| from <= i < to && !is_alnum_char(cs@[i]);
            assert(sub[w - from] == cs@[w]);
        }
    }
    ok
}

/// Does `cs[from..to]` spell exactly the given literal?
pub(crate) fn range_equals_str(cs: &Vec<char>, from: usize, to: usize, lit: &str) -> (r: bool)
    requires
        from <= to <= cs@.len(),
    ensures
        r == (cs@.subrange(from as int, to as int) == lit@),
{
    let ghost sub = cs@.subrange(from as int, to as int);
    let lv = chars_of(lit);
    if to - from != lv.len() {
        return false;
    }
    let mut k: usize = 0;
    while k < lv.len()
        invariant
            k <= lv@.len(),
            lv@ == lit@,
            from + lv@.len() == to,
            to <= cs@.len(),
            sub == cs@.subrange(from as int, to as int),
            forall|j: int| 0 <= j < k ==> cs@[from + j] == lv@[j],
        decreases lv@.len() - k,
    {
        if cs[from + k] != lv[k] {
            proof {
                if sub == lit@ {
                    assert(sub[k as int] == cs@[from + k]);
                }
            }
            return false;
        }
        k = k + 1;
    }
    proof {
        assert(sub =~= lv@);
    }
    true
}

fn resource_word_range(cs: &Vec<char>, from: usize, to: usize) -> (r: bool)
    requires
        from <= to <= cs@.len(),
    ensures
        r == is_resource_word(cs@.subrange(from as int, to as int)),
{
    range_equals_str(cs, from, to, "track") || range_equals_str(cs, from, to, "playlist")
        || range_equals_str(cs, from, to, "user")
}

/// Finds the id range of a URI-shaped text.
pub(crate) fn uri_id_range(cs: &Vec<char>, lo: usize, hi: usize) -> (r: Option<(usize, usize)>)
    ensures
        match r {
            Some(p) => p.0 <= p.1 <= cs@.len() && spec_uri_id(cs@, lo as int, hi as int) == Some(
                cs@.subrange(p.0 as int, p.1 as int),
            ),
            None => spec_uri_id(cs@, lo as int, hi as int) is None,
        },
{
    let n = cs.len();
    if n < 8 {
        return None;
    }
    if !range_equals_str(cs, 0, 8, "spotify:") {
        return None;
    }
    let ghost rest = cs@.subrange(8, n as int);
    let ci_abs = find_from(cs, 8, ':');
    proof {
        assert(rest =~= cs@.subrange(8, cs@.len() as int));
        assert(first_index(rest, ':') == ci_abs - 8);
    }
    if ci_abs == n {
        return None;
    }
    let ghost ci = ci_abs - 8;
    proof {
        assert(rest.subrange(0, ci) =~= cs@.subrange(8, ci_abs as int));
        assert(rest.subrange(ci + 1, rest.len() as int) =~= cs@.subrange(
            ci_abs as int + 1,
            n as int,
        ));
    }
    if !resource_word_range(cs, 8, ci_abs) {
        return None;
    }
    if !id_run_range(cs, ci_abs + 1, n, lo, hi) {
        return None;
    }
    Some((ci_abs + 1, n))
}

/// Finds the id range of a URL-shaped text.
pub(crate) fn url_id_range(cs: &Vec<char>, lo: usize, hi: usize) -> (r: Option<(usize, usize)>)
    ensures
        match r {
            Some(p) => p.0 <= p.1 <= cs@.len() && spec_url_id(cs@, lo as int, hi as int) == Some(
                cs@.subrange(p.0 as int, p.1 as int),
            ),
            None => spec_url_id(cs@, lo as int, hi as int) is None,
        },
{
    let n = cs.len();
    if n < 25 {
        return None;
    }
    if !range_equals_str(cs, 0, 25, "https://open.spotify.com/") {
        return None;
    }
    let ghost rest = cs@.subrange(25, n as int);
    let si_abs = find_from(cs, 25, '/');
    proof {
        assert(rest =~= cs@.subrange(25, cs@.len() as int));
        assert(first_index(rest, '/') == si_abs - 25);
    }
    if si_abs == n {
        return None;
    }
    let ghost si = si_abs - 25;
    proof {
        assert(rest.subrange(0, si) =~= cs@.subrange(25, si_abs as int));
    }
    if !resource_word_range(cs, 25, si_abs) {
        return None;
    }
    let ghost after = rest.subrange(si + 1, rest.len() as int);
    let qi_abs = find_from(cs, si_abs + 1, '?');
    proof {
        assert(after =~= cs@.subrange(si_abs as int + 1, n as int));
        assert(after.subrange(0, first_index(after, '?')) =~= cs@.subrange(
            si_abs as int + 1,
            qi_abs as int,
        ));
        assert(first_index(after, '?') == qi_abs - (si_abs + 1));
    }
    if !id_run_range(cs, si_abs + 1, qi_abs, lo, hi) {
        return None;
    }
    if qi_abs == n {
        return Some((si_abs + 1, qi_abs));
    }
    let ghost tail = after.subrange(qi_abs - (si_abs + 1), after.len() as int);
    proof {
        assert(tail =~= cs@.subrange(qi_abs as int, n as int));
    }
    if n - qi_abs < 5 {
        return None;
    }
    proof {
        assert(tail.subrange(0, 4) =~= cs@.subrange(qi_abs as int, qi_abs as int + 4));
    }
    if !range_equals_str(cs, qi_abs, qi_abs + 4, "?si=") {
        return None;
    }
    let tag_ok = alnum_range(cs, qi_abs + 4, n);
    proof {
        assert forall|i: int| 4 <= i < tail.len() implies tail[i] == cs@[qi_abs + i] by {}
        if tag_ok {
            assert forall|i: int| 4 <= i < tail.len() implies is_alnum_char(tail[i]) by {
                assert(tail[i] == cs@[qi_abs + i]);
            }
        } else {
            let w = choose|i: int| qi_abs + 4 <= i < n && !is_alnum_char(cs@[i]);
            assert(tail[w - qi_abs] == cs@[w]);
        }
    }
    if !tag_ok {
        return None;
    }
    Some((si_abs + 1, qi_abs))
}

// ---------------------------------------------------------------------------
// Resource kinds and identifiers
// ---------------------------------------------------------------------------

/// A resource kind, with the word it uses in URIs and URLs.
pub trait ResourceTypes {
    spec fn spec_name() -> Seq<char>;

    fn name() -> (r: &'static str)
        ensures
            r@ == Self::spec_name(),
    ;
}

#[derive(Debug)]
pub struct Track;

impl ResourceTypes for Track {
    open spec fn spec_name() -> Seq<char> {
        "track"@
    }

    fn name() -> (r: &'static str) {
        "track"
    }
}

#[derive(Debug)]
pub struct Playlist;

impl ResourceTypes for Playlist {
    open spec fn spec_name() -> Seq<char> {
        "playlist"@
    }

    fn name() -> (r: &'static str) {
        "playlist"
    }
}

#[derive(Debug)]
pub struct User;

impl ResourceTypes for User {
    open spec fn spec_name() -> Seq<char> {
        "user"@
    }

    fn name() -> (r: &'static str) {
        "user"
    }
}

/// An identifier of one resource kind, holding the bare id.
#[derive(Debug)]
pub struct GenericResourceIdentifier<R: ResourceTypes> {
    pub id: String,
    pub resource_type: PhantomData<R>,
}

pub type UserID = GenericResourceIdentifier<User>;

pub type PlaylistID = GenericResourceIdentifier<Playlist>;

pub type TrackID = GenericResourceIdentifier<Track>;

impl<R: ResourceTypes> GenericResourceIdentifier<R> {
    /// Accepts a bare id, a URI, or a URL, and keeps the id inside it.
    pub fn new(identifier: &str) -> (r: Result<GenericResourceIdentifier<R>, SfsError>)
        ensures
            match r {
                Ok(g) => spec_resource_id(identifier@, 22, 28) == Some(g.id@),
                Err(_) => spec_resource_id(identifier@, 22, 28) is None,
            },
    {
        let cs = chars_of(identifier);
        let n = cs.len();
        proof {
            assert(cs@.subrange(0, n as int) =~= cs@);
        }
        if id_run_range(&cs, 0, n, 22, 28) {
            return Ok(
                GenericResourceIdentifier { id: identifier.to_owned(), resource_type: PhantomData },
            );
        }
        match uri_id_range(&cs, 22, 28) {
            Some((a, b)) => {
                let idv = subvec(&cs, a, b);
                return Ok(
                    GenericResourceIdentifier { id: string_of(&idv), resource_type: PhantomData },
                );
            },
            None => {},
        }
        match url_id_range(&cs, 22, 28) {
            Some((a, b)) => {
                let idv = subvec(&cs, a, b);
                return Ok(
                    GenericResourceIdentifier { id: string_of(&idv), resource_type: PhantomData },
                );
            },
            None => {},
        }
        Err(SfsError::new("invalid resource identifier"))
    }

    /// The bare id.
    pub fn id(&self) -> (r: String)
        ensures
            r@ == self.id@,
    {
        self.id.clone()
    }

    /// The `spotify:<type>:<id>` form.
    pub fn uri(&self) -> (r: String)
        ensures
            r@ == "spotify:"@ + R::spec_name() + seq![':'] + self.id@,
    {
        let mut s = String::from_str("spotify:");
        s.append(R::name());
        s.append(":");
        s.append(self.id.as_str());
        proof {
            reveal_strlit(":");
            assert(s@ =~= "spotify:"@ + R::spec_name() + seq![':'] + self.id@);
        }
        s
    }

    /// The `https://open.spotify.com/<type>/<id>` form.
    pub fn url(&self) -> (r: String)
        ensures
            r@ == "https://open.spotify.com/"@ + R::spec_name() + seq!['/'] + self.id@,
    {
        let mut s = String::from_str("https://open.spotify.com/");
        s.append(R::name());
        s.append("/");
        s.append(self.id.as_str());
        proof {
            reveal_strlit("/");
            assert(s@ =~= "https://open.spotify.com/"@ + R::spec_name() + seq!['/'] + self.id@);
        }
        s
    }
}

} // verus!
