//! Identifiers keyed by their written form: a value of type
//! `ResourceIdentifier<I, R>` holds a text that was checked against the one
//! shape `I` (bare id, URI, or URL) for the resource kind `R`.  Here the id
//! part is exactly 22 characters.

use vstd::prelude::*;

verus! {

use core::marker::PhantomData;
use vstd::string::{StrSliceExecFns, StringExecFns};
use crate::error::SfsError;
use crate::strutil::chars_of;
use crate::id::{
    is_id_run, spec_uri_id, spec_url_id, id_run_range, uri_id_range, url_id_range,
};

/// One written shape of an identifier, with its check.
pub trait IdTypes {
    spec fn spec_valid(s: Seq<char>) -> bool;

    fn check(s: &str) -> (r: bool)
        ensures
            r == Self::spec_valid(s@),
    ;

    spec fn spec_name() -> Seq<char>;

    fn name() -> (r: &'static str)
        ensures
            r@ == Self::spec_name(),
    ;
}

/// The bare 22-character id.
pub struct ID;

impl IdTypes for ID {
    open spec fn spec_valid(s: Seq<char>) -> bool {
        is_id_run(s, 22, 22)
    }

    fn check(s: &str) -> (r: bool) {
        let cs = chars_of(s);
        let n = cs.len();
        proof {
            assert(cs@.subrange(0, n as int) =~= cs@);
        }
        id_run_range(&cs, 0, n, 22, 22)
    }

    open spec fn spec_name() -> Seq<char> {
        "ID"@
    }

    fn name() -> (r: &'static str) {
        "ID"
    }
}

/// The `spotify:<type>:<id>` form.
pub struct URI;

impl IdTypes for URI {
    open spec fn spec_valid(s: Seq<char>) -> bool {
        spec_uri_id(s, 22, 22) is Some
    }

    fn check(s: &str) -> (r: bool) {
        let cs = chars_of(s);
        match uri_id_range(&cs, 22, 22) {
            Some(_) => true,
            None => false,
        }
    }

    open spec fn spec_name() -> Seq<char> {
        "URI"@
    }

    fn name() -> (r: &'static str) {
        "URI"
    }
}

/// The `https://open.spotify.com/<type>/<id>` form.
pub struct URL;

impl IdTypes for URL {
    open spec fn spec_valid(s: Seq<char>) -> bool {
        spec_url_id(s, 22, 22) is Some
    }

    fn check(s: &str) -> (r: bool) {
        let cs = chars_of(s);
        match url_id_range(&cs, 22, 22) {
            Some(_) => true,
            None => false,
        }
    }

    open spec fn spec_name() -> Seq<char> {
        "URL"@
    }

    fn name() -> (r: &'static str) {
        "URL"
    }
}

/// A resource kind, with the word shown in error messages.
pub trait ResourceTypes {
    spec fn spec_name() -> Seq<char>;

    fn name() -> (r: &'static str)
        ensures
            r@ == Self::spec_name(),
    ;
}

pub struct Track;

impl ResourceTypes for Track {
    open spec fn spec_name() -> Seq<char> {
        "track"@
    }

    fn name() -> (r: &'static str) {
        "track"
    }
}

pub struct Playlist;

impl ResourceTypes for Playlist {
    open spec fn spec_name() -> Seq<char> {
        "playlist"@
    }

    fn name() -> (r: &'static str) {
        "playlist"
    }
}

pub struct User;

impl ResourceTypes for User {
    open spec fn spec_name() -> Seq<char> {
        "user"@
    }

    fn name() -> (r: &'static str) {
        "user"
    }
}

/// An identifier whose text was checked against shape `I` for kind `R`.
pub struct ResourceIdentifier<I, R> {
    pub identifier: String,
    pub id_type: PhantomData<I>,
    pub resource_type: PhantomData<R>,
}

impl<I: IdTypes, R: ResourceTypes> ResourceIdentifier<I, R> {
    /// Keeps the text exactly when it has shape `I`.
    pub fn new(identifier: &str) -> (r: Result<ResourceIdentifier<I, R>, SfsError>)
        ensures
            match r {
                Ok(g) => I::spec_valid(identifier@) && g.identifier@ == identifier@,
                Err(_) => !I::spec_valid(identifier@),
            },
    {
        if I::check(identifier) {
            Ok(
                ResourceIdentifier {
                    identifier: identifier.to_owned(),
                    id_type: PhantomData,
                    resource_type: PhantomData,
                },
            )
        } else {
            let mut msg = String::from_str("Invalid ");
            msg.append(R::name());
            msg.append(" ");
            msg.append(I::name());
            msg.append(": ");
            msg.append(identifier);
            Err(SfsError::new(msg.as_str()))
        }
    }
}

/// The current user's id, as the profile resource reports it; fetching the
/// profile is the caller's work.
pub struct UserID {
    pub id: String,
}

impl UserID {
    pub fn new(id: &str) -> (r: UserID)
        ensures
            r.id@ == id@,
    {
        UserID { id: id.to_owned() }
    }
}

} // verus!
