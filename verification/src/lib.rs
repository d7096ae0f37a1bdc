//! OAuth2 authorization-code flow for the Spotify Web API.
//!
//! The crate builds the authorization URL (with a fresh CSRF state token),
//! validates the redirect that the provider sends back to the local listener,
//! and prepares and decodes the token-exchange request.  All of that logic is
//! verified; the pieces that talk to the network live outside this library.

pub mod error;
pub mod strutil;
pub mod urlencode;
pub mod query;
pub mod json;
pub mod auth;
pub mod id;
pub mod request;

use vstd::prelude::*;

verus! {

use crate::auth::AccessToken;
use crate::id::UserID;

/// One authenticated session: the exchanged token and whose account it is.
pub struct Spotify {
    pub access_token: AccessToken,
    pub user_id: UserID,
}

impl Spotify {
    /// Builds the session from the exchanged token and the fetched user id;
    /// the profile fetch that yields the id is the caller's work.
    pub fn new(access_token: AccessToken, user_id: UserID) -> (r: Spotify)
        ensures
            r.access_token@ == access_token@,
            r.user_id.id@ == user_id.id@,
    {
        Spotify { access_token, user_id }
    }
}

} // verus!
