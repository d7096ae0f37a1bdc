//! The authorization-code flow itself: credentials with a typestate for the
//! captured code, the CSRF state token, the authorization URL, callback
//! validation, and the token exchange.
//!
//! The pieces that touch the outside world — the local listener, the browser,
//! the HTTP client — live with the caller.  The caller binds the listener,
//! opens [`Credentials::authorize_url`] in a browser, hands the one captured
//! request text to [`Credentials::get_auth_code`], performs the POST that
//! [`Credentials::token_request`] describes, and hands the outcome to
//! [`Credentials::get_access_token`].

use vstd::prelude::*;

verus! {

use vstd::string::{StrSliceExecFns, StringExecFns};
use crate::error::AuthError;
use crate::strutil::{chars_of, push_char, is_alnum_char};
use crate::query::{
    encoded_query, pair_views, parsed_query, parse_query_chars, build_query, subvec,
};
use crate::json::{
    spec_json_object, lookup_text, lookup_number, json_object_members, find_text, find_number,
};

// ---------------------------------------------------------------------------
// Fixed endpoints
// ---------------------------------------------------------------------------

pub open spec fn spec_authorize_endpoint() -> Seq<char> {
    "https://accounts.spotify.com/authorize"@
}

pub open spec fn spec_token_endpoint() -> Seq<char> {
    "https://accounts.spotify.com/api/token"@
}

/// The redirect target; the local listener must sit on this port.
pub open spec fn spec_redirect_uri() -> Seq<char> {
    "http://localhost:8888/callback"@
}

pub open spec fn spec_scope() -> Seq<char> {
    "playlist-read-private playlist-modify-public playlist-modify-private"@
}

/// The address the local listener binds.
pub fn listener_address() -> (r: &'static str) {
    "0.0.0.0:8888"
}

/// The page sent back to the browser; it only closes itself.
pub fn response_page() -> (r: &'static str) {
    "<html><body><script>window.close();</script></body></html>"
}

// ---------------------------------------------------------------------------
// State token
// ---------------------------------------------------------------------------

/// What the CSRF state token looks like: 64 alphanumeric characters.
pub open spec fn is_state_token(s: Seq<char>) -> bool {
    s.len() == 64 && forall|i: int| 0 <= i < s.len() ==> is_alnum_char(s[i])
}

/// Relies on `rand::random_range`: a uniformly random value below the bound.
#[verifier::external_body]
fn random_below(bound: u32) -> (r: u32)
    requires
        1 <= bound,
    ensures
        r < bound,
{
    rand::random_range(0..bound)
}

fn state_char(idx: u32) -> (c: char)
    requires
        idx < 62,
    ensures
        is_alnum_char(c),
{
    let b: u8 = if idx < 26 {
        65 + (idx as u8)
    } else if idx < 52 {
        97 + ((idx - 26) as u8)
    } else {
        48 + ((idx - 52) as u8)
    };
    let c = b as char;
    proof {
        assert(c as u32 == b as u32);
    }
    c
}

/// A fresh 64-character alphanumeric state token.
pub fn generate_state() -> (r: String)
    ensures
        is_state_token(r@),
{
    let mut s = String::new();
    let mut i: usize = 0;
    while i < 64
        invariant
            i <= 64,
            s@.len() == i,
            forall|j: int| 0 <= j < i ==> is_alnum_char(s@[j]),
        decreases 64 - i,
    {
        let c = state_char(random_below(62));
        push_char(&mut s, c);
        i = i + 1;
    }
    s
}

// ---------------------------------------------------------------------------
// Credentials and their typestate
// ---------------------------------------------------------------------------

/// Phase marker: no authorization code captured yet.
pub struct AuthCodeNotPresent;

/// Phase marker: the captured authorization code.
pub struct AuthCodePresent(String);

/// The closed set of phases; nothing outside this crate can add one.
pub trait Sealed {}

impl Sealed for AuthCodeNotPresent {}

impl Sealed for AuthCodePresent {}

pub trait AuthCodeStates: Sealed {}

impl AuthCodeStates for AuthCodeNotPresent {}

impl AuthCodeStates for AuthCodePresent {}

/// One authentication attempt's credentials.  The phase type records whether
/// the authorization code has been captured; only the code-present phase can
/// exchange, and each value is consumed by its one transition.
pub struct Credentials<AuthCodeState> {
    pub client_id: String,
    pub client_secret: String,
    pub authorization_code: AuthCodeState,
    pub state: String,
}

impl<S: AuthCodeStates> Credentials<S> {
    /// The CSRF state token of this attempt.
    pub open spec fn spec_state(&self) -> Seq<char> {
        self.state@
    }

    /// The state token, for callers that log or compare it.
    pub fn state(&self) -> (r: &str)
        ensures
            r@ == self.spec_state(),
    {
        self.state.as_str()
    }
}

impl Credentials<AuthCodeNotPresent> {
    /// Fresh credentials with a fresh random state.
    pub fn new(client_id: &str, client_secret: &str) -> (r: Credentials<AuthCodeNotPresent>)
        ensures
            r.client_id@ == client_id@,
            r.client_secret@ == client_secret@,
            is_state_token(r.spec_state()),
    {
        Credentials {
            client_id: client_id.to_owned(),
            client_secret: client_secret.to_owned(),
            authorization_code: AuthCodeNotPresent,
            state: generate_state(),
        }
    }
}

// ---------------------------------------------------------------------------
// The authorization request
// ---------------------------------------------------------------------------

/// The query parameters of the authorization URL, in order.
pub open spec fn spec_auth_pairs(client_id: Seq<char>, state: Seq<char>) -> Seq<
    (Seq<char>, Seq<char>),
> {
    seq![
        ("client_id"@, client_id),
        ("response_type"@, "code"@),
        ("redirect_uri"@, spec_redirect_uri()),
        ("state"@, state),
        ("scope"@, spec_scope()),
    ]
}

/// The full authorization URL.
pub open spec fn spec_authorize_url(client_id: Seq<char>, state: Seq<char>) -> Seq<char> {
    spec_authorize_endpoint() + seq!['?'] + encoded_query(spec_auth_pairs(client_id, state))
}

/// The authorization request, as the provider reads it.
pub struct AuthCodeRequest {
    pub client_id: String,
    pub response_type: String,
    pub redirect_uri: String,
    pub state: String,
    pub scope: String,
}

impl AuthCodeRequest {
    pub fn new(creds: &Credentials<AuthCodeNotPresent>) -> (r: AuthCodeRequest)
        ensures
            r.client_id@ == creds.client_id@,
            r.response_type@ == "code"@,
            r.redirect_uri@ == spec_redirect_uri(),
            r.state@ == creds.spec_state(),
            r.scope@ == spec_scope(),
    {
        AuthCodeRequest {
            client_id: creds.client_id.clone(),
            response_type: String::from_str("code"),
            redirect_uri: String::from_str("http://localhost:8888/callback"),
            state: creds.state.clone(),
            scope: String::from_str(
                "playlist-read-private playlist-modify-public playlist-modify-private",
            ),
        }
    }

    /// The request's query pairs, in serialization order.
    pub fn query_pairs(&self) -> (r: Vec<(String, String)>)
        ensures
            pair_views(r@) == seq![
                ("client_id"@, self.client_id@),
                ("response_type"@, self.response_type@),
                ("redirect_uri"@, self.redirect_uri@),
                ("state"@, self.state@),
                ("scope"@, self.scope@),
            ],
    {
        let mut r: Vec<(String, String)> = Vec::new();
        r.push((String::from_str("client_id"), self.client_id.clone()));
        r.push((String::from_str("response_type"), self.response_type.clone()));
        r.push((String::from_str("redirect_uri"), self.redirect_uri.clone()));
        r.push((String::from_str("state"), self.state.clone()));
        r.push((String::from_str("scope"), self.scope.clone()));
        proof {
            assert(pair_views(r@) =~= seq![
                ("client_id"@, self.client_id@),
                ("response_type"@, self.response_type@),
                ("redirect_uri"@, self.redirect_uri@),
                ("state"@, self.state@),
                ("scope"@, self.scope@),
            ]);
        }
        r
    }
}

impl Credentials<AuthCodeNotPresent> {
    /// The authorization URL to open in the user's browser.  Serialization
    /// cannot fail here, so the error side is never taken; the `Result`
    /// keeps the failure path explicit for callers.
    pub fn authorize_url(&self) -> (r: Result<String, AuthError>)
        ensures
            match r {
                Ok(u) => u@ == spec_authorize_url(self.client_id@, self.spec_state()),
                Err(_) => false,
            },
    {
        let req = AuthCodeRequest::new(self);
        let pairs = req.query_pairs();
        let query = build_query(&pairs);
        let mut url = String::from_str("https://accounts.spotify.com/authorize");
        url.append("?");
        url.append(query.as_str());
        proof {
            reveal_strlit("?");
            assert(pair_views(pairs@) =~= spec_auth_pairs(self.client_id@, self.spec_state()));
            assert(url@ =~= spec_authorize_url(self.client_id@, self.spec_state()));
        }
        Ok(url)
    }
}

// ---------------------------------------------------------------------------
// The callback
// ---------------------------------------------------------------------------

/// The spec view of a parsed callback query.
pub struct CallbackV {
    pub code: Option<Seq<char>>,
    pub error: Option<Seq<char>>,
    pub state: Seq<char>,
}

/// The parsed redirect query: at most one `code`, at most one `error`, and
/// exactly one echoed `state`.
pub struct AuthCodeCallback {
    pub code: Option<String>,
    pub error: Option<String>,
    pub state: String,
}

impl View for AuthCodeCallback {
    type V = CallbackV;

    open spec fn view(&self) -> CallbackV {
        CallbackV {
            code: match self.code {
                Some(ref c) => Some(c@),
                None => None,
            },
            error: match self.error {
                Some(ref e) => Some(e@),
                None => None,
            },
            state: self.state@,
        }
    }
}

/// How many pairs carry the given key.
pub open spec fn spec_count_key(pairs: Seq<(Seq<char>, Seq<char>)>, key: Seq<char>) -> int
    decreases pairs.len(),
{
    if pairs.len() == 0 {
        0
    } else {
        (if pairs[0].0 == key {
            1int
        } else {
            0int
        }) + spec_count_key(pairs.drop_first(), key)
    }
}

/// The value of the first pair with the given key.
pub open spec fn spec_lookup(pairs: Seq<(Seq<char>, Seq<char>)>, key: Seq<char>) -> Option<
    Seq<char>,
>
    decreases pairs.len(),
{
    if pairs.len() == 0 {
        None
    } else if pairs[0].0 == key {
        Some(pairs[0].1)
    } else {
        spec_lookup(pairs.drop_first(), key)
    }
}

/// The callback a query text describes, when it describes exactly one.
pub open spec fn spec_parse_callback(q: Seq<char>) -> Option<CallbackV> {
    match parsed_query(q) {
        None => None,
        Some(pairs) => {
            if spec_count_key(pairs, "code"@) <= 1 && spec_count_key(pairs, "error"@) <= 1
                && spec_count_key(pairs, "state"@) == 1 {
                Some(
                    CallbackV {
                        code: spec_lookup(pairs, "code"@),
                        error: spec_lookup(pairs, "error"@),
                        state: match spec_lookup(pairs, "state"@) {
                            Some(s) => s,
                            None => seq![],
                        },
                    },
                )
            } else {
                None
            }
        },
    }
}

/// The expected start of every callback request.
pub open spec fn is_callback_path(url: Seq<char>) -> bool {
    url.len() >= 10 && url.subrange(0, 10) == "/callback?"@
}

/// The query part of a callback request text.
pub open spec fn query_of(url: Seq<char>) -> Seq<char> {
    url.subrange(10, url.len() as int)
}

proof fn lemma_count_zero_lookup_none(pairs: Seq<(Seq<char>, Seq<char>)>, key: Seq<char>)
    ensures
        spec_count_key(pairs, key) == 0 <==> spec_lookup(pairs, key) is None,
        spec_count_key(pairs, key) >= 0,
    decreases pairs.len(),
{
    if pairs.len() == 0 {
    } else {
        lemma_count_zero_lookup_none(pairs.drop_first(), key);
    }
}

fn count_key(pairs: &Vec<(String, String)>, key: &str) -> (r: usize)
    ensures
        r == spec_count_key(pair_views(pairs@), key@),
{
    let needle = key.to_owned();
    let mut r: usize = 0;
    let mut i: usize = 0;
    proof {
        assert(pair_views(pairs@).subrange(0, pairs@.len() as int) =~= pair_views(pairs@));
    }
    while i < pairs.len()
        invariant
            i <= pairs@.len(),
            needle@ == key@,
            r <= i,
            spec_count_key(pair_views(pairs@), key@) == r + spec_count_key(
                pair_views(pairs@).subrange(i as int, pairs@.len() as int),
                key@,
            ),
        decreases pairs@.len() - i,
    {
        let ghost rest = pair_views(pairs@).subrange(i as int, pairs@.len() as int);
        proof {
            assert(rest[0] == pair_views(pairs@)[i as int]);
            assert(rest.drop_first() =~= pair_views(pairs@).subrange(
                i as int + 1,
                pairs@.len() as int,
            ));
        }
        if pairs[i].0 == needle {
            r = r + 1;
        }
        i = i + 1;
    }
    proof {
        assert(pair_views(pairs@).subrange(pairs@.len() as int, pairs@.len() as int) =~= Seq::<(
            Seq<char>,
            Seq<char>,
        )>::empty());
        lemma_count_zero_lookup_none(pair_views(pairs@), key@);
    }
    r
}

fn lookup_key(pairs: &Vec<(String, String)>, key: &str) -> (r: Option<String>)
    ensures
        match r {
            Some(v) => spec_lookup(pair_views(pairs@), key@) == Some(v@),
            None => spec_lookup(pair_views(pairs@), key@) is None,
        },
{
    let needle = key.to_owned();
    let mut i: usize = 0;
    proof {
        assert(pair_views(pairs@).subrange(0, pairs@.len() as int) =~= pair_views(pairs@));
    }
    while i < pairs.len()
        invariant
            i <= pairs@.len(),
            needle@ == key@,
            spec_lookup(pair_views(pairs@), key@) == spec_lookup(
                pair_views(pairs@).subrange(i as int, pairs@.len() as int),
                key@,
            ),
        decreases pairs@.len() - i,
    {
        let ghost rest = pair_views(pairs@).subrange(i as int, pairs@.len() as int);
        proof {
            assert(rest[0] == pair_views(pairs@)[i as int]);
            assert(rest.drop_first() =~= pair_views(pairs@).subrange(
                i as int + 1,
                pairs@.len() as int,
            ));
        }
        if pairs[i].0 == needle {
            return Some(pairs[i].1.clone());
        }
        i = i + 1;
    }
    proof {
        assert(pair_views(pairs@).subrange(pairs@.len() as int, pairs@.len() as int) =~= Seq::<(
            Seq<char>,
            Seq<char>,
        )>::empty());
    }
    None
}

impl AuthCodeCallback {
    /// Parses the raw request text of the one captured callback: the path
    /// must start with `/callback?`, and the query after it must carry the
    /// fields exactly once each (the state always, the others at most once).
    pub fn parse_callback_url(url: &str) -> (r: Result<AuthCodeCallback, AuthError>)
        ensures
            match r {
                Ok(cb) => is_callback_path(url@) && spec_parse_callback(query_of(url@)) == Some(
                    cb@,
                ),
                Err(e) => {
                    &&& (!is_callback_path(url@) || spec_parse_callback(query_of(url@)) is None)
                    &&& e matches AuthError::MalformedCallback(m)
                    &&& m@ == url@
                },
            },
{
        let cs = chars_of(url);
        let pref = chars_of("/callback?");
        proof {
            reveal_strlit("/callback?");
        }
        if cs.len() < pref.len() {
            return Err(AuthError::MalformedCallback(url.to_owned()));
        }
        let mut i: usize = 0;
        while i < pref.len()
            invariant
                i <= pref@.len(),
                pref@ == "/callback?"@,
                pref@.len() == 10,
                cs@ == url@,
                cs@.len() >= pref@.len(),
                forall|j: int| 0 <= j < i ==> cs@[j] == pref@[j],
            decreases pref@.len() - i,
        {
            if cs[i] != pref[i] {
                proof {
                    assert(!is_callback_path(url@)) by {
                        if is_callback_path(url@) {
                            assert(url@.subrange(0, 10)[i as int] == pref@[i as int]);
                        }
                    }
                }
                return Err(AuthError::MalformedCallback(url.to_owned()));
            }
            i = i + 1;
        }
        proof {
            assert(cs@.subrange(0, 10) =~= pref@);
            assert(is_callback_path(url@));
        }
        let qchars = subvec(&cs, 10, cs.len());
        proof {
            assert(qchars@ == query_of(url@));
        }
        let pairs = match parse_query_chars(&qchars) {
            Some(p) => p,
            None => {
                return Err(AuthError::MalformedCallback(url.to_owned()));
            },
        };
        let code_n = count_key(&pairs, "code");
        let error_n = count_key(&pairs, "error");
        let state_n = count_key(&pairs, "state");
        if !(code_n <= 1 && error_n <= 1 && state_n == 1) {
            return Err(AuthError::MalformedCallback(url.to_owned()));
        }
        let state = match lookup_key(&pairs, "state") {
            Some(s) => s,
            None => {
                proof {
                    lemma_count_zero_lookup_none(pair_views(pairs@), "state"@);
                }
                return Err(AuthError::MalformedCallback(url.to_owned()));
            },
        };
        let code = lookup_key(&pairs, "code");
        let error = lookup_key(&pairs, "error");
        let cb = AuthCodeCallback { code, error, state };
        Ok(cb)
    }

    /// Validates the callback against the expected state and hands out the
    /// code.  The state comparison comes first: a wrong state is a mismatch
    /// whatever else the callback carries.
    pub fn parse_for_code(self, state: String) -> (r: Result<String, AuthError>)
        ensures
            match r {
                Ok(c) => self@.state == state@ && self@.error is None && self@.code == Some(c@),
                Err(AuthError::StateMismatch) => self@.state != state@,
                Err(AuthError::AuthorizationDenied(m)) => self@.state == state@ && self@.error
                    == Some(m@),
                Err(AuthError::CodeMissing) => self@.state == state@ && self@.error is None
                    && self@.code is None,
                Err(_) => false,
            },
    {
        if !(self.state == state) {
            return Err(AuthError::StateMismatch);
        }
        match self.error {
            Some(e) => Err(AuthError::AuthorizationDenied(e)),
            None => match self.code {
                Some(c) => Ok(c),
                None => Err(AuthError::CodeMissing),
            },
        }
    }
}

/// Why a callback is turned away.
pub enum CallbackFailure {
    Malformed,
    Mismatch,
    Denied(Seq<char>),
    Missing,
}

/// The whole callback decision: path shape, query shape, state, error, code
/// — in that order.
pub open spec fn spec_callback_code(expected: Seq<char>, url: Seq<char>) -> Result<
    Seq<char>,
    CallbackFailure,
> {
    if !is_callback_path(url) {
        Err(CallbackFailure::Malformed)
    } else {
        match spec_parse_callback(query_of(url)) {
            None => Err(CallbackFailure::Malformed),
            Some(cb) => {
                if cb.state != expected {
                    Err(CallbackFailure::Mismatch)
                } else {
                    match cb.error {
                        Some(e) => Err(CallbackFailure::Denied(e)),
                        None => match cb.code {
                            Some(c) => Ok(c),
                            None => Err(CallbackFailure::Missing),
                        },
                    }
                }
            },
        }
    }
}

/// The builder's round trip: the query of the authorization URL parses back
/// to exactly the five parameters that went in, for every client id and
/// state.
pub proof fn lemma_authorize_query_round_trip(client_id: Seq<char>, state: Seq<char>)
    ensures
        parsed_query(encoded_query(spec_auth_pairs(client_id, state))) == Some(
            spec_auth_pairs(client_id, state),
        ),
{
    crate::query::lemma_query_round_trip(spec_auth_pairs(client_id, state));
}

/// A callback whose echoed state differs from the generated one is turned
/// away as a state mismatch, whatever code or error it also carries.
pub proof fn lemma_state_mismatch_rejected(expected: Seq<char>, url: Seq<char>, cb: CallbackV)
    requires
        is_callback_path(url),
        spec_parse_callback(query_of(url)) == Some(cb),
        cb.state != expected,
    ensures
        spec_callback_code(expected, url) == Err::<Seq<char>, CallbackFailure>(
            CallbackFailure::Mismatch,
        ),
{
}

/// A callback that echoes the right state but carries the provider's error
/// is an authorization denial — not a mismatch, and never a success.
pub proof fn lemma_error_callback_denied(
    expected: Seq<char>,
    url: Seq<char>,
    cb: CallbackV,
    e: Seq<char>,
)
    requires
        is_callback_path(url),
        spec_parse_callback(query_of(url)) == Some(cb),
        cb.state == expected,
        cb.error == Some(e),
    ensures
        spec_callback_code(expected, url) == Err::<Seq<char>, CallbackFailure>(
            CallbackFailure::Denied(e),
        ),
{
}

/// A request whose path does not start with the callback prefix is malformed
/// before its query is ever looked at.
pub proof fn lemma_wrong_path_rejected(expected: Seq<char>, url: Seq<char>)
    requires
        !is_callback_path(url),
    ensures
        spec_callback_code(expected, url) == Err::<Seq<char>, CallbackFailure>(
            CallbackFailure::Malformed,
        ),
{
}

impl Credentials<AuthCodeNotPresent> {
    /// Consumes the one captured callback request and, when it passes every
    /// check, moves the credentials to the code-present phase.
    pub fn get_auth_code(self, callback_url: &str) -> (r: Result<
        Credentials<AuthCodePresent>,
        AuthError,
    >)
        ensures
            match (spec_callback_code(self.spec_state(), callback_url@), r) {
                (Ok(code), Ok(c)) => c.client_id@ == self.client_id@ && c.client_secret@
                    == self.client_secret@ && c.spec_state() == self.spec_state() && c.spec_code()
                    == code,
                (Err(CallbackFailure::Malformed), Err(e)) => {
                    &&& e matches AuthError::MalformedCallback(m)
                    &&& m@ == callback_url@
                },
                (Err(CallbackFailure::Mismatch), Err(e)) => e == AuthError::StateMismatch,
                (Err(CallbackFailure::Denied(d)), Err(AuthError::AuthorizationDenied(m))) => m@
                    == d,
                (Err(CallbackFailure::Missing), Err(e)) => e == AuthError::CodeMissing,
                _ => false,
            },
    {
        let cb = match AuthCodeCallback::parse_callback_url(callback_url) {
            Ok(cb) => cb,
            Err(e) => {
                return Err(e);
            },
        };
        let code = match cb.parse_for_code(self.state.clone()) {
            Ok(c) => c,
            Err(e) => {
                return Err(e);
            },
        };
        Ok(self.add_auth_code(code))
    }

    /// Moves to the code-present phase, keeping everything else.
    fn add_auth_code(self, auth_code: String) -> (r: Credentials<AuthCodePresent>)
        ensures
            r.client_id@ == self.client_id@,
            r.client_secret@ == self.client_secret@,
            r.spec_state() == self.spec_state(),
            r.spec_code() == auth_code@,
    {
        Credentials {
            client_id: self.client_id,
            client_secret: self.client_secret,
            authorization_code: AuthCodePresent(auth_code),
            state: self.state,
        }
    }
}

// ---------------------------------------------------------------------------
// The token exchange
// ---------------------------------------------------------------------------

/// What the base64 crate's standard engine returns for the UTF-8 bytes of a
/// string; a function of the characters alone.
pub uninterp spec fn base64_of(s: Seq<char>) -> Seq<char>;

/// Relies on base64's `STANDARD` engine (RFC 4648, with padding): encodes
/// the string's UTF-8 bytes; the result depends on the input alone.
#[verifier::external_body]
fn base64_encode(s: &str) -> (r: String)
    ensures
        r@ == base64_of(s@),
{
    base64::engine::Engine::encode(&base64::engine::general_purpose::STANDARD, s.as_bytes())
}

/// `id:secret`, the text whose base64 encoding goes in the Basic header.
pub open spec fn spec_basic_credentials(id: Seq<char>, secret: Seq<char>) -> Seq<char> {
    id + seq![':'] + secret
}

/// The body pairs of the exchange POST, in order.
pub open spec fn spec_token_pairs(code: Seq<char>) -> Seq<(Seq<char>, Seq<char>)> {
    seq![
        ("code"@, code),
        ("redirect_uri"@, spec_redirect_uri()),
        ("grant_type"@, "authorization_code"@),
    ]
}

/// The one POST of the token exchange, fully assembled: URL, headers, body.
pub struct TokenRequest {
    pub url: String,
    pub authorization: String,
    pub content_type: String,
    pub body: String,
}

/// The exchange sends back exactly the redirect URI that the authorization
/// request carried; providers check that the two match.
pub proof fn lemma_redirect_uri_consistent(client_id: Seq<char>, state: Seq<char>, code: Seq<char>)
    ensures
        spec_auth_pairs(client_id, state)[2] == ("redirect_uri"@, spec_redirect_uri()),
        spec_token_pairs(code)[1] == ("redirect_uri"@, spec_redirect_uri()),
{
}

impl Credentials<AuthCodePresent> {
    /// The captured authorization code.
    pub closed spec fn spec_code(&self) -> Seq<char> {
        self.authorization_code.0@
    }

    /// Assembles the exchange request.  The Authorization header carries the
    /// Basic credentials; the body carries the code, the exact redirect URI
    /// of the authorization request, and the grant type.
    pub fn token_request(&self) -> (r: TokenRequest)
        ensures
            r.url@ == spec_token_endpoint(),
            r.authorization@ == "Basic "@ + base64_of(
                spec_basic_credentials(self.client_id@, self.client_secret@),
            ),
            r.content_type@ == "application/x-www-form-urlencoded"@,
            r.body@ == encoded_query(spec_token_pairs(self.spec_code())),
    {
        let mut basic = self.client_id.clone();
        basic.append(":");
        basic.append(self.client_secret.as_str());
        proof {
            reveal_strlit(":");
            assert(basic@ =~= spec_basic_credentials(self.client_id@, self.client_secret@));
        }
        let b64 = base64_encode(basic.as_str());
        let mut authorization = String::from_str("Basic ");
        authorization.append(b64.as_str());
        let mut pairs: Vec<(String, String)> = Vec::new();
        pairs.push((String::from_str("code"), self.authorization_code.0.clone()));
        pairs.push(
            (String::from_str("redirect_uri"), String::from_str("http://localhost:8888/callback")),
        );
        pairs.push((String::from_str("grant_type"), String::from_str("authorization_code")));
        proof {
            assert(pair_views(pairs@) =~= spec_token_pairs(self.spec_code()));
        }
        let body = build_query(&pairs);
        TokenRequest {
            url: String::from_str("https://accounts.spotify.com/api/token"),
            authorization,
            content_type: String::from_str("application/x-www-form-urlencoded"),
            body,
        }
    }
}

// ---------------------------------------------------------------------------
// The token response
// ---------------------------------------------------------------------------

/// The spec view of an access token.
pub struct AccessTokenV {
    pub access_token: Seq<char>,
    pub token_type: Seq<char>,
    pub scope: Seq<char>,
    pub expires_in: int,
    pub refresh_token: Seq<char>,
}

/// The decoded token response.  `expires_in` is relative seconds.
#[derive(Debug)]
pub struct AccessToken {
    pub access_token: String,
    pub token_type: String,
    pub scope: String,
    pub expires_in: i32,
    pub refresh_token: String,
}

impl View for AccessToken {
    type V = AccessTokenV;

    open spec fn view(&self) -> AccessTokenV {
        AccessTokenV {
            access_token: self.access_token@,
            token_type: self.token_type@,
            scope: self.scope@,
            expires_in: self.expires_in as int,
            refresh_token: self.refresh_token@,
        }
    }
}

/// The token a response body describes: a flat JSON object with all five
/// fields present and the expiry in range.
pub open spec fn spec_token_of(body: Seq<char>) -> Option<AccessTokenV> {
    match spec_json_object(body) {
        None => None,
        Some(ms) => {
            match (
                lookup_text(ms, "access_token"@),
                lookup_text(ms, "token_type"@),
                lookup_text(ms, "scope"@),
                lookup_number(ms, "expires_in"@),
                lookup_text(ms, "refresh_token"@),
            ) {
                (Some(a), Some(t), Some(sc), Some(e), Some(rf)) => {
                    if -0x8000_0000 <= e < 0x8000_0000 {
                        Some(
                            AccessTokenV {
                                access_token: a,
                                token_type: t,
                                scope: sc,
                                expires_in: e,
                                refresh_token: rf,
                            },
                        )
                    } else {
                        None
                    }
                },
                _ => None,
            }
        },
    }
}

/// The provider's error string in a response body, when there is one.
pub open spec fn spec_provider_error(body: Seq<char>) -> Option<Seq<char>> {
    match spec_json_object(body) {
        None => None,
        Some(ms) => lookup_text(ms, "error"@),
    }
}

pub open spec fn spec_exchange_ok(status: int) -> bool {
    200 <= status < 300
}

impl Credentials<AuthCodePresent> {
    /// Completes the exchange from the transport's outcome, consuming the
    /// credentials: a code is single-use.  A success body must decode to a
    /// full token; an HTTP error body surfaces the provider's error string
    /// rather than a decode failure; a transport failure is its own error.
    pub fn get_access_token(self, response: Result<(u16, String), String>) -> (r: Result<
        AccessToken,
        AuthError,
    >)
        ensures
            match (response, r) {
                (Err(m), Err(AuthError::TransportError(t))) => t@ == m@,
                (Ok((status, body)), r2) => {
                    if spec_exchange_ok(status as int) {
                        match (spec_token_of(body@), r2) {
                            (Some(tv), Ok(tok)) => tok@ == tv,
                            (None, Err(AuthError::TokenDecodeError(m))) => m@ == body@,
                            _ => false,
                        }
                    } else {
                        match (spec_provider_error(body@), r2) {
                            (Some(e), Err(AuthError::AuthorizationDenied(m))) => m@ == e,
                            (None, Err(AuthError::TokenDecodeError(m))) => m@ == body@,
                            _ => false,
                        }
                    }
                },
                _ => false,
            },
    {
        let (status, body) = match response {
            Err(m) => {
                return Err(AuthError::TransportError(m));
            },
            Ok(sb) => sb,
        };
        if 200 <= status && status < 300 {
            let ms = match json_object_members(body.as_str()) {
                Some(ms) => ms,
                None => {
                    return Err(AuthError::TokenDecodeError(body));
                },
            };
            let a = find_text(&ms, "access_token");
            let t = find_text(&ms, "token_type");
            let sc = find_text(&ms, "scope");
            let e = find_number(&ms, "expires_in");
            let rf = find_text(&ms, "refresh_token");
            match (a, t, sc, e, rf) {
                (Some(a), Some(t), Some(sc), Some(e), Some(rf)) => {
                    if -0x8000_0000i64 <= e && e < 0x8000_0000i64 {
                        Ok(
                            AccessToken {
                                access_token: a,
                                token_type: t,
                                scope: sc,
                                expires_in: e as i32,
                                refresh_token: rf,
                            },
                        )
                    } else {
                        Err(AuthError::TokenDecodeError(body))
                    }
                },
                _ => Err(AuthError::TokenDecodeError(body)),
            }
        } else {
            let ms = match json_object_members(body.as_str()) {
                Some(ms) => ms,
                None => {
                    return Err(AuthError::TokenDecodeError(body));
                },
            };
            match find_text(&ms, "error") {
                Some(e) => Err(AuthError::AuthorizationDenied(e)),
                None => Err(AuthError::TokenDecodeError(body)),
            }
        }
    }
}

} // verus!
