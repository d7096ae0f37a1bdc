//! Error types: a simple message-carrying error and the typed errors of the
//! authorization flow.
//!
//! Client secrets and tokens never appear in any error: every carried string
//! is either raw text received from outside or a fixed description.

use vstd::prelude::*;

verus! {

use vstd::string::StringExecFns;

/// A plain error that carries a message.
#[derive(Debug)]
pub struct SfsError {
    msg: String,
}

impl SfsError {
    pub fn new(msg: &str) -> (r: SfsError)
        ensures
            r.spec_message() == msg@,
    {
        SfsError { msg: String::from_str(msg) }
    }

    pub fn new_box(msg: &str) -> (r: Box<SfsError>)
        ensures
            r.spec_message() == msg@,
    {
        Box::new(SfsError::new(msg))
    }

    pub closed spec fn spec_message(&self) -> Seq<char> {
        self.msg@
    }

    /// The carried message.
    pub fn message(&self) -> (r: &str)
        ensures
            r@ == self.spec_message(),
    {
        self.msg.as_str()
    }
}

/// Everything that can end an authorization flow early.  Each variant carries
/// the offending raw text where one exists; none ever carries a secret.
#[derive(Debug, PartialEq, Eq)]
pub enum AuthError {
    /// The local listener could not be bound.
    ServerBindFailure(String),
    /// The system browser could not be opened.
    BrowserLaunchFailure(String),
    /// The callback request did not have the expected shape; carries the raw
    /// callback text.
    MalformedCallback(String),
    /// The provider reported an error; carries the provider's error string.
    AuthorizationDenied(String),
    /// The state echoed by the callback differs from the generated state.
    StateMismatch,
    /// The callback carried neither an error nor a code.
    CodeMissing,
    /// A request could not be serialized.
    EncodingError(String),
    /// The token request could not be sent or received.
    TransportError(String),
    /// The token response was not a usable token document; carries the raw
    /// body.
    TokenDecodeError(String),
}

impl AuthError {
    /// A short description of the error, with its raw context appended.
    pub fn message(&self) -> (r: String) {
        let (label, detail): (&str, &str) = match self {
            AuthError::ServerBindFailure(d) => ("could not bind the local listener: ", d.as_str()),
            AuthError::BrowserLaunchFailure(d) => ("could not open the browser: ", d.as_str()),
            AuthError::MalformedCallback(d) => ("malformed callback: ", d.as_str()),
            AuthError::AuthorizationDenied(d) => ("authorization denied: ", d.as_str()),
            AuthError::StateMismatch => ("returned state does not match the one sent", ""),
            AuthError::CodeMissing => ("no authorization code in the callback", ""),
            AuthError::EncodingError(d) => ("could not encode the request: ", d.as_str()),
            AuthError::TransportError(d) => ("token request failed: ", d.as_str()),
            AuthError::TokenDecodeError(d) => ("unusable token response: ", d.as_str()),
        };
        let mut out = String::from_str(label);
        out.append(detail);
        out
    }
}

} // verus!
