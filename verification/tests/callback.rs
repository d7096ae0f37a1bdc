//! The callback parser and validator on their own, apart from the flow.

use sfs::auth::AuthCodeCallback;
use sfs::error::AuthError;

#[test]
fn callback_url_parses_its_fields() {
    let cb = AuthCodeCallback::parse_callback_url("/callback?code=ABC&state=st1").unwrap();
    assert_eq!(cb.code.as_deref(), Some("ABC"));
    assert_eq!(cb.error, None);
    assert_eq!(cb.state, "st1");
}

#[test]
fn callback_url_ignores_unknown_keys() {
    let cb =
        AuthCodeCallback::parse_callback_url("/callback?x=1&code=ABC&state=st1&y=2").unwrap();
    assert_eq!(cb.code.as_deref(), Some("ABC"));
    assert_eq!(cb.state, "st1");
}

#[test]
fn callback_url_needs_the_prefix() {
    let e = AuthCodeCallback::parse_callback_url("/callbac?code=ABC&state=st1")
        .err()
        .unwrap();
    assert_eq!(
        e,
        AuthError::MalformedCallback("/callbac?code=ABC&state=st1".to_string())
    );
}

#[test]
fn callback_url_rejects_a_broken_query() {
    assert!(AuthCodeCallback::parse_callback_url("/callback?code=%zz&state=st1").is_err());
}

#[test]
fn validation_checks_state_before_everything() {
    let cb = AuthCodeCallback {
        code: Some("ABC".to_string()),
        error: Some("access_denied".to_string()),
        state: "other".to_string(),
    };
    assert_eq!(
        cb.parse_for_code("expected".to_string()).err().unwrap(),
        AuthError::StateMismatch
    );
}

#[test]
fn validation_reports_the_error_before_the_code() {
    let cb = AuthCodeCallback {
        code: Some("ABC".to_string()),
        error: Some("access_denied".to_string()),
        state: "st1".to_string(),
    };
    assert_eq!(
        cb.parse_for_code("st1".to_string()).err().unwrap(),
        AuthError::AuthorizationDenied("access_denied".to_string())
    );
}

#[test]
fn validation_hands_out_the_code() {
    let cb = AuthCodeCallback {
        code: Some("ABC".to_string()),
        error: None,
        state: "st1".to_string(),
    };
    assert_eq!(cb.parse_for_code("st1".to_string()).unwrap(), "ABC");
}

#[test]
fn validation_misses_the_code() {
    let cb = AuthCodeCallback { code: None, error: None, state: "st1".to_string() };
    assert_eq!(
        cb.parse_for_code("st1".to_string()).err().unwrap(),
        AuthError::CodeMissing
    );
}
