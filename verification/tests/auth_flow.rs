//! The authorization flow end to end: state tokens, the authorization URL,
//! callback validation, and the token exchange against a mocked transport.

use sfs::auth::{AuthCodeNotPresent, Credentials};
use sfs::error::AuthError;
use std::collections::HashSet;

fn creds_with_state(state: &str) -> Credentials<AuthCodeNotPresent> {
    Credentials {
        client_id: "cid".to_string(),
        client_secret: "secret".to_string(),
        authorization_code: AuthCodeNotPresent,
        state: state.to_string(),
    }
}

#[test]
fn state_tokens_are_unique_and_well_formed() {
    let mut seen: HashSet<String> = HashSet::new();
    for _ in 0..10_000 {
        let s = sfs::auth::generate_state();
        assert_eq!(s.len(), 64);
        assert!(s.chars().all(|c| c.is_ascii_alphanumeric()));
        assert!(seen.insert(s), "a state token repeated");
    }
}

#[test]
fn new_credentials_carry_a_fresh_state() {
    let a = Credentials::new("id", "sec");
    let b = Credentials::new("id", "sec");
    assert_eq!(a.client_id, "id");
    assert_eq!(a.client_secret, "sec");
    assert_eq!(a.state().len(), 64);
    assert_ne!(a.state(), b.state());
}

#[test]
fn authorize_url_has_the_exact_query() {
    let state = "A".repeat(64);
    let creds = creds_with_state(&state);
    let url = creds.authorize_url().unwrap();
    let expected = format!(
        "https://accounts.spotify.com/authorize?client_id=cid&response_type=code\
         &redirect_uri=http%3A%2F%2Flocalhost%3A8888%2Fcallback&state={}\
         &scope=playlist-read-private+playlist-modify-public+playlist-modify-private",
        state
    );
    assert_eq!(url, expected);
}

#[test]
fn authorize_url_query_decodes_back_to_the_inputs() {
    let state = "x9".repeat(32);
    let creds = creds_with_state(&state);
    let url = creds.authorize_url().unwrap();
    let parsed = url::Url::parse(&url).unwrap();
    let pairs: Vec<(String, String)> = parsed
        .query_pairs()
        .map(|(k, v)| (k.into_owned(), v.into_owned()))
        .collect();
    assert_eq!(
        pairs,
        vec![
            ("client_id".to_string(), "cid".to_string()),
            ("response_type".to_string(), "code".to_string()),
            (
                "redirect_uri".to_string(),
                "http://localhost:8888/callback".to_string()
            ),
            ("state".to_string(), state.clone()),
            (
                "scope".to_string(),
                "playlist-read-private playlist-modify-public playlist-modify-private"
                    .to_string()
            ),
        ]
    );
}

#[test]
fn wrong_state_is_a_mismatch() {
    let state = "S".repeat(64);
    let creds = creds_with_state(&state);
    let mut wrong = state.clone();
    wrong.pop();
    wrong.push('T');
    let url = format!("/callback?code=ABC&state={}", wrong);
    let e = creds.get_auth_code(&url).err().unwrap();
    assert_eq!(e, AuthError::StateMismatch);
}

#[test]
fn wrong_state_beats_a_provider_error() {
    let creds = creds_with_state("right");
    let e = creds
        .get_auth_code("/callback?error=access_denied&state=wrong")
        .err()
        .unwrap();
    assert_eq!(e, AuthError::StateMismatch);
}

#[test]
fn provider_error_with_matching_state_is_a_denial() {
    let creds = creds_with_state("st1");
    let e = creds
        .get_auth_code("/callback?error=access_denied&state=st1")
        .err()
        .unwrap();
    assert_eq!(e, AuthError::AuthorizationDenied("access_denied".to_string()));
}

#[test]
fn wrong_path_is_malformed() {
    let creds = creds_with_state("st1");
    let url = "/elsewhere?code=ABC&state=st1";
    let e = creds.get_auth_code(url).err().unwrap();
    assert_eq!(e, AuthError::MalformedCallback(url.to_string()));
}

#[test]
fn missing_state_is_malformed() {
    let creds = creds_with_state("st1");
    let e = creds.get_auth_code("/callback?code=ABC").err().unwrap();
    assert!(matches!(e, AuthError::MalformedCallback(_)));
}

#[test]
fn duplicate_state_is_malformed() {
    let creds = creds_with_state("st1");
    let e = creds
        .get_auth_code("/callback?code=ABC&state=st1&state=st1")
        .err()
        .unwrap();
    assert!(matches!(e, AuthError::MalformedCallback(_)));
}

#[test]
fn missing_code_without_error_is_code_missing() {
    let creds = creds_with_state("st1");
    let e = creds.get_auth_code("/callback?state=st1").err().unwrap();
    assert_eq!(e, AuthError::CodeMissing);
}

#[test]
fn callback_values_are_percent_decoded() {
    let creds = creds_with_state("a b");
    let with_code = creds.get_auth_code("/callback?code=x%2By&state=a+b").unwrap();
    let req = with_code.token_request();
    assert!(req.body.starts_with("code=x%2By&"));
}

#[test]
fn token_exchange_decodes_a_success_body() {
    let creds = creds_with_state("st1");
    let with_code = creds.get_auth_code("/callback?code=ABC&state=st1").unwrap();
    let body = "{\"access_token\":\"a\",\"token_type\":\"Bearer\",\"scope\":\"x\",\
                \"expires_in\":3600,\"refresh_token\":\"r\"}";
    let token = with_code
        .get_access_token(Ok((200, body.to_string())))
        .unwrap();
    assert_eq!(token.access_token, "a");
    assert_eq!(token.token_type, "Bearer");
    assert_eq!(token.scope, "x");
    assert_eq!(token.expires_in, 3600);
    assert_eq!(token.refresh_token, "r");
}

#[test]
fn token_exchange_surfaces_the_provider_error_body() {
    let creds = creds_with_state("st1");
    let with_code = creds.get_auth_code("/callback?code=ABC&state=st1").unwrap();
    let body = "{\"error\":\"invalid_grant\",\"error_description\":\"Invalid authorization code\"}";
    let e = with_code
        .get_access_token(Ok((400, body.to_string())))
        .err()
        .unwrap();
    assert_eq!(e, AuthError::AuthorizationDenied("invalid_grant".to_string()));
}

#[test]
fn token_exchange_reports_an_unreadable_success_body() {
    let creds = creds_with_state("st1");
    let with_code = creds.get_auth_code("/callback?code=ABC&state=st1").unwrap();
    let e = with_code
        .get_access_token(Ok((200, "not json".to_string())))
        .err()
        .unwrap();
    assert_eq!(e, AuthError::TokenDecodeError("not json".to_string()));
}

#[test]
fn token_exchange_reports_a_missing_field() {
    let creds = creds_with_state("st1");
    let with_code = creds.get_auth_code("/callback?code=ABC&state=st1").unwrap();
    let body = "{\"access_token\":\"a\",\"token_type\":\"Bearer\"}";
    let e = with_code
        .get_access_token(Ok((200, body.to_string())))
        .err()
        .unwrap();
    assert_eq!(e, AuthError::TokenDecodeError(body.to_string()));
}

#[test]
fn token_exchange_reports_transport_failures() {
    let creds = creds_with_state("st1");
    let with_code = creds.get_auth_code("/callback?code=ABC&state=st1").unwrap();
    let e = with_code
        .get_access_token(Err("connection refused".to_string()))
        .err()
        .unwrap();
    assert_eq!(e, AuthError::TransportError("connection refused".to_string()));
}

#[test]
fn end_to_end_exchange_request_is_exact() {
    let state = "S".repeat(64);
    let creds = creds_with_state(&state);
    let url = creds.authorize_url().unwrap();
    assert!(url.contains("client_id=cid"));
    let callback = format!("/callback?code=ABC&state={}", state);
    let with_code = creds.get_auth_code(&callback).unwrap();
    let req = with_code.token_request();
    assert_eq!(req.url, "https://accounts.spotify.com/api/token");
    assert_eq!(req.content_type, "application/x-www-form-urlencoded");
    assert_eq!(
        req.body,
        "code=ABC&redirect_uri=http%3A%2F%2Flocalhost%3A8888%2Fcallback&grant_type=authorization_code"
    );
    assert_eq!(req.authorization, "Basic Y2lkOnNlY3JldA==");
}

#[test]
fn error_messages_name_their_context() {
    assert_eq!(
        AuthError::AuthorizationDenied("access_denied".to_string()).message(),
        "authorization denied: access_denied"
    );
    assert_eq!(
        AuthError::StateMismatch.message(),
        "returned state does not match the one sent"
    );
}
