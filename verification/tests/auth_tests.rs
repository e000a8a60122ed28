use rusmes_jmap::auth::{
    basic_verdict, bearer_verdict, decode_basic, extract_credentials, split_basic, strip_scheme, AuthError,
    Credentials, UNAUTHORIZED_STATUS, WWW_AUTHENTICATE_VALUE,
};
use rusmes_jmap::JmapErrorType;

fn chars(s: &str) -> Vec<char> {
    s.chars().collect()
}

#[test]
fn test_extract_basic_ok() {
    // base64("alice:hunter2") = "YWxpY2U6aHVudGVyMg=="
    let creds = extract_credentials(Some("Basic YWxpY2U6aHVudGVyMg==")).expect("creds parse");
    assert_eq!(
        creds,
        Credentials::Basic {
            username: "alice".to_string(),
            password: "hunter2".to_string()
        }
    );
}

#[test]
fn test_extract_basic_case_insensitive_scheme() {
    assert!(extract_credentials(Some("basic YWxpY2U6aHVudGVyMg==")).is_some());
}

#[test]
fn test_extract_bearer_ok() {
    let creds = extract_credentials(Some("Bearer abc.def.ghi")).expect("creds parse");
    assert_eq!(
        creds,
        Credentials::Bearer {
            token: "abc.def.ghi".to_string()
        }
    );
}

#[test]
fn test_extract_no_header() {
    assert!(extract_credentials(None).is_none());
}

#[test]
fn test_extract_unknown_scheme() {
    assert!(extract_credentials(Some("Digest something")).is_none());
}

#[test]
fn test_extract_basic_empty_username_rejected() {
    // base64(":pwd") = "OnB3ZA=="
    assert!(extract_credentials(Some("Basic OnB3ZA==")).is_none());
}

#[test]
fn test_extract_basic_no_colon_rejected() {
    // base64("alicehunter2") = "YWxpY2VodW50ZXIy"
    assert!(extract_credentials(Some("Basic YWxpY2VodW50ZXIy")).is_none());
}

#[test]
fn extract_rejects_non_header_text() {
    assert!(extract_credentials(Some("Bearer tok\u{e9}n")).is_none());
    assert!(extract_credentials(Some("Bearer tok\nen")).is_none());
}

#[test]
fn extract_trims_and_accepts_tab_separator() {
    let creds = extract_credentials(Some("  BEARER\ttoken-1  ")).expect("bearer");
    assert_eq!(creds, Credentials::Bearer { token: "token-1".to_string() });
}

#[test]
fn extract_bare_scheme_is_rejected() {
    assert!(extract_credentials(Some("Basic")).is_none());
    assert!(extract_credentials(Some("Bearer    ")).is_none());
}

#[test]
fn extract_invalid_base64_is_rejected() {
    assert!(extract_credentials(Some("Basic !!!notbase64")).is_none());
}

#[test]
fn extract_password_may_hold_colons() {
    // base64("bob:a:b") = "Ym9iOmE6Yg=="
    let creds = extract_credentials(Some("Basic Ym9iOmE6Yg==")).expect("creds");
    assert_eq!(
        creds,
        Credentials::Basic { username: "bob".to_string(), password: "a:b".to_string() }
    );
}

#[test]
fn decode_basic_invalid_utf8_is_rejected() {
    // base64 of the bytes ff fe = "//4="
    assert!(decode_basic("//4=").is_none());
    assert_eq!(
        decode_basic("YWxpY2U6aHVudGVyMg=="),
        Some(Credentials::Basic { username: "alice".to_string(), password: "hunter2".to_string() })
    );
}

#[test]
fn split_basic_cases() {
    assert_eq!(
        split_basic("u:"),
        Some(Credentials::Basic { username: "u".to_string(), password: String::new() })
    );
    assert_eq!(split_basic(":p"), None);
    assert_eq!(split_basic("nocolon"), None);
}

#[test]
fn strip_scheme_cases() {
    assert_eq!(strip_scheme(&chars("Basic   abc"), &chars("Basic")), Some(chars("abc")));
    assert_eq!(strip_scheme(&chars("bAsIc x"), &chars("Basic")), Some(chars("x")));
    assert_eq!(strip_scheme(&chars("Basic"), &chars("Basic")), None);
    assert_eq!(strip_scheme(&chars("Basic   "), &chars("Basic")), None);
    assert_eq!(strip_scheme(&chars("Bearer x"), &chars("Basic")), None);
    // The scheme must be followed by something, not necessarily a space.
    assert_eq!(strip_scheme(&chars("Basicx"), &chars("Basic")), Some(chars("x")));
}

#[test]
fn basic_verdict_outcomes() {
    let p = basic_verdict("alice@example.com", Ok(true)).expect("accepted");
    assert_eq!(p.username, "alice@example.com");
    assert_eq!(p.account_id, "account-alice-example.com");
    assert!(p.scopes.is_empty());
    assert_eq!(basic_verdict("alice", Ok(false)).expect_err("refused"), AuthError::Unauthorized);
    assert_eq!(
        basic_verdict("alice", Err("db down".to_string())).expect_err("backend"),
        AuthError::Backend("db down".to_string())
    );
}

#[test]
fn test_authenticate_basic_ok_principal() {
    let principal = basic_verdict("alice", Ok(true)).expect("auth ok");
    assert_eq!(principal.username, "alice");
    assert_eq!(principal.account_id, "account-alice");
}

#[test]
fn bearer_verdict_outcomes() {
    let p = bearer_verdict(Some("carol".to_string())).expect("accepted");
    assert_eq!(p.username, "carol");
    assert_eq!(p.account_id, "account-carol");
    assert_eq!(bearer_verdict(None).expect_err("refused"), AuthError::Unauthorized);
}

#[test]
fn auth_error_bodies() {
    let e = AuthError::Unauthorized.error_body();
    assert_eq!(e.error_type, JmapErrorType::ServerFail);
    assert_eq!(e.status, Some(401));
    assert_eq!(e.detail.as_deref(), Some("Authentication required"));
    let b = AuthError::Backend("x".to_string()).error_body();
    assert_eq!(b.detail.as_deref(), Some("Authentication backend error"));
    assert_eq!(UNAUTHORIZED_STATUS, 401);
    assert_eq!(WWW_AUTHENTICATE_VALUE, "Basic realm=\"jmap\"");
}
