use chat_sync::common::{validate_pwd, validate_pwd_confirm, token_from, identity_of, ErrorKind,
    CurrentUser};

fn validation_message(r: Result<(), ErrorKind>) -> String {
    match r {
        Err(ErrorKind::ValidationError(m)) => m,
        Err(ErrorKind::OtherError(m)) => panic!("unexpected error kind: {}", m),
        Ok(()) => panic!("expected a validation error"),
    }
}

#[test]
fn empty_password_is_reported() {
    assert_eq!(validation_message(validate_pwd("")), "please type in password");
}

#[test]
fn well_formed_passwords_pass() {
    assert!(validate_pwd("abc123").is_ok());
    assert!(validate_pwd("Zx_90__").is_ok());
    assert!(validate_pwd("a23456789012345678").is_ok()); // 18 characters
}

#[test]
fn malformed_passwords_are_refused() {
    let msg = "invalid passowrd: length>=6, a-z and 0-9 is demanded";
    assert_eq!(validation_message(validate_pwd("abc12")), msg); // too short
    assert_eq!(validation_message(validate_pwd("a234567890123456789")), msg); // 19 characters
    assert_eq!(validation_message(validate_pwd("1abcde")), msg); // starts with a digit
    assert_eq!(validation_message(validate_pwd("_abcde")), msg); // starts with underscore
    assert_eq!(validation_message(validate_pwd("abc de")), msg); // space is no word character
}

#[test]
fn confirmation_must_repeat_the_password() {
    assert!(validate_pwd_confirm("abc123", "abc123").is_ok());
    assert_eq!(
        validation_message(validate_pwd_confirm("abc123", "abc124")),
        "confirm password must as same as password"
    );
    assert_eq!(
        validation_message(validate_pwd_confirm("abc123", "")),
        "please type in password"
    );
    assert_eq!(
        validation_message(validate_pwd_confirm("abc123", "bad")),
        "invalid passowrd: length>=6, a-z and 0-9 is demanded"
    );
}

#[test]
fn token_lookup_result_is_exact() {
    match token_from(Some("SECRET-REDACTED".to_string())) {
        Ok(t) => assert_eq!(t, "SECRET-REDACTED"),
        Err(_) => panic!("a stored token must be returned"),
    }
    match token_from(None) {
        Err(ErrorKind::OtherError(m)) => assert_eq!(m, "get token failed"),
        _ => panic!("a missing token must be the token error"),
    }
}

fn user(name: Option<&str>) -> CurrentUser {
    CurrentUser {
        id: 1,
        kind: "admin".to_string(),
        email: "a@example.com".to_string(),
        name: name.map(|s| s.to_string()),
        mobile: None,
        laston: None,
        created_at: "2024-01-01".to_string(),
        updated_at: None,
        expire_at: "2034-01-01".to_string(),
    }
}

#[test]
fn identity_prefers_the_name_and_falls_back_to_email() {
    let with_name = identity_of(&user(Some("Alice")));
    assert_eq!(with_name.session_id, "Alice");
    assert_eq!(with_name.display_name, "Alice");

    let without = identity_of(&user(None));
    assert_eq!(without.session_id, "a@example.com");
    assert_eq!(without.display_name, "a@example.com");
}
