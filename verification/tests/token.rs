use quizcore::security::{
    create_jwt, get_current_timestamp, strip_token_quotes, verify_jwt, TOKEN_TTL_SECONDS,
};

const SECRET: &[u8] = b"another-secret";

#[test]
fn token_accepted_inside_window() {
    let token = create_jwt("user-1", 1000, SECRET).unwrap();
    for now in [1000u64, 1001, 6000, 1000 + TOKEN_TTL_SECONDS] {
        let claims = verify_jwt(token.as_str(), now, SECRET).unwrap();
        assert_eq!(claims.id, "user-1");
        assert_eq!(claims.nbf, 1000);
        assert_eq!(claims.exp, 1000 + TOKEN_TTL_SECONDS);
    }
}

#[test]
fn token_rejected_outside_window() {
    let token = create_jwt("user-1", 1000, SECRET).unwrap();
    assert!(verify_jwt(token.as_str(), 999, SECRET).is_err());
    assert!(verify_jwt(token.as_str(), 1000 + TOKEN_TTL_SECONDS + 1, SECRET).is_err());
}

#[test]
fn token_rejected_under_other_secret() {
    let token = create_jwt("user-1", 1000, SECRET).unwrap();
    assert!(verify_jwt(token.as_str(), 1000, b"different").is_err());
}

#[test]
fn garbage_token_rejected() {
    assert!(verify_jwt("definitely.not.a-token", 1000, SECRET).is_err());
    assert!(verify_jwt("", 1000, SECRET).is_err());
}

#[test]
fn tampered_token_rejected() {
    let token = create_jwt("user-1", 1000, SECRET).unwrap();
    let mut tampered = token.clone();
    tampered.pop();
    tampered.push('A');
    let ok = verify_jwt(token.as_str(), 1000, SECRET).is_ok();
    let bad = verify_jwt(tampered.as_str(), 1000, SECRET).is_ok();
    assert!(ok);
    assert!(!bad);
}

#[test]
fn transport_quotes_are_stripped() {
    assert_eq!(strip_token_quotes("\"abc.def.ghi\""), "abc.def.ghi");
    assert_eq!(strip_token_quotes("abc"), "abc");
    assert_eq!(strip_token_quotes("\"\"\"x\"\""), "x");
    assert_eq!(strip_token_quotes("\"\""), "");
    let token = create_jwt("user-1", 1000, SECRET).unwrap();
    let wrapped = format!("\"{}\"", token);
    let claims = verify_jwt(strip_token_quotes(wrapped.as_str()).as_str(), 1000, SECRET).unwrap();
    assert_eq!(claims.id, "user-1");
}

#[test]
fn clock_reads_a_recent_epoch() {
    let now = get_current_timestamp();
    assert!(now > 1_600_000_000);
}
