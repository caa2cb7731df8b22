use quizcore::ops::user::get_user_by_email;
use quizcore::routes::auth::{
    hash_password, hash_password_prenormalized, normalize, verify_password, AuthAPI,
    GetUserResponse, LoginRequest, LoginResponse, RegisterRequest, RegisterResponse,
};
use quizcore::security::{verify_jwt, JWTAuthorization};
use quizcore::store::Store;

const SECRET: &[u8] = b"test-signing-secret";

fn guest_request() -> RegisterRequest {
    RegisterRequest {
        name: "guesty".to_owned(),
        email: None,
        password: None,
        avatar_seed: "seed".to_owned(),
        is_guest: true,
    }
}

fn member_request(email: &str, password: &str) -> RegisterRequest {
    RegisterRequest {
        name: "member".to_owned(),
        email: Some(email.to_owned()),
        password: Some(password.to_owned()),
        avatar_seed: "seed".to_owned(),
        is_guest: false,
    }
}

#[test]
fn hash_verify_round_trip() {
    let digest = hash_password("hunter2").unwrap();
    assert_eq!(verify_password("hunter2", digest.as_str()).unwrap(), true);
    assert_eq!(verify_password("hunter3", digest.as_str()).unwrap(), false);
}

#[test]
fn verify_distinguishes_malformed_digest() {
    let r = verify_password("hunter2", "not a phc string");
    assert!(r.is_err());
}

#[test]
fn normalization_equates_code_point_sequences() {
    // "é" composed (U+00E9) and decomposed (e + U+0301) hash interchangeably
    let composed = "caf\u{00e9}";
    let decomposed = "cafe\u{0301}";
    assert_eq!(normalize(composed), normalize(decomposed));
    let digest = hash_password(decomposed).unwrap();
    assert_eq!(verify_password(composed, digest.as_str()).unwrap(), true);
}

#[test]
fn prenormalized_hash_is_interchangeable() {
    let digest = hash_password_prenormalized("pa\u{0308}ss").unwrap();
    assert_eq!(verify_password("p\u{00e4}ss", digest.as_str()).unwrap(), true);
}

#[test]
fn register_guest_without_credentials() {
    let mut store = Store::new();
    let api = AuthAPI;
    let token = match api.register(&mut store, &guest_request(), 1000, SECRET) {
        RegisterResponse::Success(t) => t,
        _ => panic!("guest registration failed"),
    };
    let claims = verify_jwt(token.as_str(), 1000, SECRET).unwrap();
    let user = quizcore::ops::user::get_user(&store, claims.id.as_str()).unwrap();
    assert!(user.hash.is_none());
    assert!(user.email.is_none());
    assert!(user.is_guest);
}

#[test]
fn register_member_requires_password() {
    let mut store = Store::new();
    let api = AuthAPI;
    let mut req = member_request("a@x.com", "pw");
    req.password = None;
    let r = api.register(&mut store, &req, 0, SECRET);
    assert!(matches!(r, RegisterResponse::BadRequest));
    assert_eq!(store.users.len(), 0);
}

#[test]
fn register_duplicate_email_conflicts() {
    let mut store = Store::new();
    let api = AuthAPI;
    let r1 = api.register(&mut store, &member_request("a@x.com", "one"), 0, SECRET);
    assert!(matches!(r1, RegisterResponse::Success(_)));
    let r2 = api.register(&mut store, &member_request("a@x.com", "two"), 0, SECRET);
    assert!(matches!(r2, RegisterResponse::UserAlreadyExists));
    assert_eq!(store.users.len(), 1);
}

#[test]
fn login_round_trip() {
    let mut store = Store::new();
    let api = AuthAPI;
    api.register(&mut store, &member_request("a@x.com", "pw123"), 0, SECRET);
    let ok = api.login(
        &store,
        &LoginRequest { email: "a@x.com".to_owned(), password: "pw123".to_owned() },
        5,
        SECRET,
    );
    let token = match ok {
        LoginResponse::Success(t) => t,
        _ => panic!("expected a token"),
    };
    let claims = verify_jwt(token.as_str(), 5, SECRET).unwrap();
    let user = get_user_by_email(&store, "a@x.com").unwrap();
    assert_eq!(claims.id, user.id);

    let wrong = api.login(
        &store,
        &LoginRequest { email: "a@x.com".to_owned(), password: "nope".to_owned() },
        5,
        SECRET,
    );
    assert!(matches!(wrong, LoginResponse::Unauthorized));

    let unknown = api.login(
        &store,
        &LoginRequest { email: "b@x.com".to_owned(), password: "pw123".to_owned() },
        5,
        SECRET,
    );
    assert!(matches!(unknown, LoginResponse::Unauthorized));
}

#[test]
fn profile_of_authenticated_identity() {
    let mut store = Store::new();
    let api = AuthAPI;
    let token = match api.register(&mut store, &guest_request(), 0, SECRET) {
        RegisterResponse::Success(t) => t,
        _ => panic!("registration failed"),
    };
    let claims = verify_jwt(token.as_str(), 0, SECRET).unwrap();
    let auth = JWTAuthorization(claims);
    match api.get_user(&store, &auth) {
        GetUserResponse::Success(u) => assert_eq!(u.name, "guesty"),
        _ => panic!("expected the profile"),
    }
    let ghost_auth = JWTAuthorization(quizcore::security::AuthUser {
        id: "missing".to_owned(),
        exp: 10,
        nbf: 0,
    });
    assert!(matches!(api.get_user(&store, &ghost_auth), GetUserResponse::NotFound));
}
