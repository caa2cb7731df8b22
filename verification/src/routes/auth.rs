use vstd::prelude::*;
use argon2::PasswordHasher;
use argon2::PasswordVerifier;
use unicode_normalization::UnicodeNormalization;
use crate::fault::Fault;
use crate::ops::user::{get_user, get_user_by_email, insert_user, stored_user, User, UserV};
use crate::security::{create_jwt, token_of, JWTAuthorization, TOKEN_TTL_SECONDS};
use crate::store::{email_index, email_taken, has_user_id, user_index, user_shape_ok, Store, StoreV};

verus! {

/// Normalized form of a password: compatibility composition, so visually
/// identical inputs with different code-point sequences hash alike.
pub uninterp spec fn nfkc_of(s: Seq<char>) -> Seq<char>;

/// Whether the one-way digest was derived from exactly this password.
pub uninterp spec fn digest_matches(password: Seq<char>, digest: Seq<char>) -> bool;

/// Whether the verifier accepts the digest as a well-formed parameter
/// string of its own algorithm.
pub uninterp spec fn digest_ok(digest: Seq<char>) -> bool;

/// Relies on unicode_normalization's nfkc: the composed form depends on the
/// characters alone, and normalizing an already normalized string leaves it
/// unchanged.
#[verifier::external_body]
pub fn normalize(pass: &str) -> (r: String)
    ensures
        r@ == nfkc_of(pass@),
        nfkc_of(r@) == r@,
{
    pass.nfkc().collect::<String>()
}

/// Relies on argon2's PasswordHasher::hash_password with a fresh random
/// salt: the returned PHC digest embeds algorithm, parameters and salt, is
/// accepted back by the verifier, and matches exactly the password it was
/// derived from, whatever salt was drawn.
#[verifier::external_body]
fn argon2_hash(password: &str) -> (r: Result<String, Fault>)
    ensures
        r matches Ok(d) ==> digest_ok(d@) && digest_matches(password@, d@),
        r matches Err(f) ==> f == Fault::Infrastructure,
{
    argon2::Argon2::default()
        .hash_password(password.as_bytes())
        .map(|h| h.to_string())
        .map_err(|_| Fault::Infrastructure)
}

/// Relies on argon2's PasswordVerifier::verify_password: recomputation under
/// the digest's embedded parameters depends on password and digest alone; a
/// wrong password is the distinguished PasswordInvalid outcome, and whether
/// the pipeline yields a verdict or fails is decided by the digest alone
/// (parse, algorithm, version, parameters and salt all come from it), so the
/// verdict-vs-error split is exactly `digest_ok`.
#[verifier::external_body]
fn argon2_verify(password: &str, digest: &str) -> (r: Result<bool, Fault>)
    ensures
        r is Ok <==> digest_ok(digest@),
        r matches Ok(b) ==> b == digest_matches(password@, digest@),
        r matches Err(f) ==> f == Fault::Infrastructure,
{
    match argon2::Argon2::default().verify_password(password.as_bytes(), digest) {
        Ok(()) => Ok(true),
        Err(password_hash::Error::PasswordInvalid) => Ok(false),
        Err(_) => Err(Fault::Infrastructure),
    }
}

/// Creates a salted one-way digest of the normalized password. A returned
/// digest is well-formed and matches exactly the normalized password, so
/// verifying the same password against it succeeds.
pub fn hash_password(password: &str) -> (r: Result<String, Fault>)
    ensures
        r matches Ok(d) ==> digest_ok(d@) && digest_matches(nfkc_of(password@), d@),
        r matches Err(f) ==> f == Fault::Infrastructure,
{
    let normalized = normalize(password);
    argon2_hash(normalized.as_str())
}

/// Verifies that the given password results in the given digest, after the
/// same normalization. `Ok(false)` is a genuine mismatch; an error is taken
/// exactly when the verifier does not accept the digest, never for a wrong
/// password, so callers can tell wrong credentials from corrupt data.
pub fn verify_password(password: &str, hash: &str) -> (r: Result<bool, Fault>)
    ensures
        r is Ok <==> digest_ok(hash@),
        r matches Ok(b) ==> b == digest_matches(nfkc_of(password@), hash@),
{
    let normalized = normalize(password);
    argon2_verify(normalized.as_str(), hash)
}

/// Normalization idempotence: hashing a password that was already
/// normalized promises exactly what hashing the raw password promises, since
/// normalizing twice is normalizing once. The two digests are therefore
/// interchangeable for verification.
pub fn hash_password_prenormalized(password: &str) -> (r: Result<String, Fault>)
    ensures
        r matches Ok(d) ==> digest_ok(d@) && digest_matches(nfkc_of(password@), d@),
        r matches Err(f) ==> f == Fault::Infrastructure,
{
    let normalized = normalize(password);
    hash_password(normalized.as_str())
}

/// The authentication endpoints: registration, login, and profile fetch.
pub struct AuthAPI;

pub enum RegisterResponse {
    Success(String),
    UserAlreadyExists,
    BadRequest,
    Internal,
}

pub enum LoginResponse {
    Success(String),
    Unauthorized,
    Internal,
}

pub struct LoginRequest {
    pub email: String,
    pub password: String,
}

pub ghost struct LoginRequestV {
    pub email: Seq<char>,
    pub password: Seq<char>,
}

impl View for LoginRequest {
    type V = LoginRequestV;

    open spec fn view(&self) -> LoginRequestV {
        LoginRequestV { email: self.email@, password: self.password@ }
    }
}

pub struct RegisterRequest {
    pub name: String,
    pub email: Option<String>,
    pub password: Option<String>,
    pub avatar_seed: String,
    pub is_guest: bool,
}

pub ghost struct RegisterRequestV {
    pub name: Seq<char>,
    pub email: Option<Seq<char>>,
    pub password: Option<Seq<char>>,
    pub avatar_seed: Seq<char>,
    pub is_guest: bool,
}

impl View for RegisterRequest {
    type V = RegisterRequestV;

    open spec fn view(&self) -> RegisterRequestV {
        RegisterRequestV {
            name: self.name@,
            email: self.email.deep_view(),
            password: self.password.deep_view(),
            avatar_seed: self.avatar_seed@,
            is_guest: self.is_guest,
        }
    }
}

/// The profile fetch outcome. The row is returned whole, digest included;
/// hiding the digest from clients is the transport serializer's duty, an
/// external collaborator here.
pub enum GetUserResponse {
    Success(User),
    NotFound,
    Internal,
}

/// The user row a registration stores: a guest carries neither email nor
/// digest; a non-guest carries the request's email and a digest of its
/// password.
pub open spec fn registered_row(
    rv: RegisterRequestV,
    id: Seq<char>,
    digest: Option<Seq<char>>,
    now: u64,
) -> UserV {
    UserV {
        id,
        name: rv.name,
        email: if rv.is_guest {
            None
        } else {
            rv.email
        },
        hash: digest,
        is_guest: rv.is_guest,
        avatar_seed: rv.avatar_seed,
        created_at: now,
        updated_at: None,
        score: 0,
    }
}

/// One witness pair explaining a successful registration: the fresh id, and
/// the digest stored for a non-guest.
pub open spec fn register_success(
    pre: StoreV,
    post: StoreV,
    rv: RegisterRequestV,
    t: Seq<char>,
    id: Seq<char>,
    digest: Option<Seq<char>>,
    now: u64,
    secret: Seq<u8>,
) -> bool {
    &&& !has_user_id(pre.users, id)
    &&& (rv.is_guest ==> digest is None)
    &&& (!rv.is_guest ==> rv.password is Some && digest is Some)
    &&& (!rv.is_guest ==> (rv.password matches Some(pw) ==> (digest matches Some(dg)
        ==> digest_ok(dg) && digest_matches(nfkc_of(pw), dg))))
    &&& post == pre.with_users(pre.users.push(registered_row(rv, id, digest, now)))
    &&& now + TOKEN_TTL_SECONDS <= u64::MAX
    &&& t == token_of(id, now, (now + TOKEN_TTL_SECONDS) as u64, secret)
}

impl AuthAPI {
    /// Registers a candidate identity and mints its first session token. A
    /// non-guest request without password or email is rejected before any
    /// row is written, and those are the only bad requests; a colliding
    /// email is the normal "already exists" outcome, not an error. A guest
    /// registration against an empty registry always succeeds; an internal
    /// fault leaves the store unchanged, or — when only token minting failed
    /// — with exactly the new row written.
    pub fn register(
        &self,
        store: &mut Store,
        req: &RegisterRequest,
        now: u64,
        secret: &[u8],
    ) -> (r: RegisterResponse)
        requires
            old(store)@.wf(),
        ensures
            final(store)@.wf(),
            (!req.is_guest && req@.password is None) ==> r is BadRequest && final(store)@ == old(store)@,
            (!req.is_guest && req@.email is None) ==> (r is BadRequest || r is Internal) && final(store)@ == old(store)@,
            r is BadRequest ==> !req.is_guest && (req@.password is None || req@.email is None)
                && final(store)@ == old(store)@,
            r is UserAlreadyExists ==> final(store)@ == old(store)@ && old(store)@.users.len() > 0,
            (!req.is_guest && req@.password is Some) ==> (req@.email matches Some(e) ==> (
            email_taken(old(store)@.users, e) ==> (r is UserAlreadyExists || r is Internal))),
            (req.is_guest && now + TOKEN_TTL_SECONDS <= u64::MAX) ==> (r is Success || r
                is UserAlreadyExists),
            (req.is_guest && old(store)@.users.len() == 0 && now + TOKEN_TTL_SECONDS <= u64::MAX)
                ==> r is Success,
            r is Internal ==> final(store)@ == old(store)@ || (exists|
                id: Seq<char>,
                digest: Option<Seq<char>>,
            |
                #![auto]
                final(store)@ == old(store)@.with_users(
                    old(store)@.users.push(registered_row(req@, id, digest, now)),
                )),
            r matches RegisterResponse::Success(t) ==> exists|id: Seq<char>, digest: Option<Seq<char>>|
                #[trigger] register_success(
                    old(store)@,
                    final(store)@,
                    req@,
                    t@,
                    id,
                    digest,
                    now,
                    secret@,
                ),
    {
        let mut user = User {
            id: String::new(),
            name: req.name.clone(),
            email: None,
            hash: None,
            is_guest: req.is_guest,
            avatar_seed: req.avatar_seed.clone(),
            created_at: 0,
            updated_at: None,
            score: 0,
        };
        if !req.is_guest {
            let password = match &req.password {
                Some(p) => p,
                None => {
                    return RegisterResponse::BadRequest;
                },
            };
            let digest = match hash_password(password.as_str()) {
                Ok(h) => h,
                Err(_) => {
                    return RegisterResponse::Internal;
                },
            };
            let email = match &req.email {
                Some(e) => e,
                None => {
                    return RegisterResponse::BadRequest;
                },
            };
            user.hash = Some(digest);
            user.email = Some(email.clone());
        }
        proof {
            assert(user_shape_ok(user@));
        }
        let ghost olds = store@;
        let id = match insert_user(store, &user, now) {
            Ok(Some(id)) => id,
            Ok(None) => {
                proof {
                    match user@.email {
                        Some(e) => {
                            if email_taken(olds.users, e) {
                                let w = choose|i: int|
                                    0 <= i < olds.users.len() && (
                                    #[trigger] olds.users[i]).email == Some(e);
                                assert(olds.users.len() > 0);
                            }
                        },
                        None => {},
                    }
                }
                return RegisterResponse::UserAlreadyExists;
            },
            Err(_) => {
                proof {
                    assert(false);
                }
                return RegisterResponse::Internal;
            },
        };
        let token = match create_jwt(id.as_str(), now, secret) {
            Ok(t) => t,
            Err(_) => {
                proof {
                    assert(stored_user(id@, user@, now) == registered_row(
                        req@,
                        id@,
                        user@.hash,
                        now,
                    ));
                    assert(store@ == olds.with_users(
                        olds.users.push(registered_row(req@, id@, user@.hash, now)),
                    ));
                }
                return RegisterResponse::Internal;
            },
        };
        let result = RegisterResponse::Success(token);
        proof {
            match &result {
                RegisterResponse::Success(t) => {
                    assert(register_success(
                        olds,
                        store@,
                        req@,
                        t@,
                        id@,
                        user@.hash,
                        now,
                        secret@,
                    )) by {
                        assert(stored_user(id@, user@, now) == registered_row(
                            req@,
                            id@,
                            user@.hash,
                            now,
                        ));
                    }
                },
                _ => {},
            }
        }
        result
    }

    /// Authenticates by email and password. Once the token expiry fits the
    /// clock's type, the outcome is exact: correct credentials yield a
    /// token, and an unknown email, an absent digest, an unreadable digest
    /// and a genuine mismatch all surface as the same `Unauthorized`, so the
    /// response class leaks nothing about whether the account exists.
    pub fn login(&self, store: &Store, req: &LoginRequest, now: u64, secret: &[u8]) -> (r:
        LoginResponse)
        requires
            store@.wf(),
        ensures
            !email_taken(store@.users, req@.email) ==> r is Unauthorized,
            r matches LoginResponse::Success(t) ==> ({
                let u = store@.users[email_index(store@.users, req@.email)];
                &&& email_taken(store@.users, req@.email)
                &&& u.hash matches Some(h) && digest_matches(nfkc_of(req@.password), h)
                &&& now + TOKEN_TTL_SECONDS <= u64::MAX
                &&& t@ == token_of(u.id, now, (now + TOKEN_TTL_SECONDS) as u64, secret@)
            }),
            (email_taken(store@.users, req@.email) && now + TOKEN_TTL_SECONDS > u64::MAX) ==> r
                is Internal,
            (email_taken(store@.users, req@.email) && now + TOKEN_TTL_SECONDS <= u64::MAX) ==> ({
                let u = store@.users[email_index(store@.users, req@.email)];
                &&& (u.hash matches Some(h) && digest_ok(h) && digest_matches(
                    nfkc_of(req@.password),
                    h,
                )) ==> r is Success
                &&& (u.hash matches Some(h) && !digest_matches(nfkc_of(req@.password), h)) ==> r
                    is Unauthorized
                &&& (u.hash matches Some(h) && !digest_ok(h)) ==> r is Unauthorized
                &&& u.hash is None ==> r is Unauthorized
            }),
    {
        let db_user = match get_user_by_email(store, req.email.as_str()) {
            Some(u) => u,
            None => {
                return LoginResponse::Unauthorized;
            },
        };
        let token = match create_jwt(db_user.id.as_str(), now, secret) {
            Ok(t) => t,
            Err(_) => {
                return LoginResponse::Internal;
            },
        };
        match &db_user.hash {
            Some(h) => match verify_password(req.password.as_str(), h.as_str()) {
                Ok(true) => LoginResponse::Success(token),
                _ => LoginResponse::Unauthorized,
            },
            None => LoginResponse::Unauthorized,
        }
    }

    /// Fetches the profile of the authenticated identity.
    pub fn get_user(&self, store: &Store, auth: &JWTAuthorization) -> (r: GetUserResponse)
        requires
            store@.wf(),
        ensures
            has_user_id(store@.users, auth.0.id@) ==> (r matches GetUserResponse::Success(u) && u@
                == store@.users[user_index(store@.users, auth.0.id@)]),
            !has_user_id(store@.users, auth.0.id@) ==> r is NotFound,
    {
        match get_user(store, auth.0.id.as_str()) {
            Some(u) => GetUserResponse::Success(u),
            None => GetUserResponse::NotFound,
        }
    }
}

} // verus!
