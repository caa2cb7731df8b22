use vstd::prelude::*;
use crate::fault::Fault;

verus! {

/// How long an issued token stays valid, in seconds past its issue time.
pub const TOKEN_TTL_SECONDS: u64 = 10000;

/// Claims carried by a session token: the subject's id and the validity
/// window `[nbf, exp]` in seconds since the epoch.
#[derive(Debug)]
pub struct AuthUser {
    pub id: String,
    pub exp: u64,
    pub nbf: u64,
}

impl Clone for AuthUser {
    fn clone(&self) -> (r: Self)
        ensures
            r.id@ == self.id@,
            r.exp == self.exp,
            r.nbf == self.nbf,
    {
        AuthUser { id: self.id.clone(), exp: self.exp, nbf: self.nbf }
    }
}

/// An identity that arrived through a validated session token.
#[derive(Debug)]
pub struct JWTAuthorization(pub AuthUser);

impl Clone for JWTAuthorization {
    fn clone(&self) -> (r: Self)
        ensures
            r.0.id@ == self.0.id@,
            r.0.exp == self.0.exp,
            r.0.nbf == self.0.nbf,
    {
        JWTAuthorization(self.0.clone())
    }
}

/// The signed compact token that embedding `{id, nbf, exp}` under `secret`
/// produces. Signing is deterministic in the claims and the secret, so the
/// token is a function of these arguments alone.
pub uninterp spec fn token_of(id: Seq<char>, nbf: u64, exp: u64, secret: Seq<u8>) -> Seq<char>;

/// Relies on jsonwebtoken::encode: a token signed with `secret` embeds
/// exactly the claims handed to it, deterministically; and for an HMAC
/// secret with the default HS256 header, signing cannot fail (the HMAC
/// signer accepts any key length and its signing step is infallible, as is
/// serializing this claims object), so encoding always succeeds.
#[verifier::external_body]
fn jwt_encode(claims: &AuthUser, secret: &[u8]) -> (r: Result<String, Fault>)
    ensures
        r is Ok,
        r matches Ok(t) ==> t@ == token_of(claims.id@, claims.nbf, claims.exp, secret@),
{
    let mut m = serde_json::Map::new();
    m.insert("id".to_owned(), serde_json::Value::String(claims.id.clone()));
    m.insert("nbf".to_owned(), serde_json::Value::from(claims.nbf));
    m.insert("exp".to_owned(), serde_json::Value::from(claims.exp));
    let key = jsonwebtoken::EncodingKey::from_secret(secret);
    jsonwebtoken::encode(&jsonwebtoken::Header::default(), &serde_json::Value::Object(m), &key)
        .map_err(|_| Fault::Infrastructure)
}

/// Relies on jsonwebtoken::decode with signature-only validation: a token
/// minted by `jwt_encode` under the same secret always passes (the HS256
/// check recomputes the MAC, and the only required claim, `exp`, is always
/// present), and decoding such a token returns exactly the claims that were
/// embedded. Nothing is claimed of accepted tokens in general: a correctly
/// signed token that differs from the canonical encoding (say, by an extra
/// claim) also decodes.
#[verifier::external_body]
fn jwt_decode(token: &str, secret: &[u8]) -> (r: Result<AuthUser, Fault>)
    ensures
        r matches Ok(c) ==> forall|id: Seq<char>, nbf: u64, exp: u64|
            token@ == token_of(id, nbf, exp, secret@) ==> c.id@ == id && c.nbf == nbf && c.exp
                == exp,
        r is Err ==> forall|id: Seq<char>, nbf: u64, exp: u64|
            token@ != token_of(id, nbf, exp, secret@),
{
    let mut v = jsonwebtoken::Validation::new(jsonwebtoken::Algorithm::HS256);
    v.validate_exp = false;
    let key = jsonwebtoken::DecodingKey::from_secret(secret);
    let c = match jsonwebtoken::decode::<serde_json::Value>(token, &key, &v) {
        Ok(d) => d.claims,
        Err(_) => return Err(Fault::Auth),
    };
    match (c.get("id"), c.get("nbf"), c.get("exp")) {
        (Some(serde_json::Value::String(id)), Some(n), Some(e)) => match (n.as_u64(), e.as_u64()) {
            (Some(nbf), Some(exp)) => Ok(AuthUser { id: id.clone(), nbf, exp }),
            _ => Err(Fault::Auth),
        },
        _ => Err(Fault::Auth),
    }
}

/// Relies on std::time::SystemTime: seconds since the Unix epoch. Panics if
/// the system clock reads before the epoch, an environmental failure.
#[verifier::external_body]
fn system_epoch_seconds() -> u64 {
    std::time::SystemTime::now()
        .duration_since(std::time::UNIX_EPOCH)
        .expect("Time went backwards")
        .as_secs()
}

/// The current time as seconds since the Unix epoch, read from the system
/// clock; nothing is assumed of the value read.
pub fn get_current_timestamp() -> u64 {
    system_epoch_seconds()
}

/// Mints the session token for `id` as of time `now`: valid from `now`
/// through `now + TOKEN_TTL_SECONDS`. Succeeds whenever the expiry fits the
/// clock's type; the sole error is that overflow.
pub fn create_jwt(id: &str, now: u64, secret: &[u8]) -> (r: Result<String, Fault>)
    ensures
        now + TOKEN_TTL_SECONDS <= u64::MAX ==> r is Ok,
        r matches Ok(t) ==> now + TOKEN_TTL_SECONDS <= u64::MAX && t@ == token_of(
            id@,
            now,
            (now + TOKEN_TTL_SECONDS) as u64,
            secret@,
        ),
        now + TOKEN_TTL_SECONDS > u64::MAX ==> (r matches Err(f) && f == Fault::Validation),
{
    if now > u64::MAX - TOKEN_TTL_SECONDS {
        return Err(Fault::Validation);
    }
    let claims = AuthUser { id: id.to_owned(), exp: now + TOKEN_TTL_SECONDS, nbf: now };
    jwt_encode(&claims, secret)
}

/// Validates a session token as of time `now`: the signature must check out
/// under `secret` and `now` must lie inside the token's `[nbf, exp]` window.
/// A token minted at time `t0` is accepted, with exactly its minted claims,
/// at every `now` in `[t0, t0 + TOKEN_TTL_SECONDS]` and rejected strictly
/// outside that window; every reason for rejection surfaces as the same
/// `Fault::Auth`, and any accepted token is inside its own window.
pub fn verify_jwt(token: &str, now: u64, secret: &[u8]) -> (r: Result<AuthUser, Fault>)
    ensures
        r matches Ok(u) ==> u.nbf <= now <= u.exp,
        forall|id: Seq<char>, nbf: u64, exp: u64|
            token@ == token_of(id, nbf, exp, secret@) && nbf <= now <= exp ==> (r matches Ok(u)
                && u.id@ == id && u.nbf == nbf && u.exp == exp),
        forall|id: Seq<char>, nbf: u64, exp: u64|
            token@ == token_of(id, nbf, exp, secret@) && !(nbf <= now <= exp) ==> (r matches Err(f)
                && f == Fault::Auth),
{
    let claims = match jwt_decode(token, secret) {
        Ok(c) => c,
        Err(_) => {
            return Err(Fault::Auth);
        },
    };
    if claims.nbf <= now && now <= claims.exp {
        Ok(claims)
    } else {
        Err(Fault::Auth)
    }
}

/// What is left of a transported token after stripping every leading and
/// trailing quote character.
pub open spec fn trim_quotes(s: Seq<char>) -> Seq<char>
    decreases s.len(),
{
    if s.len() > 0 && s[0] == '"' {
        trim_quotes(s.drop_first())
    } else if s.len() > 0 && s[s.len() - 1] == '"' {
        trim_quotes(s.drop_last())
    } else {
        s
    }
}

/// Strips incidental quoting picked up in transport from around a bearer
/// token, leaving the token itself untouched.
pub fn strip_token_quotes(s: &str) -> (r: String)
    ensures
        r@ == trim_quotes(s@),
{
    let chars = crate::text::str_to_chars(s);
    let n = chars.len();
    let mut lo: usize = 0;
    let mut hi: usize = n;
    proof {
        assert(chars@.subrange(0, n as int) =~= chars@);
    }
    while lo < hi && chars[lo] == '"'
        invariant
            0 <= lo <= hi <= n,
            n == chars.len(),
            chars@ == s@,
            trim_quotes(s@) == trim_quotes(chars@.subrange(lo as int, hi as int)),
        decreases hi - lo,
    {
        proof {
            assert(chars@.subrange(lo as int, hi as int).drop_first() =~= chars@.subrange(
                lo as int + 1,
                hi as int,
            ));
        }
        lo = lo + 1;
    }
    while lo < hi && chars[hi - 1] == '"'
        invariant
            0 <= lo <= hi <= n,
            n == chars.len(),
            chars@ == s@,
            trim_quotes(s@) == trim_quotes(chars@.subrange(lo as int, hi as int)),
            lo < hi ==> chars@[lo as int] != '"',
        decreases hi - lo,
    {
        proof {
            assert(chars@.subrange(lo as int, hi as int).drop_last() =~= chars@.subrange(
                lo as int,
                hi as int - 1,
            ));
        }
        hi = hi - 1;
    }
    let mut out: Vec<char> = Vec::new();
    let mut i: usize = lo;
    while i < hi
        invariant
            lo <= i <= hi <= n,
            n == chars.len(),
            out@ == chars@.subrange(lo as int, i as int),
        decreases hi - i,
    {
        out.push(chars[i]);
        i = i + 1;
        assert(out@ =~= chars@.subrange(lo as int, i as int));
    }
    proof {
        let mid = chars@.subrange(lo as int, hi as int);
        assert(trim_quotes(mid) == mid);
        assert(out@ =~= mid);
    }
    crate::text::chars_to_string(&out)
}

} // verus!
