//! Requests to the GitHub API for installation tokens: the App JWT's claims,
//! the request's URL, and how responses become tokens or errors.
use crate::text::{
    chars_of, decimal, push_chars, push_decimal, push_signed_decimal, push_str, signed_decimal,
    string_of,
};
use crate::time::{
    add_seconds, in_range, instant_nanos, shifted, timestamp_add_error, valid_instant, Instant,
};
use vstd::prelude::*;

verus! {

/// The GitHub API.
pub const API_URL: &'static str = "https://api.github.com";

/// The version of the GitHub REST API that requests ask for.
pub const API_VERSION: &'static str = "2022-11-28";

/// How long a request may take, in seconds.
pub const REQUEST_TIMEOUT_SECONDS: u64 = 30;

/// How far before now the App JWT's issue time lies, in seconds.
pub const JWT_BACKDATE_SECONDS: i64 = 60;

/// How long after now the App JWT expires, in seconds.
pub const JWT_LIFETIME_SECONDS: i64 = 9 * 60;

/// The status of a created installation token.
pub const CREATED: u16 = 201;

/// `jsonwebtoken::EncodingKey`, a private key that signs JWTs.
#[verifier::external_type_specification]
#[verifier::external_body]
pub struct ExEncodingKey(jsonwebtoken::EncodingKey);

/// Whether `jsonwebtoken::EncodingKey::from_rsa_pem` reads a key from `pem`
/// (`Ok`), or the text of the error it reports (`Err`).
pub uninterp spec fn rsa_pem_outcome(pem: Seq<u8>) -> Result<(), Seq<char>>;

/// Whether a key was read, or the error's text.
pub open spec fn key_outcome(r: Result<jsonwebtoken::EncodingKey, String>) -> Result<(), Seq<char>> {
    match r {
        Ok(_) => Ok(()),
        Err(e) => Err(e@),
    }
}

/// `jsonwebtoken::EncodingKey::from_rsa_pem`: the RSA private key in a PEM
/// document, or the error's text. The contract names the outcome, which
/// depends on the document alone; which documents are accepted, and the key
/// that is read, are left to `jsonwebtoken`.
#[verifier::external_body]
pub fn rsa_key_from_pem(pem: &[u8]) -> (r: Result<jsonwebtoken::EncodingKey, String>)
    ensures
        key_outcome(r) == rsa_pem_outcome(pem@),
{
    match jsonwebtoken::EncodingKey::from_rsa_pem(pem) {
        Ok(key) => Ok(key),
        Err(e) => Err(e.to_string()),
    }
}

/// The App's private key, with the PEM document it was read from.
pub struct SigningKey {
    key: jsonwebtoken::EncodingKey,
    pem: Ghost<Seq<u8>>,
}

impl View for SigningKey {
    type V = Seq<u8>;

    /// The PEM document the key was read from.
    closed spec fn view(&self) -> Seq<u8> {
        self.pem@
    }
}

/// The App's signing key from the PEM file at `path`: the key when
/// `jsonwebtoken` reads one, and otherwise its error, which names the file.
pub fn signing_key(path: &str, pem: &[u8]) -> (r: Result<SigningKey, String>)
    ensures
        match rsa_pem_outcome(pem@) {
            Ok(_) => r matches Ok(k) && k@ == pem@,
            Err(e) => r is Err && r->Err_0@ == "parsing private key "@ + path@ + ": "@ + e,
        },
{
    match rsa_key_from_pem(pem) {
        Ok(key) => Ok(SigningKey { key, pem: Ghost(pem@) }),
        Err(e) => {
            let mut out: Vec<char> = Vec::new();
            push_str(&mut out, "parsing private key ");
            push_str(&mut out, path);
            push_str(&mut out, ": ");
            push_chars(&mut out, &chars_of(e.as_str()));
            proof {
                assert(out@ =~= "parsing private key "@ + path@ + ": "@ + e@);
            }
            Err(string_of(&out))
        },
    }
}

/// The claims of the App JWT: issued at, expires at (seconds since the Unix
/// epoch), and the App ID as issuer.
#[derive(Debug, Clone, Copy, PartialEq, Eq, Structural)]
pub struct Claims {
    pub iat: i64,
    pub exp: i64,
    pub iss: u64,
}

/// The whole seconds of an instant `nanos` nanoseconds after the Unix epoch,
/// rounded toward zero as `jiff::Timestamp::as_second` gives them.
pub open spec fn whole_seconds(nanos: int) -> int {
    if nanos >= 0 {
        nanos / 1_000_000_000
    } else {
        -((-nanos) / 1_000_000_000)
    }
}

/// A valid instant's seconds are its nanoseconds rounded toward zero.
proof fn lemma_whole_seconds(u: Instant)
    requires
        valid_instant(u),
    ensures
        u.second == whole_seconds(instant_nanos(u)),
{
    let n = instant_nanos(u);
    let s = u.second as int;
    let f = u.nanosecond as int;
    if n >= 0 {
        assert(s >= 0) by (nonlinear_arith)
            requires
                n == s * 1_000_000_000 + f,
                -999_999_999 <= f <= 999_999_999,
                f == 0 || s == 0 || (s > 0) == (f > 0),
                n >= 0,
        ;
        assert(f >= 0);
        assert(n / 1_000_000_000 == s) by (nonlinear_arith)
            requires
                n == s * 1_000_000_000 + f,
                0 <= f <= 999_999_999,
                s >= 0,
        ;
    } else {
        assert(s <= 0) by (nonlinear_arith)
            requires
                n == s * 1_000_000_000 + f,
                -999_999_999 <= f <= 999_999_999,
                f == 0 || s == 0 || (s > 0) == (f > 0),
                n < 0,
        ;
        assert(f <= 0);
        assert((-n) / 1_000_000_000 == -s) by (nonlinear_arith)
            requires
                -n == (-s) * 1_000_000_000 + (-f),
                0 <= -f <= 999_999_999,
                -s >= 0,
        ;
    }
}

/// The issue time of the App JWT for `now`, in nanoseconds.
pub open spec fn issued_at(now: Instant) -> int {
    shifted(now, (-JWT_BACKDATE_SECONDS) as i64)
}

/// The expiry of the App JWT for `now`, in nanoseconds.
pub open spec fn expires_at(now: Instant) -> int {
    shifted(now, JWT_LIFETIME_SECONDS)
}

/// The claims of the App JWT for `app_id` at `now`: issued a minute before
/// now, so that a clock a little ahead of GitHub's still works, and expiring
/// nine minutes after now, in whole seconds; `jiff`'s error when either
/// instant is outside its range.
pub fn claims(app_id: u64, now: Instant) -> (r: Result<Claims, String>)
    requires
        valid_instant(now),
    ensures
        in_range(issued_at(now)) && in_range(expires_at(now)) ==> (r matches Ok(c) && c.iss
            == app_id && c.iat == whole_seconds(issued_at(now)) && c.exp == whole_seconds(
            expires_at(now),
        )),
        !in_range(issued_at(now)) ==> (r matches Err(e) && e@ == timestamp_add_error(
            now.second,
            now.nanosecond,
            (-JWT_BACKDATE_SECONDS) as i64,
        )),
        in_range(issued_at(now)) && !in_range(expires_at(now)) ==> (r matches Err(e) && e@
            == timestamp_add_error(now.second, now.nanosecond, JWT_LIFETIME_SECONDS)),
{
    let issued = add_seconds(now, -JWT_BACKDATE_SECONDS);
    let iat = match issued {
        Ok(i) => {
            proof {
                lemma_whole_seconds(i);
            }
            i.second
        },
        Err(e) => {
            return Err(e);
        },
    };
    let expires = add_seconds(now, JWT_LIFETIME_SECONDS);
    let exp = match expires {
        Ok(i) => {
            proof {
                lemma_whole_seconds(i);
            }
            i.second
        },
        Err(e) => {
            return Err(e);
        },
    };
    Ok(Claims { iat, exp, iss: app_id })
}

/// The App JWT's claims for `app_id` at `now`, or `jiff`'s error.
pub open spec fn claims_for(app_id: u64, now: Instant) -> Result<Claims, Seq<char>> {
    if !in_range(issued_at(now)) {
        Err(timestamp_add_error(now.second, now.nanosecond, (-JWT_BACKDATE_SECONDS) as i64))
    } else if !in_range(expires_at(now)) {
        Err(timestamp_add_error(now.second, now.nanosecond, JWT_LIFETIME_SECONDS))
    } else {
        Ok(
            Claims {
                iat: whole_seconds(issued_at(now)) as i64,
                exp: whole_seconds(expires_at(now)) as i64,
                iss: app_id,
            },
        )
    }
}

/// The claims as the JSON object that the App JWT carries:
/// `{"iat":<iat>,"exp":<exp>,"iss":<iss>}`.
pub open spec fn claims_text(c: Claims) -> Seq<char> {
    "{\"iat\":"@ + signed_decimal(c.iat as int) + ",\"exp\":"@ + signed_decimal(c.exp as int)
        + ",\"iss\":"@ + decimal(c.iss as nat) + "}"@
}

/// The claims as the JSON object that the App JWT carries, the fields in the
/// order issued at, expires at, issuer.
pub fn claims_json(c: &Claims) -> (r: String)
    ensures
        r@ == claims_text(*c),
{
    let mut out: Vec<char> = Vec::new();
    push_str(&mut out, "{\"iat\":");
    push_signed_decimal(&mut out, c.iat);
    push_str(&mut out, ",\"exp\":");
    push_signed_decimal(&mut out, c.exp);
    push_str(&mut out, ",\"iss\":");
    push_decimal(&mut out, c.iss);
    push_str(&mut out, "}");
    proof {
        assert(out@ =~= claims_text(*c));
    }
    string_of(&out)
}

/// The algorithms that JWTs are signed with.
#[derive(Debug, Clone, Copy, PartialEq, Eq, Structural)]
pub enum JwtAlgorithm {
    /// RSASSA-PKCS1-v1_5 with SHA-256.
    RS256,
}

/// The JWT that `jsonwebtoken::encode` signs with `algorithm` and the key
/// read from the PEM document `key`, for the JSON object `claims`; or the
/// error's text.
pub uninterp spec fn signed_jwt(algorithm: JwtAlgorithm, key: Seq<u8>, claims: Seq<char>) -> Result<
    Seq<char>,
    Seq<char>,
>;

/// A text result as characters.
pub open spec fn text_outcome(r: Result<String, String>) -> Result<Seq<char>, Seq<char>> {
    match r {
        Ok(t) => Ok(t@),
        Err(e) => Err(e@),
    }
}

/// `jsonwebtoken::encode` with the header of `algorithm`, the JSON object
/// `claims` as the payload, written as it is (a `serde_json::value::RawValue`,
/// which rejects text that is not JSON), and the key. The contract names the
/// token, which signing makes a function of the algorithm, the key, and the
/// claims (PKCS#1 v1.5 signatures are deterministic); which errors can come,
/// and the token's text, are left to `jsonwebtoken`.
#[verifier::external_body]
fn sign_jwt(algorithm: JwtAlgorithm, key: &SigningKey, claims: &str) -> (r: Result<String, String>)
    ensures
        text_outcome(r) == signed_jwt(algorithm, key@, claims@),
{
    let algorithm = match algorithm {
        JwtAlgorithm::RS256 => jsonwebtoken::Algorithm::RS256,
    };
    let claims = match serde_json::value::RawValue::from_string(claims.to_owned()) {
        Ok(raw) => raw,
        Err(e) => return Err(e.to_string()),
    };
    match jsonwebtoken::encode(&jsonwebtoken::Header::new(algorithm), &claims, &key.key) {
        Ok(token) => Ok(token),
        Err(e) => Err(e.to_string()),
    }
}

/// The App JWT that the private key at `path`, whose contents are `pem`,
/// signs with RS256 for `app_id` at `now`, its payload the claims' JSON
/// object: an unreadable key names the file, claims out of range give
/// `jiff`'s error, and a failed signature says so.
pub open spec fn app_jwt_for(path: Seq<char>, pem: Seq<u8>, app_id: u64, now: Instant) -> Result<
    Seq<char>,
    Seq<char>,
> {
    match rsa_pem_outcome(pem) {
        Err(e) => Err("parsing private key "@ + path + ": "@ + e),
        Ok(_) => match claims_for(app_id, now) {
            Err(e) => Err(e),
            Ok(c) => match signed_jwt(JwtAlgorithm::RS256, pem, claims_text(c)) {
                Ok(t) => Ok(t),
                Err(e) => Err("signing the App JWT: "@ + e),
            },
        },
    }
}

/// The App JWT for `app_id` at `now`, signed with the private key at `path`
/// whose contents are `pem`.
pub fn app_jwt(path: &str, pem: &[u8], app_id: u64, now: Instant) -> (r: Result<String, String>)
    requires
        valid_instant(now),
    ensures
        text_outcome(r) == app_jwt_for(path@, pem@, app_id, now),
{
    let key = match signing_key(path, pem) {
        Err(e) => {
            return Err(e);
        },
        Ok(key) => key,
    };
    let c = match claims(app_id, now) {
        Err(e) => {
            return Err(e);
        },
        Ok(c) => c,
    };
    let payload = claims_json(&c);
    match sign_jwt(JwtAlgorithm::RS256, &key, payload.as_str()) {
        Ok(token) => Ok(token),
        Err(e) => {
            let mut out: Vec<char> = Vec::new();
            push_str(&mut out, "signing the App JWT: ");
            push_chars(&mut out, &chars_of(e.as_str()));
            Err(string_of(&out))
        },
    }
}

/// The URL that creates a token for the installation.
pub open spec fn token_url(api_url: Seq<char>, installation_id: u64) -> Seq<char> {
    api_url + "/app/installations/"@ + decimal(installation_id as nat) + "/access_tokens"@
}

/// The URL that creates a token for the installation.
pub fn installation_token_url(api_url: &str, installation_id: u64) -> (r: String)
    ensures
        r@ == token_url(api_url@, installation_id),
{
    let mut out: Vec<char> = Vec::new();
    push_str(&mut out, api_url);
    push_str(&mut out, "/app/installations/");
    push_decimal(&mut out, installation_id);
    push_str(&mut out, "/access_tokens");
    proof {
        assert(out@ =~= token_url(api_url@, installation_id));
    }
    string_of(&out)
}

/// The `Authorization` header for the App JWT.
pub fn bearer(jwt: &str) -> (r: String)
    ensures
        r@ == "Bearer "@ + jwt@,
{
    let mut out: Vec<char> = Vec::new();
    push_str(&mut out, "Bearer ");
    push_str(&mut out, jwt);
    string_of(&out)
}

/// What an error status hints at.
pub open spec fn status_hint(code: u16) -> Seq<char> {
    if 300 <= code <= 399 {
        " (redirects are not followed)"@
    } else if code == 401 {
        " (check app_id, the private key, and the system clock)"@
    } else if code == 404 {
        " (check app_id, installation_id, and that the App is installed)"@
    } else {
        Seq::empty()
    }
}

/// The error for a response with status `code`, with the `message` of its
/// JSON body when the body has one.
pub open spec fn api_error_text(code: u16, message: Option<Seq<char>>) -> Seq<char> {
    let head = "GitHub returned HTTP "@ + decimal(code as nat) + status_hint(code);
    match message {
        Some(m) => head + ": "@ + m,
        None => head,
    }
}

/// An optional string as characters.
pub open spec fn option_view(o: Option<String>) -> Option<Seq<char>> {
    match o {
        Some(s) => Some(s@),
        None => None,
    }
}

/// The error for a response with status `code`: the status, a hint for
/// redirects, 401, and 404, and the `message` of the body's JSON when it
/// has one. The rest of the body is left out.
pub fn api_error(code: u16, message: Option<String>) -> (r: String)
    ensures
        r@ == api_error_text(code, option_view(message)),
{
    let mut out: Vec<char> = Vec::new();
    push_str(&mut out, "GitHub returned HTTP ");
    push_decimal(&mut out, code as u64);
    if 300 <= code && code <= 399 {
        push_str(&mut out, " (redirects are not followed)");
    } else if code == 401 {
        push_str(&mut out, " (check app_id, the private key, and the system clock)");
    } else if code == 404 {
        push_str(&mut out, " (check app_id, installation_id, and that the App is installed)");
    }
    let ghost head = out@;
    proof {
        assert(head =~= "GitHub returned HTTP "@ + decimal(code as nat) + status_hint(code));
    }
    match message {
        Some(m) => {
            push_str(&mut out, ": ");
            push_chars(&mut out, &chars_of(m.as_str()));
        },
        None => {},
    }
    string_of(&out)
}

/// An installation token as GitHub issues it.
pub struct InstallationToken {
    pub token: String,
    pub expires_at: Instant,
}

/// A response that creates a token has status 201; any other is an error.
pub fn check_status(code: u16, message: Option<String>) -> (r: Result<(), String>)
    ensures
        code == CREATED ==> r is Ok,
        code != CREATED ==> (r matches Err(e) && e@ == api_error_text(code, option_view(message))),
{
    if code == CREATED {
        Ok(())
    } else {
        Err(api_error(code, message))
    }
}

/// The token from a decoded response body, or why it is unusable: a body
/// that could not be decoded, or an empty token.
pub fn parse_token_response(decoded: Result<InstallationToken, String>) -> (r: Result<
    InstallationToken,
    String,
>)
    ensures
        match decoded {
            Err(e) => r matches Err(m) && m@ == "parsing the installation token response: "@ + e@,
            Ok(t) => if t.token@.len() == 0 {
                r matches Err(m) && m@ == "GitHub returned an empty installation token"@
            } else {
                r matches Ok(u) && u.token@ == t.token@ && u.expires_at == t.expires_at
            },
        },
{
    match decoded {
        Err(e) => {
            let mut out: Vec<char> = Vec::new();
            push_str(&mut out, "parsing the installation token response: ");
            push_chars(&mut out, &chars_of(e.as_str()));
            Err(string_of(&out))
        },
        Ok(t) => {
            if chars_of(t.token.as_str()).len() == 0 {
                Err("GitHub returned an empty installation token".to_owned())
            } else {
                Ok(t)
            }
        },
    }
}

} // verus!
