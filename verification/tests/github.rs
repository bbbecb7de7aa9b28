use agent_gh::github::{
    api_error, app_jwt, bearer, check_status, claims, claims_json, installation_token_url,
    parse_token_response, signing_key, Claims, InstallationToken, API_URL,
};
use aws_lc_rs::encoding::AsDer;
use aws_lc_rs::signature::KeyPair as _;
use jsonwebtoken::{Algorithm, DecodingKey, Validation};
use agent_gh::time::Instant;

const NOW: i64 = 1_790_251_200;

#[test]
fn backdates_the_issue_time_and_expires_in_nine_minutes() {
    let now = Instant { second: NOW, nanosecond: 500_000_000 };
    assert_eq!(
        claims(1234, now),
        Ok(Claims { iat: NOW - 60, exp: NOW + 540, iss: 1234 })
    );
    let late = Instant { second: 253_402_207_000, nanosecond: 0 };
    assert!(claims(1, late).is_err());
}

#[test]
fn requests_the_installation_token_url() {
    assert_eq!(
        installation_token_url(API_URL, 5678),
        "https://api.github.com/app/installations/5678/access_tokens"
    );
    assert_eq!(bearer("ey.j.w"), "Bearer ey.j.w");
}

#[test]
fn reports_status_and_message_without_the_jwt() {
    let message = api_error(401, Some("A JSON web token could not be decoded".to_owned()));
    assert!(message.contains("HTTP 401"), "{message}");
    assert!(message.contains("system clock"), "{message}");
    assert!(
        message.contains("A JSON web token could not be decoded"),
        "{message}"
    );
    assert_eq!(
        message,
        "GitHub returned HTTP 401 (check app_id, the private key, and the system clock): A JSON web token could not be decoded"
    );
}

#[test]
fn omits_unparsed_error_bodies() {
    assert_eq!(api_error(500, None), "GitHub returned HTTP 500");
    assert_eq!(
        check_status(500, None),
        Err("GitHub returned HTTP 500".to_owned())
    );
}

#[test]
fn reports_status_when_the_error_body_is_not_utf8() {
    assert_eq!(api_error(502, None), "GitHub returned HTTP 502");
}

#[test]
fn does_not_follow_redirects() {
    let message = api_error(302, None);
    assert!(message.contains("HTTP 302"), "{message}");
    assert!(message.contains("redirects are not followed"), "{message}");
}

#[test]
fn hints_at_the_cause_of_common_statuses() {
    assert_eq!(
        api_error(404, Some("Not Found".to_owned())),
        "GitHub returned HTTP 404 (check app_id, installation_id, and that the App is installed): Not Found"
    );
    assert_eq!(
        api_error(399, None),
        "GitHub returned HTTP 399 (redirects are not followed)"
    );
    assert_eq!(api_error(400, None), "GitHub returned HTTP 400");
    assert_eq!(check_status(201, None), Ok(()));
    assert_eq!(
        check_status(500, Some("boom".to_owned())),
        Err("GitHub returned HTTP 500: boom".to_owned())
    );
}

#[test]
fn rejects_empty_token() {
    let empty = InstallationToken {
        token: String::new(),
        expires_at: Instant { second: NOW, nanosecond: 0 },
    };
    match parse_token_response(Ok(empty)) {
        Ok(_) => panic!("empty token should be rejected"),
        Err(message) => assert!(message.contains("empty installation token"), "{message}"),
    }
}

#[test]
fn rejects_malformed_expiry() {
    match parse_token_response(Err("invalid value: string \"soon\"".to_owned())) {
        Ok(_) => panic!("malformed response should be rejected"),
        Err(message) => {
            assert!(
                message.contains("parsing the installation token response"),
                "{message}"
            );
            assert!(!message.contains("issued-token"), "{message}");
        }
    }
    let issued = InstallationToken {
        token: "issued-token".to_owned(),
        expires_at: Instant { second: NOW, nanosecond: 0 },
    };
    let token = parse_token_response(Ok(issued)).expect("token is accepted");
    assert_eq!(token.token, "issued-token");
}

#[test]
fn reports_unreadable_private_key() {
    match signing_key("/keys/missing.pem", b"not a key") {
        Ok(_) => panic!("invalid key should fail"),
        Err(message) => assert!(message.starts_with("parsing private key /keys/missing.pem: "), "{message}"),
    }
}

#[test]
fn names_the_key_file_when_the_jwt_cannot_be_signed() {
    let now = Instant { second: NOW, nanosecond: 0 };
    match agent_gh::github::app_jwt("/keys/app.pem", b"-----BEGIN NOTHING-----", 1234, now) {
        Ok(_) => panic!("an invalid key cannot sign"),
        Err(message) => assert!(message.starts_with("parsing private key /keys/app.pem: "), "{message}"),
    }
}

/// A fresh RSA key pair: the private key as a PKCS#8 PEM document, and the
/// public key as DER.
fn generated_key() -> (String, Vec<u8>) {
    let pair = aws_lc_rs::rsa::KeyPair::generate(aws_lc_rs::rsa::KeySize::Rsa2048)
        .expect("RSA key pair generates");
    let der = pair.as_der().expect("private key encodes as PKCS#8");
    let pem = pem::encode(&pem::Pem::new("PRIVATE KEY", der.as_ref()));
    (pem, pair.public_key().as_ref().to_vec())
}

#[test]
fn signs_rs256_jwt_with_backdated_issue_time() {
    let (pem, public_der) = generated_key();
    let now = Instant { second: NOW, nanosecond: 0 };
    let jwt = app_jwt("/keys/app.pem", pem.as_bytes(), 1234, now).expect("JWT is signed");

    let mut validation = Validation::new(Algorithm::RS256);
    validation.validate_exp = false;
    validation.required_spec_claims.clear();
    let decoded = jsonwebtoken::decode::<serde_json::Value>(
        &jwt,
        &DecodingKey::from_rsa_der(&public_der),
        &validation,
    )
    .expect("signature verifies with the generated public key");

    assert_eq!(decoded.header.alg, Algorithm::RS256);
    assert_eq!(decoded.claims["iss"], 1234);
    assert_eq!(decoded.claims["iat"], NOW - 60);
    assert_eq!(decoded.claims["exp"], NOW + 540);
}

#[test]
fn the_jwt_payload_lists_the_claims_in_order() {
    let (pem, public_der) = generated_key();
    let now = Instant { second: NOW, nanosecond: 0 };
    let jwt = app_jwt("/keys/app.pem", pem.as_bytes(), 1234, now).expect("JWT is signed");
    let mut validation = Validation::new(Algorithm::RS256);
    validation.validate_exp = false;
    validation.required_spec_claims.clear();
    let decoded = jsonwebtoken::decode::<Box<serde_json::value::RawValue>>(
        &jwt,
        &DecodingKey::from_rsa_der(&public_der),
        &validation,
    )
    .expect("signature verifies with the generated public key");
    assert_eq!(
        decoded.claims.get(),
        format!("{{\"iat\":{},\"exp\":{},\"iss\":1234}}", NOW - 60, NOW + 540)
    );
}

#[test]
fn writes_the_claims_as_json() {
    assert_eq!(
        claims_json(&Claims { iat: NOW - 60, exp: NOW + 540, iss: 1234 }),
        "{\"iat\":1790251140,\"exp\":1790251740,\"iss\":1234}"
    );
    assert_eq!(
        claims_json(&Claims { iat: -5, exp: i64::MIN, iss: 0 }),
        "{\"iat\":-5,\"exp\":-9223372036854775808,\"iss\":0}"
    );
    assert_eq!(
        claims_json(&Claims { iat: 0, exp: i64::MAX, iss: u64::MAX }),
        "{\"iat\":0,\"exp\":9223372036854775807,\"iss\":18446744073709551615}"
    );
}
