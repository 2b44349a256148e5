//! Exercises webhook verification end to end with real HMAC and base64.

use base64::Engine;
use hmac::{Hmac, KeyInit, Mac};
use sha2::Sha256;

use federated_auth::auth_client::AuthClient;
use federated_auth::config::AuthClientConfig;
use federated_auth::errors::AuthError;
use federated_auth::webhook::WebhookEvent;

const SECRET: &str = "whsec-0123456789";
const BODY: &[u8] = br#"{"event_type":"authorization_revoked","data":{"token":"tok123"}}"#;

fn client_with_secret(secret: Option<&str>) -> AuthClient {
    AuthClient::new(&AuthClientConfig {
        id: "client-1".to_owned(),
        secret: "s3cr3t".to_owned(),
        provider_api_url: "http://127.0.0.1:8082".to_owned(),
        provider_app_url: "http://127.0.0.1:8080".to_owned(),
        webhook_secret: secret.map(|s| s.to_owned()),
    })
}

fn sign(key: &[u8], body: &[u8]) -> String {
    let mut mac = <Hmac<Sha256> as KeyInit>::new_from_slice(key).expect("any key length works");
    mac.update(body);
    let digest = mac.finalize().into_bytes();
    base64::engine::general_purpose::STANDARD.encode(digest.as_slice())
}

#[test]
fn valid_signature_yields_the_parsed_event() {
    let client = client_with_secret(Some(SECRET));
    let sig = sign(SECRET.as_bytes(), BODY);
    let event = client
        .webhook_event(sig.as_bytes(), BODY)
        .expect("a correctly signed body verifies");
    let WebhookEvent::AuthorizationRevoked { token } = event;
    assert_eq!(token, "tok123");
}

#[test]
fn tampered_body_fails_with_signature_invalid() {
    let client = client_with_secret(Some(SECRET));
    let sig = sign(SECRET.as_bytes(), BODY);
    let mut other = BODY.to_vec();
    let last = other.len() - 3;
    other[last] = b'4';
    assert_eq!(
        client.webhook_event(sig.as_bytes(), &other).err(),
        Some(AuthError::SignatureInvalid)
    );
}

#[test]
fn signature_under_another_key_fails() {
    let client = client_with_secret(Some(SECRET));
    let sig = sign(b"a-different-secret", BODY);
    assert_eq!(
        client.webhook_event(sig.as_bytes(), BODY).err(),
        Some(AuthError::SignatureInvalid)
    );
}

#[test]
fn garbage_signature_fails_without_crashing() {
    let client = client_with_secret(Some(SECRET));
    assert_eq!(
        client.webhook_event(b"!!!not-base64!!!", BODY).err(),
        Some(AuthError::SignatureInvalid)
    );
    // Decodes fine but is far too short to be a digest.
    assert_eq!(
        client.webhook_event(b"AAAA", BODY).err(),
        Some(AuthError::SignatureInvalid)
    );
}

#[test]
fn missing_secret_fails_with_unconfigured_for_any_input() {
    let client = client_with_secret(None);
    let sig = sign(SECRET.as_bytes(), BODY);
    assert_eq!(
        client.webhook_event(sig.as_bytes(), BODY).err(),
        Some(AuthError::WebhookUnconfigured)
    );
    assert_eq!(
        client.webhook_event(b"", b"").err(),
        Some(AuthError::WebhookUnconfigured)
    );
    assert_eq!(
        client.webhook_event(b"junk", b"junk").err(),
        Some(AuthError::WebhookUnconfigured)
    );
}

#[test]
fn unknown_event_type_is_reported_as_unsupported() {
    let client = client_with_secret(Some(SECRET));
    let body = br#"{"event_type":"user_renamed","data":{"token":"tok123"}}"#;
    let sig = sign(SECRET.as_bytes(), body);
    assert_eq!(
        client.webhook_event(sig.as_bytes(), body).err(),
        Some(AuthError::UnsupportedEventType)
    );
}

#[test]
fn authenticated_but_malformed_bodies_fail_to_decode() {
    let client = client_with_secret(Some(SECRET));
    for body in [
        &b"not json"[..],
        br#"{"data":{"token":"tok123"}}"#,
        br#"{"event_type":"authorization_revoked","data":{}}"#,
        br#"{"event_type":"authorization_revoked"}"#,
    ] {
        let sig = sign(SECRET.as_bytes(), body);
        assert_eq!(
            client.webhook_event(sig.as_bytes(), body).err(),
            Some(AuthError::Decode),
        );
    }
}
