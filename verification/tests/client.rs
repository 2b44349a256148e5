//! Exercises the credential type, the request builders and the response
//! decoders on concrete values.

use federated_auth::auth::{Auth, UserInfo};
use federated_auth::auth_client::{
    auth_to_json, refresh_auth_response, revoke_auth_response, user_info_response,
    verify_auth_response, AuthClient, HttpMethod, ProviderRequest,
};
use federated_auth::config::{
    auth_client_authorize_url, auth_client_provider_url, AppConfig, AuthClientConfig,
};
use federated_auth::errors::AuthError;
use federated_auth::storage::set_directory;
use federated_auth::test_utils::{fake_auth, generate_random_string};

fn test_config() -> AuthClientConfig {
    AuthClientConfig {
        id: "client-1".to_owned(),
        secret: "s3cr3t".to_owned(),
        provider_api_url: "http://127.0.0.1:8082".to_owned(),
        provider_app_url: "http://127.0.0.1:8080".to_owned(),
        webhook_secret: Some("whsec".to_owned()),
    }
}

fn now_millis() -> i64 {
    chrono::Utc::now().timestamp_millis()
}

#[test]
fn fresh_credential_is_not_expired_and_stale_one_is() {
    let now = now_millis();
    let fresh = Auth::new("tok123", now + 3_600_000, None);
    assert!(!fresh.is_expired());
    assert!(!fresh.is_expired_at(now));
    let stale = Auth::new("tok123", now - 1_000, None);
    assert!(stale.is_expired());
    assert!(stale.is_expired_at(now));
}

#[test]
fn expired_credential_is_refused_before_any_request_exists() {
    let client = AuthClient::new(&test_config());
    let now = now_millis();
    let stale = Auth::new("tok123", now - 1_000, None);
    assert_eq!(
        client.refresh_auth_request(&stale, now).err(),
        Some(AuthError::ExpiredCredential)
    );
    assert_eq!(
        client.revoke_auth_request(&stale, now).err(),
        Some(AuthError::ExpiredCredential)
    );
    assert_eq!(
        client.verify_auth_request(&stale, now).err(),
        Some(AuthError::ExpiredCredential)
    );
    assert_eq!(
        client.user_info_request(&stale, now).err(),
        Some(AuthError::ExpiredCredential)
    );
}

#[test]
fn refresh_request_carries_client_credentials_as_json() {
    let client = AuthClient::new(&test_config());
    let now = now_millis();
    let auth = Auth::new("tok123", now + 60_000, None);
    let req: ProviderRequest = client.refresh_auth_request(&auth, now).expect("not expired");
    assert_eq!(req.method, HttpMethod::Put);
    assert_eq!(req.url, "http://127.0.0.1:8082/auth/refresh");
    assert!(req.bearer.is_none());
    let body = req.body.expect("refresh carries a body");
    assert_eq!(
        body.as_slice(),
        br#"{"client_id":"client-1","client_secret":"s3cr3t","token":"tok123"}"#
    );
}

#[test]
fn revoke_and_verify_requests_target_their_endpoints() {
    let client = AuthClient::new(&test_config());
    let now = now_millis();
    let auth = Auth::new("tok123", now + 60_000, None);
    let revoke = client.revoke_auth_request(&auth, now).expect("not expired");
    assert_eq!(revoke.method, HttpMethod::Delete);
    assert_eq!(revoke.url, "http://127.0.0.1:8082/auth/revoke");
    assert!(revoke.body.is_some());
    let verify = client.verify_auth_request(&auth, now).expect("not expired");
    assert_eq!(verify.method, HttpMethod::Get);
    assert_eq!(verify.url, "http://127.0.0.1:8082/auth/verify");
}

#[test]
fn user_info_request_authenticates_with_the_bearer_token() {
    let client = AuthClient::new(&test_config());
    let now = now_millis();
    let auth = Auth::new("tok123", now + 60_000, None);
    let req = client.user_info_request(&auth, now).expect("not expired");
    assert_eq!(req.method, HttpMethod::Get);
    assert_eq!(req.url, "http://127.0.0.1:8082/user-info");
    assert!(req.body.is_none());
    assert_eq!(req.bearer.as_deref(), Some("tok123"));
}

#[test]
fn refresh_response_round_trips_through_an_echoing_provider() {
    let client = AuthClient::new(&test_config());
    let now = now_millis();
    let auth = Auth::new("tok123", now + 60_000, None);
    let _request = client.refresh_auth_request(&auth, now).expect("not expired");
    // The mock provider answers with a renewed credential.
    let renewed = Auth::new("tok456", now + 7_200_000, Some(now));
    let response_body = auth_to_json(&renewed);
    let got = refresh_auth_response(200, &response_body).expect("a well-formed 2xx response");
    assert_eq!(got, renewed);
    assert!(!got.is_expired_at(now));
    assert!(got.refreshed_at.is_some());
    // The credential that went in is untouched.
    assert_eq!(auth.token, "tok123");
    assert_eq!(auth.refreshed_at, None);
}

#[test]
fn refresh_response_requires_a_refresh_timestamp() {
    let body = br#"{"token":"t2","expires_at":123,"refreshed_at":null}"#;
    assert_eq!(refresh_auth_response(200, body).err(), Some(AuthError::Decode));
    let body2 = br#"{"token":"t2","expires_at":123}"#;
    assert_eq!(refresh_auth_response(200, body2).err(), Some(AuthError::Decode));
    let body3 = br#"{"token":"t2","expires_at":123,"refreshed_at":99}"#;
    let got = refresh_auth_response(200, body3).expect("well-formed");
    assert_eq!(got.token, "t2");
    assert_eq!(got.expires_at, 123);
    assert_eq!(got.refreshed_at, Some(99));
}

#[test]
fn refresh_response_classifies_failures() {
    let good = br#"{"token":"t2","expires_at":1,"refreshed_at":2}"#;
    assert_eq!(
        refresh_auth_response(503, good).err(),
        Some(AuthError::ProviderRejected(503))
    );
    assert_eq!(
        refresh_auth_response(200, b"not json at all").err(),
        Some(AuthError::Decode)
    );
    assert_eq!(
        refresh_auth_response(200, br#"{"token":7,"expires_at":1,"refreshed_at":2}"#).err(),
        Some(AuthError::Decode)
    );
}

#[test]
fn revoke_response_is_success_or_the_carried_status() {
    assert!(revoke_auth_response(204).is_ok());
    assert_eq!(
        revoke_auth_response(500).err(),
        Some(AuthError::ProviderRejected(500))
    );
}

#[test]
fn verify_response_is_a_boolean_never_an_error() {
    assert!(verify_auth_response(200));
    assert!(verify_auth_response(299));
    assert!(!verify_auth_response(300));
    assert!(!verify_auth_response(404));
    assert!(!verify_auth_response(199));
}

#[test]
fn user_info_response_decodes_a_full_profile() {
    let body = br#"{"id":"9f0d","username":"mango","email":"m@example.com","display_name":"Mango","initials":"M","full_name":"Mango Tree","birthdate":"1990-01-02","language_code":"en","country_alpha2":"US","created_at":1000,"updated_at":2000}"#;
    let u: UserInfo = user_info_response(200, body).expect("well-formed");
    assert_eq!(u.id, "9f0d");
    assert_eq!(u.username, "mango");
    assert_eq!(u.email, "m@example.com");
    assert_eq!(u.display_name, "Mango");
    assert_eq!(u.initials, "M");
    assert_eq!(u.full_name, "Mango Tree");
    assert_eq!(u.birthdate, "1990-01-02");
    assert_eq!(u.language_code, "en");
    assert_eq!(u.country_alpha2, "US");
    assert_eq!(u.created_at, 1000);
    assert_eq!(u.updated_at, Some(2000));
}

#[test]
fn user_info_response_rejects_a_partial_profile() {
    let body = br#"{"id":"9f0d","username":"mango"}"#;
    assert_eq!(user_info_response(200, body).err(), Some(AuthError::Decode));
    assert_eq!(
        user_info_response(401, body).err(),
        Some(AuthError::ProviderRejected(401))
    );
}

#[test]
fn user_info_response_accepts_a_null_update_time() {
    let body = br#"{"id":"a","username":"b","email":"c","display_name":"d","initials":"e","full_name":"f","birthdate":"g","language_code":"h","country_alpha2":"i","created_at":5,"updated_at":null}"#;
    let u = user_info_response(200, body).expect("well-formed");
    assert_eq!(u.updated_at, None);
}

#[test]
fn credentials_serialize_to_their_exact_wire_bytes() {
    let bare = Auth::new("t", 5, None);
    assert_eq!(
        auth_to_json(&bare).as_slice(),
        br#"{"token":"t","expires_at":5,"refreshed_at":null}"#
    );
    let refreshed = Auth::new("t", -3, Some(7));
    assert_eq!(
        auth_to_json(&refreshed).as_slice(),
        br#"{"token":"t","expires_at":-3,"refreshed_at":7}"#
    );
}

#[test]
fn extreme_timestamps_survive_the_wire() {
    for a in [
        Auth::new("t", i64::MAX, Some(i64::MIN)),
        Auth::new("t", i64::MIN, Some(i64::MAX)),
    ] {
        let body = auth_to_json(&a);
        let back = refresh_auth_response(200, &body).expect("well-formed");
        assert_eq!(back, a);
    }
}

#[test]
fn config_defaults_are_the_development_settings() {
    let app = AppConfig::default();
    assert_eq!(app.request_address, "127.0.0.1:8081");
    assert_eq!(app.request_url().as_str(), "http://127.0.0.1:8081");
    assert_eq!(app.title, "Mango3");
    assert_eq!(app.token, "");
    assert!(app.old_tokens.is_empty());
    let auth = AuthClientConfig::default();
    assert_eq!(auth.id().as_str(), "");
    assert_eq!(auth.provider_api_url().as_str(), "http://127.0.0.1:8082");
    assert_eq!(auth.provider_app_url().as_str(), "http://127.0.0.1:8080");
    assert!(auth.webhook_secret.is_none());
}

#[test]
fn authorize_url_carries_the_client_id() {
    let config = test_config();
    assert_eq!(
        auth_client_authorize_url(&config),
        "http://127.0.0.1:8080/authorize?client_id=client-1"
    );
    assert_eq!(auth_client_provider_url(&config), "http://127.0.0.1:8082");
}

#[test]
fn joining_does_not_double_a_trailing_slash() {
    let mut config = test_config();
    config.provider_app_url = "http://127.0.0.1:8080/".to_owned();
    assert_eq!(
        auth_client_authorize_url(&config),
        "http://127.0.0.1:8080/authorize?client_id=client-1"
    );
}

#[test]
fn joining_onto_an_empty_base_still_separates() {
    let mut config = test_config();
    config.provider_app_url = "".to_owned();
    assert_eq!(auth_client_authorize_url(&config), "/authorize?client_id=client-1");
}

#[test]
fn random_strings_are_alphanumeric_and_sized() {
    let s = generate_random_string(32);
    assert_eq!(s.len(), 32);
    assert!(s.chars().all(|c| c.is_ascii_alphanumeric()));
    let two = generate_random_string(32);
    // 62^32 outcomes: two draws agreeing would point at a broken sampler.
    assert_ne!(s, two);
    assert_eq!(generate_random_string(0), "");
}

#[test]
fn fake_credentials_are_fresh() {
    let a = fake_auth();
    assert_eq!(a.token.len(), 32);
    assert!(a.refreshed_at.is_none());
    assert!(!a.is_expired());
}

#[test]
fn hosted_targets_accept_any_storage_name() {
    set_directory("mango3");
}
