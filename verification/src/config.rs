//! Process configuration values.
//!
//! Both structures are plain values: they are built once at process start
//! (the hosting application reads the environment and hands the values
//! in) and passed by reference afterwards, so nothing here mutates.

use vstd::prelude::*;
use vstd::string::StringExecFns;

verus! {

/// Application-wide settings.
pub struct AppConfig {
    pub request_address: String,
    pub request_url: String,
    pub title: String,
    pub token: String,
    pub old_tokens: Vec<String>,
}

impl AppConfig {
    /// The base URL the application's own requests go to.
    pub fn request_url(&self) -> (r: &String)
        ensures
            r@ == self.request_url@,
    {
        &self.request_url
    }
}

impl Default for AppConfig {
    /// The defaults used when the environment overrides nothing; only
    /// meant for development settings.
    fn default() -> (r: AppConfig)
        ensures
            r.request_address@ == "127.0.0.1:8081"@,
            r.request_url@ == "http://127.0.0.1:8081"@,
            r.title@ == "Mango3"@,
            r.token@ == ""@,
            r.old_tokens@.len() == 0,
    {
        AppConfig {
            request_address: "127.0.0.1:8081".to_owned(),
            request_url: "http://127.0.0.1:8081".to_owned(),
            title: "Mango3".to_owned(),
            token: "".to_owned(),
            old_tokens: Vec::new(),
        }
    }
}

/// Settings of the federation client: how this application proves its
/// identity to the authorization provider, and where the provider lives.
pub struct AuthClientConfig {
    /// Provider-issued client identifier (a UUID, kept as its string
    /// form).
    pub id: String,
    /// Shared secret proving the application's identity on privileged
    /// calls.
    pub secret: String,
    /// Base URL of the provider's private API.
    pub provider_api_url: String,
    /// Base URL of the provider's user-facing application.
    pub provider_app_url: String,
    /// HMAC key for inbound webhooks; absent means webhook verification
    /// always fails fast.
    pub webhook_secret: Option<String>,
}

impl AuthClientConfig {
    /// The provider-issued client identifier.
    pub fn id(&self) -> (r: &String)
        ensures
            r@ == self.id@,
    {
        &self.id
    }

    /// The provider's private API base URL.
    pub fn provider_api_url(&self) -> (r: &String)
        ensures
            r@ == self.provider_api_url@,
    {
        &self.provider_api_url
    }

    /// The provider's user-facing base URL.
    pub fn provider_app_url(&self) -> (r: &String)
        ensures
            r@ == self.provider_app_url@,
    {
        &self.provider_app_url
    }
}

impl Default for AuthClientConfig {
    /// The defaults used when the environment overrides nothing; only
    /// meant for development settings.
    fn default() -> (r: AuthClientConfig)
        ensures
            r.id@ == ""@,
            r.secret@ == ""@,
            r.provider_api_url@ == "http://127.0.0.1:8082"@,
            r.provider_app_url@ == "http://127.0.0.1:8080"@,
            r.webhook_secret is None,
    {
        AuthClientConfig {
            id: "".to_owned(),
            secret: "".to_owned(),
            provider_api_url: "http://127.0.0.1:8082".to_owned(),
            provider_app_url: "http://127.0.0.1:8080".to_owned(),
            webhook_secret: None,
        }
    }
}

/// The provider's private API base URL for a given configuration.
pub fn auth_client_provider_url(config: &AuthClientConfig) -> (r: String)
    ensures
        r@ == config.provider_api_url@,
{
    config.provider_api_url.as_str().to_owned()
}

/// The URL a user is sent to in order to authorize this application:
/// the provider's `authorize` page, carrying the client identifier.
pub fn auth_client_authorize_url(config: &AuthClientConfig) -> (r: String)
    ensures
        r@ == crate::auth_client::spec_join_url(config.provider_app_url@, "authorize"@)
            + "?client_id="@ + config.id@,
{
    let mut url = crate::auth_client::join_url(config.provider_app_url.as_str(), "authorize");
    url.append("?client_id=");
    url.append(config.id.as_str());
    url
}

} // verus!
