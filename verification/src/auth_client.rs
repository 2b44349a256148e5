//! The federation client: request builders and response decoders for the
//! provider's private API.
//!
//! Each provider operation is one outbound HTTP exchange.  The decisions
//! — refuse an expired credential before any traffic, shape the request,
//! classify the status, decode the body — are all here and verified; the
//! transport that carries the bytes is the hosting application's.
//!
//! The wire shape is the JSON-body protocol: privileged calls carry the
//! client credentials as a JSON document to `auth/refresh`,
//! `auth/revoke` and `auth/verify`, the profile read sends the bearer
//! token to `user-info`, and timestamps cross the wire as integer Unix
//! milliseconds.

use vstd::prelude::*;
use vstd::string::StrSliceExecFns;
use vstd::utf8::{decode_utf8, encode_utf8, valid_utf8};

use crate::auth::{Auth, AuthV, UserInfo, UserInfoV};
use crate::config::AuthClientConfig;
use crate::errors::AuthError;
use crate::json::{self, JsonVal, JsonValue};

verus! {

/// HTTP method of a provider request.
#[derive(Clone, Copy, Debug, PartialEq, Eq, Structural)]
pub enum HttpMethod {
    Get,
    Put,
    Delete,
}

/// A fully shaped provider request, ready for a transport to carry: the
/// method, the absolute URL, an optional JSON body, and an optional
/// bearer token.
pub struct ProviderRequest {
    pub method: HttpMethod,
    pub url: String,
    pub body: Option<Vec<u8>>,
    pub bearer: Option<String>,
}

/// The mathematical shadow of [`ProviderRequest`].
pub struct ProviderRequestV {
    pub method: HttpMethod,
    pub url: Seq<char>,
    pub body: Option<Seq<u8>>,
    pub bearer: Option<Seq<char>>,
}

impl View for ProviderRequest {
    type V = ProviderRequestV;

    open spec fn view(&self) -> ProviderRequestV {
        ProviderRequestV {
            method: self.method,
            url: self.url@,
            body: match self.body {
                Some(b) => Some(b@),
                None => None,
            },
            bearer: match self.bearer {
                Some(t) => Some(t@),
                None => None,
            },
        }
    }
}

/// Joining a relative path onto a base URL: a single `/` separates them,
/// whether or not the base already ends in one.
pub open spec fn spec_join_url(base: Seq<char>, path: Seq<char>) -> Seq<char> {
    if base.len() > 0 && base[base.len() - 1] == '/' {
        base + path
    } else {
        base + "/"@ + path
    }
}

/// Joins a relative path onto a base URL.
pub fn join_url(base: &str, path: &str) -> (r: String)
    ensures
        r@ == spec_join_url(base@, path@),
{
    let n = base.unicode_len();
    let mut out = base.to_owned();
    if n == 0 || base.get_char(n - 1) != '/' {
        vstd::string::StringExecFns::append(&mut out, "/");
    }
    vstd::string::StringExecFns::append(&mut out, path);
    out
}

/// The stateless client for the provider's private API, built from the
/// configuration it will authenticate with.
pub struct AuthClient {
    pub id: String,
    pub secret: String,
    pub webhook_secret: Option<String>,
    pub provider_api_url: String,
}

impl AuthClient {
    /// Builds a client from the federation configuration.
    pub fn new(config: &AuthClientConfig) -> (r: AuthClient)
        ensures
            r.id@ == config.id@,
            r.secret@ == config.secret@,
            r.provider_api_url@ == config.provider_api_url@,
            match (r.webhook_secret, config.webhook_secret) {
                (Some(a), Some(b)) => a@ == b@,
                (None, None) => true,
                _ => false,
            },
    {
        AuthClient {
            id: config.id.as_str().to_owned(),
            secret: config.secret.as_str().to_owned(),
            webhook_secret: match &config.webhook_secret {
                Some(s) => Some(s.as_str().to_owned()),
                None => None,
            },
            provider_api_url: config.provider_api_url.as_str().to_owned(),
        }
    }
}

/// Whether an HTTP status reports success.
pub open spec fn spec_status_ok(status: u16) -> bool {
    200 <= status < 300
}

/// The JSON document sent on privileged calls: the application's
/// identity (client id and secret) and the token the call concerns.
pub open spec fn spec_auth_body(id: Seq<char>, secret: Seq<char>, token: Seq<char>) -> JsonVal {
    JsonVal::Obj(
        seq![
            (encode_utf8("client_id"@), JsonVal::Str(encode_utf8(id))),
            (encode_utf8("client_secret"@), JsonVal::Str(encode_utf8(secret))),
            (encode_utf8("token"@), JsonVal::Str(encode_utf8(token))),
        ],
    )
}

/// What the refresh builder yields, as a function of client, credential
/// and instant: refusal for an expired credential, else the shaped call.
pub open spec fn spec_refresh_request(client: AuthClient, auth: Auth, now: i64) -> Result<
    ProviderRequestV,
    AuthError,
> {
    if auth.spec_expired(now) {
        Err(AuthError::ExpiredCredential)
    } else {
        Ok(
            ProviderRequestV {
                method: HttpMethod::Put,
                url: spec_join_url(client.provider_api_url@, "auth/refresh"@),
                body: Some(
                    json::spec_ser(spec_auth_body(client.id@, client.secret@, auth.token@)),
                ),
                bearer: None,
            },
        )
    }
}

/// What the revoke builder yields.
pub open spec fn spec_revoke_request(client: AuthClient, auth: Auth, now: i64) -> Result<
    ProviderRequestV,
    AuthError,
> {
    if auth.spec_expired(now) {
        Err(AuthError::ExpiredCredential)
    } else {
        Ok(
            ProviderRequestV {
                method: HttpMethod::Delete,
                url: spec_join_url(client.provider_api_url@, "auth/revoke"@),
                body: Some(
                    json::spec_ser(spec_auth_body(client.id@, client.secret@, auth.token@)),
                ),
                bearer: None,
            },
        )
    }
}

/// What the verify builder yields.
pub open spec fn spec_verify_request(client: AuthClient, auth: Auth, now: i64) -> Result<
    ProviderRequestV,
    AuthError,
> {
    if auth.spec_expired(now) {
        Err(AuthError::ExpiredCredential)
    } else {
        Ok(
            ProviderRequestV {
                method: HttpMethod::Get,
                url: spec_join_url(client.provider_api_url@, "auth/verify"@),
                body: Some(
                    json::spec_ser(spec_auth_body(client.id@, client.secret@, auth.token@)),
                ),
                bearer: None,
            },
        )
    }
}

/// What the profile-fetch builder yields: the bearer token instead of
/// client credentials.
pub open spec fn spec_user_info_request(client: AuthClient, auth: Auth, now: i64) -> Result<
    ProviderRequestV,
    AuthError,
> {
    if auth.spec_expired(now) {
        Err(AuthError::ExpiredCredential)
    } else {
        Ok(
            ProviderRequestV {
                method: HttpMethod::Get,
                url: spec_join_url(client.provider_api_url@, "user-info"@),
                body: None,
                bearer: Some(auth.token@),
            },
        )
    }
}

/// A string member of a JSON object: present, a string, valid UTF-8.
pub open spec fn spec_get_str(ms: Seq<(Seq<u8>, JsonVal)>, key: Seq<u8>) -> Option<Seq<char>> {
    match json::spec_obj_get(ms, key) {
        Some(JsonVal::Str(b)) => if valid_utf8(b) {
            Some(decode_utf8(b))
        } else {
            None
        },
        _ => None,
    }
}

/// An integer member of a JSON object: present and within `i64`.
pub open spec fn spec_get_int(ms: Seq<(Seq<u8>, JsonVal)>, key: Seq<u8>) -> Option<int> {
    match json::spec_obj_get(ms, key) {
        Some(JsonVal::Int(n)) => if i64::MIN <= n <= i64::MAX {
            Some(n)
        } else {
            None
        },
        _ => None,
    }
}

/// An optional integer member: absent and `null` both mean none.
pub open spec fn spec_get_opt_int(ms: Seq<(Seq<u8>, JsonVal)>, key: Seq<u8>) -> Option<
    Option<int>,
> {
    match json::spec_obj_get(ms, key) {
        None => Some(None),
        Some(JsonVal::Null) => Some(None),
        Some(JsonVal::Int(n)) => if i64::MIN <= n <= i64::MAX {
            Some(Some(n))
        } else {
            None
        },
        Some(_) => None,
    }
}

/// What a credential looks like on the wire, read back: a JSON object
/// carrying `token`, `expires_at` and an optional `refreshed_at`.
pub open spec fn spec_auth_of_json(v: JsonVal) -> Option<AuthV> {
    match v {
        JsonVal::Obj(ms) => {
            let t = spec_get_str(ms, encode_utf8("token"@));
            let e = spec_get_int(ms, encode_utf8("expires_at"@));
            let rr = spec_get_opt_int(ms, encode_utf8("refreshed_at"@));
            if t is Some && e is Some && rr is Some {
                Some(
                    AuthV {
                        token: t.unwrap(),
                        expires_at: e.unwrap(),
                        refreshed_at: rr.unwrap(),
                    },
                )
            } else {
                None
            }
        },
        _ => None,
    }
}

/// What a credential looks like on the wire, written: the exact bytes of
/// its JSON object.
pub open spec fn spec_auth_json(a: AuthV) -> JsonVal {
    JsonVal::Obj(
        seq![
            (encode_utf8("token"@), JsonVal::Str(encode_utf8(a.token))),
            (encode_utf8("expires_at"@), JsonVal::Int(a.expires_at)),
            (
                encode_utf8("refreshed_at"@),
                match a.refreshed_at {
                    Some(t) => JsonVal::Int(t),
                    None => JsonVal::Null,
                },
            ),
        ],
    )
}

/// What a profile snapshot looks like on the wire, read back.
pub open spec fn spec_user_info_of_json(v: JsonVal) -> Option<UserInfoV> {
    match v {
        JsonVal::Obj(ms) => {
            let id = spec_get_str(ms, encode_utf8("id"@));
            let username = spec_get_str(ms, encode_utf8("username"@));
            let email = spec_get_str(ms, encode_utf8("email"@));
            let display_name = spec_get_str(ms, encode_utf8("display_name"@));
            let initials = spec_get_str(ms, encode_utf8("initials"@));
            let full_name = spec_get_str(ms, encode_utf8("full_name"@));
            let birthdate = spec_get_str(ms, encode_utf8("birthdate"@));
            let language_code = spec_get_str(ms, encode_utf8("language_code"@));
            let country_alpha2 = spec_get_str(ms, encode_utf8("country_alpha2"@));
            let created_at = spec_get_int(ms, encode_utf8("created_at"@));
            let updated_at = spec_get_opt_int(ms, encode_utf8("updated_at"@));
            if id is Some && username is Some && email is Some && display_name is Some
                && initials is Some && full_name is Some && birthdate is Some && language_code
                is Some && country_alpha2 is Some && created_at is Some && updated_at is Some {
                Some(
                    UserInfoV {
                        id: id.unwrap(),
                        username: username.unwrap(),
                        email: email.unwrap(),
                        display_name: display_name.unwrap(),
                        initials: initials.unwrap(),
                        full_name: full_name.unwrap(),
                        birthdate: birthdate.unwrap(),
                        language_code: language_code.unwrap(),
                        country_alpha2: country_alpha2.unwrap(),
                        created_at: created_at.unwrap(),
                        updated_at: updated_at.unwrap(),
                    },
                )
            } else {
                None
            }
        },
        _ => None,
    }
}

/// Reads a string member, executable.
fn get_str(ms: &Vec<(Vec<u8>, JsonValue)>, key: &str) -> (r: Option<String>)
    ensures
        ({
            let sp = spec_get_str(json::view_members(ms@), encode_utf8(key@));
            match r {
                Some(s) => sp == Some(s@),
                None => sp is None,
            }
        }),
{
    match json::obj_get(ms, key.as_bytes()) {
        Some(v) => match v {
            JsonValue::Str(b) => json::string_from_utf8(vstd::slice::slice_to_vec(b.as_slice())),
            _ => None,
        },
        None => None,
    }
}

/// Reads an integer member, executable.
fn get_int(ms: &Vec<(Vec<u8>, JsonValue)>, key: &str) -> (r: Option<i64>)
    ensures
        ({
            let sp = spec_get_int(json::view_members(ms@), encode_utf8(key@));
            match r {
                Some(n) => sp == Some(n as int),
                None => sp is None,
            }
        }),
{
    match json::obj_get(ms, key.as_bytes()) {
        Some(v) => match v {
            JsonValue::Int(n) => Some(*n),
            _ => None,
        },
        None => None,
    }
}

/// Reads an optional integer member, executable.
fn get_opt_int(ms: &Vec<(Vec<u8>, JsonValue)>, key: &str) -> (r: Option<Option<i64>>)
    ensures
        ({
            let sp = spec_get_opt_int(json::view_members(ms@), encode_utf8(key@));
            match r {
                Some(Some(n)) => sp == Some(Some(n as int)),
                Some(None) => sp == Some(None::<int>),
                None => sp is None,
            }
        }),
{
    match json::obj_get(ms, key.as_bytes()) {
        Some(v) => match v {
            JsonValue::Null => Some(None),
            JsonValue::Int(n) => Some(Some(*n)),
            _ => None,
        },
        None => Some(None),
    }
}

/// Decodes a credential from a parsed wire object.
fn decode_auth(v: &JsonValue) -> (r: Option<Auth>)
    ensures
        match r {
            Some(a) => spec_auth_of_json(v@) == Some(a@),
            None => spec_auth_of_json(v@) is None,
        },
{
    if let JsonValue::Obj(ms) = v {
        let t = get_str(ms, "token");
        let e = get_int(ms, "expires_at");
        let rr = get_opt_int(ms, "refreshed_at");
        match (t, e, rr) {
            (Some(token), Some(expires_at), Some(refreshed_at)) => Some(
                Auth { token, expires_at, refreshed_at },
            ),
            _ => None,
        }
    } else {
        None
    }
}

/// Decodes a profile snapshot from a parsed wire object.
fn decode_user_info(v: &JsonValue) -> (r: Option<UserInfo>)
    ensures
        match r {
            Some(u) => spec_user_info_of_json(v@) == Some(u@),
            None => spec_user_info_of_json(v@) is None,
        },
{
    if let JsonValue::Obj(ms) = v {
        let id = get_str(ms, "id");
        let username = get_str(ms, "username");
        let email = get_str(ms, "email");
        let display_name = get_str(ms, "display_name");
        let initials = get_str(ms, "initials");
        let full_name = get_str(ms, "full_name");
        let birthdate = get_str(ms, "birthdate");
        let language_code = get_str(ms, "language_code");
        let country_alpha2 = get_str(ms, "country_alpha2");
        let created_at = get_int(ms, "created_at");
        let updated_at = get_opt_int(ms, "updated_at");
        match (id, username, email, display_name, initials, full_name, birthdate) {
            (
                Some(id),
                Some(username),
                Some(email),
                Some(display_name),
                Some(initials),
                Some(full_name),
                Some(birthdate),
            ) => match (language_code, country_alpha2, created_at, updated_at) {
                (Some(language_code), Some(country_alpha2), Some(created_at), Some(updated_at)) => {
                    Some(
                        UserInfo {
                            id,
                            username,
                            email,
                            display_name,
                            initials,
                            full_name,
                            birthdate,
                            language_code,
                            country_alpha2,
                            created_at,
                            updated_at,
                        },
                    )
                },
                _ => None,
            },
            _ => None,
        }
    } else {
        None
    }
}

/// Serializes a credential to its wire JSON, for handing back over the
/// provider channel.
pub fn auth_to_json(a: &Auth) -> (r: Vec<u8>)
    ensures
        r@ == json::spec_ser(spec_auth_json(a@)),
{
    let mut ms: Vec<(Vec<u8>, JsonValue)> = Vec::new();
    ms.push(("token".as_bytes_vec(), JsonValue::Str(a.token.as_str().as_bytes_vec())));
    ms.push(("expires_at".as_bytes_vec(), JsonValue::Int(a.expires_at)));
    ms.push(
        (
            "refreshed_at".as_bytes_vec(),
            match a.refreshed_at {
                Some(t) => JsonValue::Int(t),
                None => JsonValue::Null,
            },
        ),
    );
    let v = JsonValue::Obj(ms);
    proof {
        json::lemma_view_members_len(ms@);
        json::lemma_view_members_index(ms@, 0);
        json::lemma_view_members_index(ms@, 1);
        json::lemma_view_members_index(ms@, 2);
        assert(v@ == JsonVal::Obj(json::view_members(ms@)));
        assert(json::view_members(ms@) =~= spec_auth_json(a@)->Obj_0);
    }
    json::write_json(&v)
}

impl AuthClient {
    /// The serialized credentials body sent on privileged calls.
    fn auth_body(&self, auth: &Auth) -> (r: Vec<u8>)
        ensures
            r@ == json::spec_ser(spec_auth_body(self.id@, self.secret@, auth.token@)),
    {
        let mut ms: Vec<(Vec<u8>, JsonValue)> = Vec::new();
        ms.push(("client_id".as_bytes_vec(), JsonValue::Str(self.id.as_str().as_bytes_vec())));
        ms.push(
            ("client_secret".as_bytes_vec(), JsonValue::Str(self.secret.as_str().as_bytes_vec())),
        );
        ms.push(("token".as_bytes_vec(), JsonValue::Str(auth.token.as_str().as_bytes_vec())));
        let v = JsonValue::Obj(ms);
        proof {
            json::lemma_view_members_len(ms@);
            json::lemma_view_members_index(ms@, 0);
            json::lemma_view_members_index(ms@, 1);
            json::lemma_view_members_index(ms@, 2);
            assert(v@ == JsonVal::Obj(json::view_members(ms@)));
            assert(json::view_members(ms@) =~= spec_auth_body(
                self.id@,
                self.secret@,
                auth.token@,
            )->Obj_0);
        }
        json::write_json(&v)
    }

    /// Shapes the refresh call.  An expired credential is refused here,
    /// before any request exists to send.
    pub fn refresh_auth_request(&self, auth: &Auth, now: i64) -> (r: Result<
        ProviderRequest,
        AuthError,
    >)
        ensures
            match r {
                Ok(q) => spec_refresh_request(*self, *auth, now) == Ok::<
                    ProviderRequestV,
                    AuthError,
                >(q@),
                Err(e) => spec_refresh_request(*self, *auth, now) == Err::<
                    ProviderRequestV,
                    AuthError,
                >(e),
            },
    {
        if auth.is_expired_at(now) {
            return Err(AuthError::ExpiredCredential);
        }
        Ok(
            ProviderRequest {
                method: HttpMethod::Put,
                url: join_url(self.provider_api_url.as_str(), "auth/refresh"),
                body: Some(self.auth_body(auth)),
                bearer: None,
            },
        )
    }

    /// Shapes the revoke call; an expired credential is refused locally.
    pub fn revoke_auth_request(&self, auth: &Auth, now: i64) -> (r: Result<
        ProviderRequest,
        AuthError,
    >)
        ensures
            match r {
                Ok(q) => spec_revoke_request(*self, *auth, now) == Ok::<
                    ProviderRequestV,
                    AuthError,
                >(q@),
                Err(e) => spec_revoke_request(*self, *auth, now) == Err::<
                    ProviderRequestV,
                    AuthError,
                >(e),
            },
    {
        if auth.is_expired_at(now) {
            return Err(AuthError::ExpiredCredential);
        }
        Ok(
            ProviderRequest {
                method: HttpMethod::Delete,
                url: join_url(self.provider_api_url.as_str(), "auth/revoke"),
                body: Some(self.auth_body(auth)),
                bearer: None,
            },
        )
    }

    /// Shapes the verify call; an expired credential is refused locally.
    pub fn verify_auth_request(&self, auth: &Auth, now: i64) -> (r: Result<
        ProviderRequest,
        AuthError,
    >)
        ensures
            match r {
                Ok(q) => spec_verify_request(*self, *auth, now) == Ok::<
                    ProviderRequestV,
                    AuthError,
                >(q@),
                Err(e) => spec_verify_request(*self, *auth, now) == Err::<
                    ProviderRequestV,
                    AuthError,
                >(e),
            },
    {
        if auth.is_expired_at(now) {
            return Err(AuthError::ExpiredCredential);
        }
        Ok(
            ProviderRequest {
                method: HttpMethod::Get,
                url: join_url(self.provider_api_url.as_str(), "auth/verify"),
                body: Some(self.auth_body(auth)),
                bearer: None,
            },
        )
    }

    /// Shapes the profile fetch.  This one acts on behalf of the user,
    /// so it carries the bearer token and no client credentials.
    pub fn user_info_request(&self, auth: &Auth, now: i64) -> (r: Result<
        ProviderRequest,
        AuthError,
    >)
        ensures
            match r {
                Ok(q) => spec_user_info_request(*self, *auth, now) == Ok::<
                    ProviderRequestV,
                    AuthError,
                >(q@),
                Err(e) => spec_user_info_request(*self, *auth, now) == Err::<
                    ProviderRequestV,
                    AuthError,
                >(e),
            },
    {
        if auth.is_expired_at(now) {
            return Err(AuthError::ExpiredCredential);
        }
        Ok(
            ProviderRequest {
                method: HttpMethod::Get,
                url: join_url(self.provider_api_url.as_str(), "user-info"),
                body: None,
                bearer: Some(auth.token.as_str().to_owned()),
            },
        )
    }
}

/// Decodes the refresh response: a new credential, which must record
/// when it was refreshed.
pub fn refresh_auth_response(status: u16, body: &[u8]) -> (r: Result<Auth, AuthError>)
    ensures
        !spec_status_ok(status) ==> r == Err::<Auth, AuthError>(AuthError::ProviderRejected(
            status,
        )),
        spec_status_ok(status) ==> ({
            match json::spec_parse_doc(body@) {
                Some(v) => match spec_auth_of_json(v) {
                    Some(av) => if av.refreshed_at is Some {
                        r matches Ok(a) && a@ == av
                    } else {
                        r == Err::<Auth, AuthError>(AuthError::Decode)
                    },
                    None => r == Err::<Auth, AuthError>(AuthError::Decode),
                },
                None => r == Err::<Auth, AuthError>(AuthError::Decode),
            }
        }),
        r matches Ok(a) ==> a.refreshed_at is Some,
{
    if !(200 <= status && status < 300) {
        return Err(AuthError::ProviderRejected(status));
    }
    let v = match json::parse_json(body) {
        Some(v) => v,
        None => {
            return Err(AuthError::Decode);
        },
    };
    let a = match decode_auth(&v) {
        Some(a) => a,
        None => {
            return Err(AuthError::Decode);
        },
    };
    if a.refreshed_at.is_none() {
        return Err(AuthError::Decode);
    }
    Ok(a)
}

/// Decodes the revoke response: success is all it carries.
pub fn revoke_auth_response(status: u16) -> (r: Result<(), AuthError>)
    ensures
        spec_status_ok(status) ==> r is Ok,
        !spec_status_ok(status) ==> r == Err::<(), AuthError>(AuthError::ProviderRejected(status)),
{
    if 200 <= status && status < 300 {
        Ok(())
    } else {
        Err(AuthError::ProviderRejected(status))
    }
}

/// Interprets the verify response: whether the provider confirmed the
/// token, which is the status alone.  A non-2xx answer is `false`, not
/// an error; only a transport fault (which never reaches this function)
/// is an error to the caller.
pub fn verify_auth_response(status: u16) -> (r: bool)
    ensures
        r == spec_status_ok(status),
{
    200 <= status && status < 300
}

/// Decodes the profile response.
pub fn user_info_response(status: u16, body: &[u8]) -> (r: Result<UserInfo, AuthError>)
    ensures
        !spec_status_ok(status) ==> r == Err::<UserInfo, AuthError>(AuthError::ProviderRejected(
            status,
        )),
        spec_status_ok(status) ==> ({
            match json::spec_parse_doc(body@) {
                Some(v) => match spec_user_info_of_json(v) {
                    Some(uv) => r matches Ok(u) && u@ == uv,
                    None => r == Err::<UserInfo, AuthError>(AuthError::Decode),
                },
                None => r == Err::<UserInfo, AuthError>(AuthError::Decode),
            }
        }),
{
    if !(200 <= status && status < 300) {
        return Err(AuthError::ProviderRejected(status));
    }
    let v = match json::parse_json(body) {
        Some(v) => v,
        None => {
            return Err(AuthError::Decode);
        },
    };
    match decode_user_info(&v) {
        Some(u) => Ok(u),
        None => Err(AuthError::Decode),
    }
}

/// Law: every privileged operation refuses an expired credential
/// locally, with `ExpiredCredential` — no request is ever shaped for
/// it, so no network call can follow.
pub proof fn lemma_expired_credential_rejected(client: AuthClient, auth: Auth, now: i64)
    requires
        auth.spec_expired(now),
    ensures
        spec_refresh_request(client, auth, now) == Err::<ProviderRequestV, AuthError>(
            AuthError::ExpiredCredential,
        ),
        spec_revoke_request(client, auth, now) == Err::<ProviderRequestV, AuthError>(
            AuthError::ExpiredCredential,
        ),
        spec_verify_request(client, auth, now) == Err::<ProviderRequestV, AuthError>(
            AuthError::ExpiredCredential,
        ),
        spec_user_info_request(client, auth, now) == Err::<ProviderRequestV, AuthError>(
            AuthError::ExpiredCredential,
        ),
{
}

/// Law: a credential serialized to its wire JSON parses back through
/// the protocol codec and decodes to the same credential, unchanged;
/// and a credential whose expiry is not in the past is not expired.
pub proof fn lemma_auth_round_trip(a: Auth, now: i64)
    ensures
        json::spec_parse_doc(json::spec_ser(spec_auth_json(a@))) == Some(spec_auth_json(a@)),
        spec_auth_of_json(spec_auth_json(a@)) == Some(a@),
        a.expires_at >= now ==> !a.spec_expired(now),
{
    broadcast use vstd::utf8::encode_utf8_decode_utf8;
    broadcast use vstd::utf8::encode_utf8_valid_utf8;

    let jv = spec_auth_json(a@);
    let ms = jv->Obj_0;
    let m0 = (encode_utf8("token"@), JsonVal::Str(encode_utf8(a@.token)));
    let m1 = (encode_utf8("expires_at"@), JsonVal::Int(a@.expires_at));
    let m2 = (
        encode_utf8("refreshed_at"@),
        match a@.refreshed_at {
            Some(t) => JsonVal::Int(t),
            None => JsonVal::Null,
        },
    );
    assert(ms == seq![m0, m1, m2]);
    let rest1 = ms.drop_first();
    assert(rest1 =~= seq![m1, m2]);
    let rest2 = rest1.drop_first();
    assert(rest2 =~= seq![m2]);
    let rest3 = rest2.drop_first();
    assert(rest3 =~= Seq::<(Seq<u8>, JsonVal)>::empty());
    // Every member value fits the executable type.
    assert(json::bounded_members(rest3));
    assert(json::bounded(m0.1));
    assert(json::bounded(m1.1));
    assert(json::bounded(m2.1));
    assert(json::bounded_members(rest2));
    assert(json::bounded_members(rest1));
    assert(json::bounded_members(ms));
    assert(json::bounded(jv));
    json::lemma_parse_ser_doc(jv);
    // The three keys are pairwise distinct: their character sequences
    // differ, so their encodings differ.
    reveal_strlit("token");
    reveal_strlit("expires_at");
    reveal_strlit("refreshed_at");
    assert("token"@.len() == 5 && "expires_at"@.len() == 10 && "refreshed_at"@.len() == 12);
    assert(encode_utf8("expires_at"@) != encode_utf8("token"@)) by {
        if encode_utf8("expires_at"@) == encode_utf8("token"@) {
            assert(decode_utf8(encode_utf8("expires_at"@)) == decode_utf8(encode_utf8("token"@)));
        }
    }
    assert(encode_utf8("refreshed_at"@) != encode_utf8("token"@)) by {
        if encode_utf8("refreshed_at"@) == encode_utf8("token"@) {
            assert(decode_utf8(encode_utf8("refreshed_at"@)) == decode_utf8(
                encode_utf8("token"@),
            ));
        }
    }
    assert(encode_utf8("refreshed_at"@) != encode_utf8("expires_at"@)) by {
        if encode_utf8("refreshed_at"@) == encode_utf8("expires_at"@) {
            assert(decode_utf8(encode_utf8("refreshed_at"@)) == decode_utf8(
                encode_utf8("expires_at"@),
            ));
        }
    }
    // Walking the members finds each key where it was written.
    assert(json::spec_obj_get(ms, encode_utf8("token"@)) == Some(m0.1));
    assert(json::spec_obj_get(ms, encode_utf8("expires_at"@)) == Some(m1.1)) by {
        assert(json::spec_obj_get(rest1, encode_utf8("expires_at"@)) == Some(m1.1));
    }
    assert(json::spec_obj_get(ms, encode_utf8("refreshed_at"@)) == Some(m2.1)) by {
        assert(json::spec_obj_get(rest2, encode_utf8("refreshed_at"@)) == Some(m2.1));
        assert(json::spec_obj_get(rest1, encode_utf8("refreshed_at"@)) == Some(m2.1));
    }
    assert(spec_get_str(ms, encode_utf8("token"@)) == Some(a@.token));
    assert(spec_get_int(ms, encode_utf8("expires_at"@)) == Some(a@.expires_at));
    assert(spec_get_opt_int(ms, encode_utf8("refreshed_at"@)) == Some(a@.refreshed_at));
    assert(spec_auth_of_json(jv) == Some(a@));
}

} // verus!
