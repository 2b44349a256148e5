//! Inbound webhook verification.
//!
//! The provider can push a notification to this application's server.
//! The server hands the raw body bytes and the signature header value to
//! [`AuthClient::webhook_event`], which recomputes an HMAC-SHA-256
//! digest over the exact body bytes, compares it in constant time to the
//! base64-decoded signature, and only then — never before — parses the
//! body into a typed event.  Any ambiguity (no configured secret, a
//! signature that does not decode or does not match, a body that does
//! not parse) is a hard failure.

use vstd::prelude::*;
use vstd::utf8::{decode_utf8, encode_utf8, valid_utf8};

use crate::auth_client::AuthClient;
use crate::errors::AuthError;
use crate::json::{self, JsonVal, JsonValue};

verus! {

/// A verified notification pushed by the provider.
#[derive(Clone, Debug, PartialEq, Eq)]
pub enum WebhookEvent {
    /// The provider revoked an authorization; carries the affected
    /// token.
    AuthorizationRevoked { token: String },
}

/// The mathematical shadow of [`WebhookEvent`].
pub enum WebhookEventV {
    AuthorizationRevoked { token: Seq<char> },
}

impl View for WebhookEvent {
    type V = WebhookEventV;

    open spec fn view(&self) -> WebhookEventV {
        match self {
            WebhookEvent::AuthorizationRevoked { token } => WebhookEventV::AuthorizationRevoked {
                token: token@,
            },
        }
    }
}

/// The HMAC-SHA-256 digest of `msg` under `key`, as the hmac crate
/// computes it: a function of key and message alone.
pub uninterp spec fn hmac_sha256_of(key: Seq<u8>, msg: Seq<u8>) -> Seq<u8>;

/// The standard-alphabet padded base64 decoding of `s`, as the base64
/// crate computes it: a function of the input alone.
pub uninterp spec fn base64_decode_of(s: Seq<u8>) -> Option<Seq<u8>>;

/// Relies on `hmac::Hmac<sha2::Sha256>`: `new_from_slice` accepts a key
/// of any length, and `verify_slice` compares the digest of what was fed
/// in against the candidate in constant time, succeeding exactly when
/// they are equal.
#[verifier::external_body]
fn hmac_sha256_verify(key: &[u8], msg: &[u8], tag: &[u8]) -> (r: bool)
    ensures
        r == (tag@ == hmac_sha256_of(key@, msg@)),
{
    let mut mac = match <hmac::Hmac<sha2::Sha256> as hmac::KeyInit>::new_from_slice(key) {
        Ok(mac) => mac,
        Err(_) => {
            return false;
        },
    };
    hmac::Mac::update(&mut mac, msg);
    hmac::Mac::verify_slice(mac, tag).is_ok()
}

/// Relies on the base64 crate's `STANDARD` engine: `decode` depends on
/// the input alone, yielding the decoded bytes or failing.
#[verifier::external_body]
fn base64_decode(s: &[u8]) -> (r: Option<Vec<u8>>)
    ensures
        match r {
            Some(v) => base64_decode_of(s@) == Some(v@),
            None => base64_decode_of(s@) is None,
        },
{
    base64::Engine::decode(&base64::engine::general_purpose::STANDARD, s).ok()
}

/// What an already-authenticated body means: the envelope is a JSON
/// object whose `event_type` picks the variant and whose `data` carries
/// its payload.  An unrecognized `event_type` is reported as unsupported,
/// not guessed at; everything else that is off is a decode failure.
pub open spec fn spec_webhook_event_of(body: Seq<u8>) -> Result<WebhookEventV, AuthError> {
    match json::spec_parse_doc(body) {
        None => Err(AuthError::Decode),
        Some(v) => match v {
            JsonVal::Obj(ms) => match json::spec_obj_get(ms, encode_utf8("event_type"@)) {
                Some(JsonVal::Str(et)) => if et == encode_utf8("authorization_revoked"@) {
                    match json::spec_obj_get(ms, encode_utf8("data"@)) {
                        Some(JsonVal::Obj(dm)) => match json::spec_obj_get(
                            dm,
                            encode_utf8("token"@),
                        ) {
                            Some(JsonVal::Str(tb)) => if valid_utf8(tb) {
                                Ok(WebhookEventV::AuthorizationRevoked { token: decode_utf8(tb) })
                            } else {
                                Err(AuthError::Decode)
                            },
                            _ => Err(AuthError::Decode),
                        },
                        _ => Err(AuthError::Decode),
                    }
                } else {
                    Err(AuthError::UnsupportedEventType)
                },
                _ => Err(AuthError::Decode),
            },
            _ => Err(AuthError::Decode),
        },
    }
}

/// View of an optionally configured secret.
pub open spec fn spec_secret_view(s: Option<String>) -> Option<Seq<char>> {
    match s {
        Some(k) => Some(k@),
        None => None,
    }
}

/// The verification outcome, end to end: no secret fails fast; a
/// signature that does not decode, or decodes to anything but the body's
/// digest under the key, is invalid; only an authenticated body is ever
/// interpreted.
pub open spec fn spec_webhook_outcome(
    secret: Option<Seq<char>>,
    signature: Seq<u8>,
    body: Seq<u8>,
) -> Result<WebhookEventV, AuthError> {
    match secret {
        None => Err(AuthError::WebhookUnconfigured),
        Some(k) => match base64_decode_of(signature) {
            None => Err(AuthError::SignatureInvalid),
            Some(digest) => if digest == hmac_sha256_of(encode_utf8(k), body) {
                spec_webhook_event_of(body)
            } else {
                Err(AuthError::SignatureInvalid)
            },
        },
    }
}

/// Parses an authenticated body into its typed event.
fn parse_webhook_event(body: &[u8]) -> (r: Result<WebhookEvent, AuthError>)
    ensures
        match r {
            Ok(ev) => spec_webhook_event_of(body@) == Ok::<WebhookEventV, AuthError>(ev@),
            Err(e) => spec_webhook_event_of(body@) == Err::<WebhookEventV, AuthError>(e),
        },
{
    let v = match json::parse_json(body) {
        Some(v) => v,
        None => {
            return Err(AuthError::Decode);
        },
    };
    let ms = if let JsonValue::Obj(ms) = &v {
        ms
    } else {
        return Err(AuthError::Decode);
    };
    let et = match json::obj_get(ms, "event_type".as_bytes()) {
        Some(JsonValue::Str(et)) => et,
        _ => {
            return Err(AuthError::Decode);
        },
    };
    if !json::bytes_eq(et.as_slice(), "authorization_revoked".as_bytes()) {
        return Err(AuthError::UnsupportedEventType);
    }
    let dm = match json::obj_get(ms, "data".as_bytes()) {
        Some(JsonValue::Obj(dm)) => dm,
        _ => {
            return Err(AuthError::Decode);
        },
    };
    let tb = match json::obj_get(dm, "token".as_bytes()) {
        Some(JsonValue::Str(tb)) => tb,
        _ => {
            return Err(AuthError::Decode);
        },
    };
    match json::string_from_utf8(vstd::slice::slice_to_vec(tb.as_slice())) {
        Some(token) => Ok(WebhookEvent::AuthorizationRevoked { token }),
        None => Err(AuthError::Decode),
    }
}

impl AuthClient {
    /// Verifies an inbound webhook and, only on success, interprets it.
    ///
    /// The body bytes must be the exact bytes received — the digest is
    /// computed over them as they are, so the caller must not
    /// re-serialize.
    pub fn webhook_event(&self, signature: &[u8], body: &[u8]) -> (r: Result<
        WebhookEvent,
        AuthError,
    >)
        ensures
            match r {
                Ok(ev) => spec_webhook_outcome(
                    spec_secret_view(self.webhook_secret),
                    signature@,
                    body@,
                ) == Ok::<WebhookEventV, AuthError>(ev@),
                Err(e) => spec_webhook_outcome(
                    spec_secret_view(self.webhook_secret),
                    signature@,
                    body@,
                ) == Err::<WebhookEventV, AuthError>(e),
            },
    {
        let secret = match &self.webhook_secret {
            Some(s) => s,
            None => {
                return Err(AuthError::WebhookUnconfigured);
            },
        };
        let digest = match base64_decode(signature) {
            Some(d) => d,
            None => {
                return Err(AuthError::SignatureInvalid);
            },
        };
        if !hmac_sha256_verify(secret.as_str().as_bytes(), body, digest.as_slice()) {
            return Err(AuthError::SignatureInvalid);
        }
        parse_webhook_event(body)
    }
}

/// The canonical revocation envelope for a token, as the provider
/// serializes it.
pub open spec fn spec_revocation_envelope(token: Seq<char>) -> JsonVal {
    JsonVal::Obj(
        seq![
            (encode_utf8("event_type"@), JsonVal::Str(encode_utf8("authorization_revoked"@))),
            (
                encode_utf8("data"@),
                JsonVal::Obj(seq![(encode_utf8("token"@), JsonVal::Str(encode_utf8(token)))]),
            ),
        ],
    )
}

/// Law: the canonical revocation envelope, serialized and interpreted
/// back, yields exactly the revocation event for its token.
pub proof fn lemma_webhook_envelope_round_trip(token: Seq<char>)
    ensures
        spec_webhook_event_of(json::spec_ser(spec_revocation_envelope(token))) == Ok::<
            WebhookEventV,
            AuthError,
        >(WebhookEventV::AuthorizationRevoked { token }),
{
    broadcast use vstd::utf8::encode_utf8_decode_utf8;
    broadcast use vstd::utf8::encode_utf8_valid_utf8;

    let jv = spec_revocation_envelope(token);
    let ms = jv->Obj_0;
    let m0 = (encode_utf8("event_type"@), JsonVal::Str(encode_utf8("authorization_revoked"@)));
    let dm = seq![(encode_utf8("token"@), JsonVal::Str(encode_utf8(token)))];
    let m1 = (encode_utf8("data"@), JsonVal::Obj(dm));
    assert(ms == seq![m0, m1]);
    // Every value fits the executable type: nothing here is an integer.
    let rest1 = ms.drop_first();
    assert(rest1 =~= seq![m1]);
    let rest2 = rest1.drop_first();
    assert(rest2 =~= Seq::<(Seq<u8>, JsonVal)>::empty());
    let drest1 = dm.drop_first();
    assert(drest1 =~= Seq::<(Seq<u8>, JsonVal)>::empty());
    assert(json::bounded_members(drest1));
    assert(json::bounded(dm[0].1));
    assert(json::bounded_members(dm));
    assert(json::bounded(m1.1));
    assert(json::bounded(m0.1));
    assert(json::bounded_members(rest2));
    assert(json::bounded_members(rest1));
    assert(json::bounded_members(ms));
    assert(json::bounded(jv));
    json::lemma_parse_ser_doc(jv);
    // The keys differ: their character sequences differ, so their
    // encodings differ.
    reveal_strlit("event_type");
    reveal_strlit("data");
    reveal_strlit("token");
    assert("event_type"@.len() == 10 && "data"@.len() == 4 && "token"@.len() == 5);
    assert(encode_utf8("data"@) != encode_utf8("event_type"@)) by {
        if encode_utf8("data"@) == encode_utf8("event_type"@) {
            assert(decode_utf8(encode_utf8("data"@)) == decode_utf8(encode_utf8("event_type"@)));
        }
    }
    assert(json::spec_obj_get(ms, encode_utf8("event_type"@)) == Some(m0.1));
    assert(json::spec_obj_get(ms, encode_utf8("data"@)) == Some(m1.1)) by {
        assert(json::spec_obj_get(rest1, encode_utf8("data"@)) == Some(m1.1));
    }
    assert(json::spec_obj_get(dm, encode_utf8("token"@)) == Some(dm[0].1));
    assert(decode_utf8(encode_utf8(token)) == token);
}

/// Law: with no configured webhook secret, verification fails with
/// `WebhookUnconfigured`, whatever the signature and body.
pub proof fn lemma_webhook_unconfigured(signature: Seq<u8>, body: Seq<u8>)
    ensures
        spec_webhook_outcome(None, signature, body) == Err::<WebhookEventV, AuthError>(
            AuthError::WebhookUnconfigured,
        ),
{
}

/// Law: under a configured key, a signature that decodes to the body's
/// digest verifies and the outcome is exactly the parsed event; a
/// signature that does not decode, or whose decoding differs from the
/// digest (as it does for any body whose digest differs), fails with
/// `SignatureInvalid`, and no event is produced.
pub proof fn lemma_webhook_signature(k: Seq<char>, signature: Seq<u8>, body: Seq<u8>)
    ensures
        base64_decode_of(signature) == Some(hmac_sha256_of(encode_utf8(k), body))
            ==> spec_webhook_outcome(Some(k), signature, body) == spec_webhook_event_of(body),
        base64_decode_of(signature) is None ==> spec_webhook_outcome(Some(k), signature, body)
            == Err::<WebhookEventV, AuthError>(AuthError::SignatureInvalid),
        (base64_decode_of(signature) matches Some(d) && d != hmac_sha256_of(encode_utf8(k), body))
            ==> spec_webhook_outcome(Some(k), signature, body) == Err::<WebhookEventV, AuthError>(
            AuthError::SignatureInvalid,
        ),
{
}

} // verus!
