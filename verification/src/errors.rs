//! Failure taxonomy shared by every client operation.

use vstd::prelude::*;

verus! {

/// Everything a client operation or the webhook verifier can fail with.
///
/// The kinds are disjoint on purpose: a caller can tell a local precondition
/// failure (`ExpiredCredential`, no network traffic happened) from a
/// transport fault, a provider rejection (the HTTP status is carried along),
/// a malformed response body, and the three webhook outcomes.  Nothing is
/// retried or swallowed on this side; every failure is surfaced as one of
/// these.
#[derive(Clone, Copy, Debug, PartialEq, Eq, Structural)]
pub enum AuthError {
    /// The held credential was already expired; the operation was refused
    /// locally, before any request was built.
    ExpiredCredential,
    /// The request could not be carried to the provider or the response
    /// could not be carried back (connectivity, TLS, timeout).
    Transport,
    /// The provider answered with the carried non-2xx HTTP status.
    ProviderRejected(u16),
    /// The provider answered 2xx but the body did not decode into the
    /// expected shape.
    Decode,
    /// Webhook verification is impossible: no webhook secret is configured.
    WebhookUnconfigured,
    /// The webhook signature did not decode, or did not match the body.
    SignatureInvalid,
    /// The webhook was authentic but carried an event type this client does
    /// not understand.
    UnsupportedEventType,
}

} // verus!
