//! Helpers for exercising the client with throwaway credentials.

use vstd::prelude::*;

use rand::RngExt;

use crate::auth::Auth;

verus! {

/// An ASCII letter or digit.
pub open spec fn is_alphanumeric_char(c: char) -> bool {
    ('a' <= c && c <= 'z') || ('A' <= c && c <= 'Z') || ('0' <= c && c <= '9')
}

/// Relies on `rand::distr::Alphanumeric`: every sampled byte is an ASCII
/// letter or digit, so the collected string has exactly one such
/// character per sample.  Which ones come out is chance; nothing more is
/// promised.
#[verifier::external_body]
pub fn generate_random_string(length: u8) -> (r: String)
    ensures
        r@.len() == length as nat,
        forall|i: int| 0 <= i < r@.len() ==> is_alphanumeric_char(#[trigger] r@[i]),
{
    rand::rng().sample_iter(&rand::distr::Alphanumeric).take(length as usize).map(
        char::from,
    ).collect()
}

/// A throwaway credential: a fresh random token of 32 characters, one
/// hour of validity from the process clock, never refreshed.
pub fn fake_auth() -> (r: Auth)
    ensures
        r.token@.len() == 32,
        forall|i: int| 0 <= i < r.token@.len() ==> is_alphanumeric_char(#[trigger] r.token@[i]),
        r.refreshed_at is None,
{
    let token = generate_random_string(32);
    let now = crate::auth::now_unix_millis();
    let expires_at: i64 = if now <= i64::MAX - 3_600_000 {
        now + 3_600_000
    } else {
        i64::MAX
    };
    Auth { token, expires_at, refreshed_at: None }
}

} // verus!
