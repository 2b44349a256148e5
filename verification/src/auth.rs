//! The held credential and its expiry predicate.

use vstd::prelude::*;

verus! {

/// A bearer-style credential held by the hosting application.
///
/// The token is opaque secret material; the expiry is an absolute UTC
/// timestamp in Unix milliseconds.  A credential is immutable once issued:
/// refreshing produces a new value, nothing here mutates an existing one.
#[derive(Clone, Debug, PartialEq, Eq)]
pub struct Auth {
    /// Opaque token string; treated as a secret, never logged.
    pub token: String,
    /// Absolute expiry, Unix time in milliseconds.
    pub expires_at: i64,
    /// When the credential last came out of a successful refresh, if ever.
    /// Informational only.
    pub refreshed_at: Option<i64>,
}

impl Auth {
    /// Builds a credential from its parts.
    pub fn new(token: &str, expires_at: i64, refreshed_at: Option<i64>) -> (r: Auth)
        ensures
            r.token@ == token@,
            r.expires_at == expires_at,
            r.refreshed_at == refreshed_at,
    {
        Auth { token: token.to_owned(), expires_at, refreshed_at }
    }

    /// What "expired" means: the expiry lies strictly before the given
    /// instant.
    pub open spec fn spec_expired(self, now: i64) -> bool {
        self.expires_at < now
    }

    /// The expiry predicate against an instant supplied by the caller
    /// (Unix milliseconds).
    pub fn is_expired_at(&self, now: i64) -> (r: bool)
        ensures
            r == self.spec_expired(now),
    {
        self.expires_at < now
    }

    /// The expiry predicate against the process clock.  The clock is
    /// outside what can be pinned down here; every decision taken on the
    /// answer is made by [`Auth::is_expired_at`], which this consults with
    /// the current instant.
    pub fn is_expired(&self) -> bool {
        self.is_expired_at(now_unix_millis())
    }
}

/// The mathematical shadow of [`Auth`].
pub struct AuthV {
    pub token: Seq<char>,
    pub expires_at: int,
    pub refreshed_at: Option<int>,
}

impl View for Auth {
    type V = AuthV;

    open spec fn view(&self) -> AuthV {
        AuthV {
            token: self.token@,
            expires_at: self.expires_at as int,
            refreshed_at: match self.refreshed_at {
                Some(t) => Some(t as int),
                None => None,
            },
        }
    }
}

/// A read-only profile snapshot fetched on behalf of the user.  A plain
/// data carrier: every field is required on the wire, none carries an
/// invariant beyond being present.  Timestamps are Unix milliseconds;
/// the identifier and the birthdate are kept in their wire string forms.
#[derive(Clone, Debug, PartialEq, Eq)]
pub struct UserInfo {
    pub id: String,
    pub username: String,
    pub email: String,
    pub display_name: String,
    pub initials: String,
    pub full_name: String,
    pub birthdate: String,
    pub language_code: String,
    pub country_alpha2: String,
    pub created_at: i64,
    pub updated_at: Option<i64>,
}

/// The mathematical shadow of [`UserInfo`].
pub struct UserInfoV {
    pub id: Seq<char>,
    pub username: Seq<char>,
    pub email: Seq<char>,
    pub display_name: Seq<char>,
    pub initials: Seq<char>,
    pub full_name: Seq<char>,
    pub birthdate: Seq<char>,
    pub language_code: Seq<char>,
    pub country_alpha2: Seq<char>,
    pub created_at: int,
    pub updated_at: Option<int>,
}

impl View for UserInfo {
    type V = UserInfoV;

    open spec fn view(&self) -> UserInfoV {
        UserInfoV {
            id: self.id@,
            username: self.username@,
            email: self.email@,
            display_name: self.display_name@,
            initials: self.initials@,
            full_name: self.full_name@,
            birthdate: self.birthdate@,
            language_code: self.language_code@,
            country_alpha2: self.country_alpha2@,
            created_at: self.created_at as int,
            updated_at: match self.updated_at {
                Some(t) => Some(t as int),
                None => None,
            },
        }
    }
}

/// Relies on `chrono::Utc::now` and `DateTime::timestamp_millis`: the
/// current wall-clock time as Unix milliseconds.  Nothing is promised of
/// the value; callers must hold for every answer.
#[verifier::external_body]
pub(crate) fn now_unix_millis() -> i64 {
    chrono::Utc::now().timestamp_millis()
}

} // verus!
