//! The signed-in user's tokens, and whether a token has expired.

use vstd::prelude::*;
use vstd::string::StringExecFns;

use crate::clock::{current_instant, parse_instant, rfc3339_instant, Instant};
use crate::error::StoreError;
use crate::model::StoreState;
use crate::progress::ProgressStore;

verus! {

/// A token of the signed-in user. The times are RFC 3339 texts, kept as the
/// remote side sent them.
#[derive(Debug, Clone, PartialEq, Eq)]
pub struct AuthToken {
    pub token: String,
    pub token_type: String,
    pub expires_at: String,
    pub created_at: String,
    pub is_refresh_token: bool,
}

impl AuthToken {
    /// A copy of the token.
    pub fn duplicate(&self) -> (r: AuthToken)
        ensures
            r == *self,
    {
        AuthToken {
            token: self.token.clone(),
            token_type: self.token_type.clone(),
            expires_at: self.expires_at.clone(),
            created_at: self.created_at.clone(),
            is_refresh_token: self.is_refresh_token,
        }
    }
}

/// The type under which tokens are stored.
pub open spec fn bearer() -> Seq<char> {
    "Bearer"@
}

/// `token` is the bearer token `text` that expires at `expires_at` and was
/// stored at `created_at`, a refresh token or not as `is_refresh_token`
/// says.
pub open spec fn is_token(
    token: AuthToken,
    text: String,
    expires_at: String,
    created_at: Seq<char>,
    is_refresh_token: bool,
) -> bool {
    &&& token.token == text
    &&& token.token_type@ == bearer()
    &&& token.expires_at == expires_at
    &&& token.created_at@ == created_at
    &&& token.is_refresh_token == is_refresh_token
}

/// The tokens of the signed-in user: at most one access token and one
/// refresh token.
pub struct TokenStore {
    access: Option<AuthToken>,
    refresh: Option<AuthToken>,
}

impl View for TokenStore {
    type V = (Option<AuthToken>, Option<AuthToken>);

    closed spec fn view(&self) -> (Option<AuthToken>, Option<AuthToken>) {
        (self.access, self.refresh)
    }
}

impl TokenStore {
    /// No tokens: nobody is signed in.
    pub fn new() -> (r: TokenStore)
        ensures
            r@ == (None::<AuthToken>, None::<AuthToken>),
    {
        TokenStore { access: None, refresh: None }
    }

    /// The tokens as they were kept elsewhere.
    pub fn restore(access: Option<AuthToken>, refresh: Option<AuthToken>) -> (r: TokenStore)
        ensures
            r@ == (access, refresh),
    {
        TokenStore { access, refresh }
    }

    /// Stores the tokens of a sign-in, in place of any that were there. Both
    /// are stored as bearer tokens created at `created_at`.
    pub fn save_auth_tokens(
        &mut self,
        access_token: String,
        access_expires_at: String,
        refresh_token: String,
        refresh_expires_at: String,
        created_at: &str,
    )
        ensures
            final(self)@.0 matches Some(a) && is_token(
                a,
                access_token,
                access_expires_at,
                created_at@,
                false,
            ),
            final(self)@.1 matches Some(t) && is_token(
                t,
                refresh_token,
                refresh_expires_at,
                created_at@,
                true,
            ),
    {
        self.access = Some(
            AuthToken {
                token: access_token,
                token_type: "Bearer".to_owned(),
                expires_at: access_expires_at,
                created_at: created_at.to_owned(),
                is_refresh_token: false,
            },
        );
        self.refresh = Some(
            AuthToken {
                token: refresh_token,
                token_type: "Bearer".to_owned(),
                expires_at: refresh_expires_at,
                created_at: created_at.to_owned(),
                is_refresh_token: true,
            },
        );
    }

    /// The access token and the refresh token, as far as there are any.
    pub fn get_auth_tokens(&self) -> (r: (Option<AuthToken>, Option<AuthToken>))
        ensures
            r == self@,
    {
        let access = match &self.access {
            Some(t) => Some(t.duplicate()),
            None => None,
        };
        let refresh = match &self.refresh {
            Some(t) => Some(t.duplicate()),
            None => None,
        };
        (access, refresh)
    }

    /// Signs out: drops the tokens and forgets the students that `store`
    /// knows.
    pub fn clear_auth_tokens(&mut self, store: &mut ProgressStore)
        requires
            old(store).wf(),
        ensures
            final(self)@ == (None::<AuthToken>, None::<AuthToken>),
            final(store).wf(),
            final(store)@ == (StoreState { students: Seq::empty(), ..old(store)@ }),
    {
        self.access = None;
        self.refresh = None;
        store.clear_students();
    }
}

/// Whether something that expires at `expiry` has expired at `now`: it has
/// once `now` is strictly later.
pub fn expired_at(expiry: Instant, now: Instant) -> (r: bool)
    ensures
        r == now.later_than(expiry),
{
    now.is_later_than(&expiry)
}

/// Whether a token whose expiry is given as RFC 3339 text has expired at
/// `now`. Text that is not RFC 3339 is `InvalidInput`.
pub fn token_expired_at(expires_at: &str, now: Instant) -> (r: Result<bool, StoreError>)
    ensures
        match rfc3339_instant(expires_at@) {
            Some(at) => r matches Ok(expired) && expired == (now.seconds > at.0 || (now.seconds
                == at.0 && now.nanos > at.1)),
            None => r == Err::<bool, StoreError>(StoreError::InvalidInput),
        },
{
    match parse_instant(expires_at) {
        Ok(expiry) => Ok(expired_at(expiry, now)),
        Err(e) => Err(e),
    }
}

/// Whether a token whose expiry is given as RFC 3339 text has expired by the
/// system clock. Which of `Ok(true)` and `Ok(false)` comes back depends on
/// the clock; text that is not RFC 3339 is `InvalidInput` whatever the time.
pub fn check_token_expired(expires_at: &str) -> (r: Result<bool, StoreError>)
    ensures
        r is Ok <==> rfc3339_instant(expires_at@) is Some,
        r is Err ==> r == Err::<bool, StoreError>(StoreError::InvalidInput),
{
    let now = current_instant();
    token_expired_at(expires_at, now)
}

/// A text without the white space at its ends, as `str::trim` of the
/// standard library returns it.
pub uninterp spec fn trimmed(text: Seq<char>) -> Seq<char>;

/// Calls `str::trim`. Trusted: the result is `trimmed` of the text.
#[verifier::external_body]
fn trim_text(text: &str) -> (r: &str)
    ensures
        r@ == trimmed(text@),
{
    text.trim()
}

/// The name under which a user is shown: the full name where one is given;
/// else the first and the last name with a blank between them, without white
/// space at the ends; `InvalidInput` where neither the full name nor both of
/// the others are given.
pub fn display_name(full_name: Option<&str>, first_name: Option<&str>, last_name: Option<&str>)
    -> (r: Result<String, StoreError>)
    ensures
        match full_name {
            Some(full) => r matches Ok(name) && name@ == full@,
            None => match (first_name, last_name) {
                (Some(first), Some(last)) => r matches Ok(name) && name@ == trimmed(
                    first@ + " "@ + last@,
                ),
                _ => r == Err::<String, StoreError>(StoreError::InvalidInput),
            },
        },
{
    match full_name {
        Some(full) => Ok(full.to_owned()),
        None => match (first_name, last_name) {
            (Some(first), Some(last)) => {
                let mut joined = first.to_owned();
                joined.append(" ");
                joined.append(last);
                Ok(trim_text(joined.as_str()).to_owned())
            },
            _ => Err(StoreError::InvalidInput),
        },
    }
}

} // verus!
