//! Checking a name and a password against the table of users.

use std::sync::Arc;
use vstd::prelude::*;

use crate::table::{lemma_map_entries, lookup};
use crate::text::trim_spec;
use crate::user::{opt_view, users_view, User, UserMap, UserView};

verus! {

/// What is asked of a client certificate. Nothing, so far.
#[derive(Clone, Debug)]
pub struct ClientCertCredential {}

/// What a client presents to prove who it is.
#[derive(Clone, Debug)]
pub struct Credentials {
    /// The password that the client sent, if it sent one.
    pub password: Option<String>,
}

/// Why an authentication failed.
#[derive(Debug, Clone, Copy, PartialEq, Eq, Structural)]
pub enum AuthenticationError {
    /// The password is missing or wrong.
    BadPassword,
    /// There is no such user.
    BadUser,
}

/// All that a client learns of a failed authentication.
#[derive(Debug, Clone, Copy, PartialEq, Eq, Structural)]
pub struct LoginFailed;

/// How long every failed authentication is held back, in milliseconds.
pub const FAILURE_DELAY_MILLIS: u64 = 1500;

impl AuthenticationError {
    /// How long to wait before the failure is reported.
    pub open spec fn delay_spec(self) -> u64 {
        FAILURE_DELAY_MILLIS
    }

    /// What the client is told.
    pub open spec fn surfaced_spec(self) -> LoginFailed {
        LoginFailed
    }

    /// How long to wait before the failure is reported, in milliseconds. The
    /// time does not depend on why the authentication failed.
    pub fn delay_millis(&self) -> (millis: u64)
        ensures
            millis == self.delay_spec(),
    {
        FAILURE_DELAY_MILLIS
    }

    /// What the client is told: that the authentication failed, not why.
    pub fn surfaced(&self) -> (told: LoginFailed)
        ensures
            told == self.surfaced_spec(),
    {
        LoginFailed
    }
}

/// Any two failures are held back equally long, and look the same to the
/// client.
pub proof fn lemma_failures_look_alike(a: AuthenticationError, b: AuthenticationError)
    ensures
        a.delay_spec() == b.delay_spec(),
        a.delay_spec() == 1500,
        a.surfaced_spec() == b.surfaced_spec(),
{
}

/// Checks names and passwords against a table of users.
#[derive(Clone, Debug)]
pub struct Authenticator {
    pub users: Arc<UserMap>,
}

/// The outcome of checking `password` for the account `username` among
/// `users`: the user, where the account is there and the password, without
/// the whitespace around it, is the account's.
pub open spec fn authenticate_spec(
    users: Seq<(Seq<char>, UserView)>,
    username: Seq<char>,
    password: Option<Seq<char>>,
) -> Result<UserView, AuthenticationError> {
    match lookup(users, username) {
        None => Err(AuthenticationError::BadUser),
        Some(user) => match password {
            None => Err(AuthenticationError::BadPassword),
            Some(given) => if trim_spec(user.password) == trim_spec(given) {
                Ok(user)
            } else {
                Err(AuthenticationError::BadPassword)
            },
        },
    }
}

/// The view of the outcome of an authentication.
pub open spec fn outcome_view(res: Result<&User, AuthenticationError>) -> Result<
    UserView,
    AuthenticationError,
> {
    match res {
        Ok(user) => Ok(user@),
        Err(why) => Err(why),
    }
}

impl Authenticator {
    /// Checks the credentials `creds` for the account `username`.
    ///
    /// A failure is to be reported only after `delay_millis` of the error
    /// have passed; a success at once.
    pub fn authenticate(&self, username: &str, creds: &Credentials) -> (res: Result<
        &User,
        AuthenticationError,
    >)
        ensures
            outcome_view(res) == authenticate_spec(
                users_view(self.users@),
                username@,
                opt_view(creds.password),
            ),
    {
        let key = username.to_owned();
        proof {
            lemma_map_entries(self.users@, |u: User| u@, username@);
        }
        match self.users.get(&key) {
            Some(user) => match &creds.password {
                Some(given) => if user.password_ok(given.as_str()) {
                    Ok(user)
                } else {
                    Err(AuthenticationError::BadPassword)
                },
                None => Err(AuthenticationError::BadPassword),
            },
            None => Err(AuthenticationError::BadUser),
        }
    }
}

} // verus!
