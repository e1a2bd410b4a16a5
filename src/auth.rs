//! Who is asking: tokens, and the guards that admit users and admins.

use vstd::prelude::*;

verus! {

/// A signed token that names a user and whether it is an admin.
#[derive(Debug)]
pub struct ApiToken(pub String);

/// Why a request was not admitted.
#[derive(Debug)]
pub enum ApiTokenError {
    /// The request carried no token.
    Missing,
    /// The token could not be validated.
    Invalid,
}

/// Admits any logged-in user; holds the user's id.
#[derive(Debug)]
pub struct UGuard(pub i64);

/// Admits an admin only; holds the admin's id.
#[derive(Debug)]
pub struct AGuard(pub i64);

/// The HTTP status for a request without a token.
pub const BAD_REQUEST: u16 = 400;

/// The HTTP status for a request with a token that does not validate.
pub const UNAUTHORIZED: u16 = 401;

/// What a guard makes of a request.
#[derive(Debug)]
pub enum Outcome<G> {
    /// The request is admitted.
    Success(G),
    /// The request is not for this guard; another route may take it.
    Forward,
    /// The request is refused with this status.
    Failure(u16, ApiTokenError),
}

impl AGuard {
    /// Decides on a request: `has_token` says whether it carried a token, and
    /// `claims` is what validating that token gave (the user id and whether
    /// the user is an admin), or `None` where it did not validate. A token of
    /// a user who is not an admin is passed on to the next route.
    pub fn from_claims(has_token: bool, claims: Option<(i64, bool)>) -> (r: Outcome<AGuard>)
        ensures
            !has_token ==> r == Outcome::<AGuard>::Failure(BAD_REQUEST, ApiTokenError::Missing),
            has_token && claims is None ==> r == Outcome::<AGuard>::Failure(UNAUTHORIZED, ApiTokenError::Invalid),
            has_token && claims is Some && claims.unwrap().1 ==> r == Outcome::Success(AGuard(claims.unwrap().0)),
            has_token && claims is Some && !claims.unwrap().1 ==> r == Outcome::<AGuard>::Forward,
    {
        if !has_token {
            return Outcome::Failure(BAD_REQUEST, ApiTokenError::Missing);
        }
        match claims {
            None => Outcome::Failure(UNAUTHORIZED, ApiTokenError::Invalid),
            Some((id, is_admin)) => {
                if is_admin {
                    Outcome::Success(AGuard(id))
                } else {
                    Outcome::Forward
                }
            },
        }
    }
}

impl UGuard {
    /// Decides on a request as `AGuard::from_claims` does, but admits every
    /// user whose token validates, admin or not.
    pub fn from_claims(has_token: bool, claims: Option<(i64, bool)>) -> (r: Outcome<UGuard>)
        ensures
            !has_token ==> r == Outcome::<UGuard>::Failure(BAD_REQUEST, ApiTokenError::Missing),
            has_token && claims is None ==> r == Outcome::<UGuard>::Failure(UNAUTHORIZED, ApiTokenError::Invalid),
            has_token && claims is Some ==> r == Outcome::Success(UGuard(claims.unwrap().0)),
    {
        if !has_token {
            return Outcome::Failure(BAD_REQUEST, ApiTokenError::Missing);
        }
        match claims {
            None => Outcome::Failure(UNAUTHORIZED, ApiTokenError::Invalid),
            Some((id, _)) => Outcome::Success(UGuard(id)),
        }
    }
}

} // verus!
