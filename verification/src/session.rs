//! The claims of a session token.

use vstd::prelude::*;

verus! {

/// How long a session lasts, in seconds.
pub const SESSION_SECONDS: usize = 3600;

/// What a session token says: for whom it was issued, when, and until when
/// it holds, the times in seconds since the start of 1970.
#[derive(Debug, PartialEq, Eq)]
pub struct Claims {
    pub sub: String,
    pub iat: usize,
    pub exp: usize,
}

/// Whether a session can start at `now`: the time and the end of the session
/// can be written down.
pub open spec fn can_start_at(now: i64) -> bool {
    0 <= now && now + SESSION_SECONDS <= usize::MAX
}

/// The claims of a session of the user `user_id` that starts at `now` and
/// lasts an hour; nothing where no session can start at `now`.
pub fn claims_at(user_id: &str, now: i64) -> (r: Option<Claims>)
    ensures
        r is Some <==> can_start_at(now),
        r matches Some(claims) ==> claims.sub@ == user_id@ && claims.iat == now && claims.exp == now
            + SESSION_SECONDS,
{
    if now < 0 {
        return None;
    }
    if now as u64 > usize::MAX as u64 {
        return None;
    }
    let iat: usize = now as usize;
    match iat.checked_add(SESSION_SECONDS) {
        Some(exp) => Some(Claims { sub: user_id.to_owned(), iat, exp }),
        None => None,
    }
}

} // verus!
