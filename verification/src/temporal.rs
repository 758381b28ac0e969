//! Temporal bounds on a token: expiry, issue-time sanity, and a maximum
//! lifespan that bounds exposure even when an expiry far in the future was
//! written into the token.

use vstd::prelude::*;
use crate::errors::ErrorKind;

verus! {

/// The configured maximum token lifespan, in seconds.
pub const DEFAULT_MAX_LIFESPAN_SECS: u64 = 30;

/// The temporal verdict on a token at wall-clock second `now`: expired
/// when `exp` has passed, issued in the future when `iat` lies ahead,
/// lifespan exceeded when the token is older than the allowed maximum.
pub open spec fn temporal_error(exp: int, iat: int, now: int, max_lifespan: int) -> Option<
    ErrorKind,
> {
    if exp < now {
        Some(ErrorKind::Expired)
    } else if iat > now {
        Some(ErrorKind::IssuedInFuture)
    } else if now - iat > max_lifespan {
        Some(ErrorKind::LifespanExceeded)
    } else {
        None
    }
}

/// Check the temporal bounds of a token's claims.
pub fn check_temporal(exp: u64, iat: u64, now: u64, max_lifespan: u64) -> (r: Option<ErrorKind>)
    ensures
        r == temporal_error(exp as int, iat as int, now as int, max_lifespan as int),
{
    if exp < now {
        Some(ErrorKind::Expired)
    } else if iat > now {
        Some(ErrorKind::IssuedInFuture)
    } else if now - iat > max_lifespan {
        Some(ErrorKind::LifespanExceeded)
    } else {
        None
    }
}

} // verus!
