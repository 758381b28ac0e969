//! The response surface of the coordinate endpoint: the security block a
//! successful validation reports, and the shape of an error response. The
//! surrounding server turns them into the wire format.

use vstd::prelude::*;

verus! {

/// What a successful validation asserts about itself.
#[derive(Clone, Copy, Debug, PartialEq, Eq, Structural)]
pub struct GpsV2Security {
    pub token_validated: bool,
    pub claims_integrity_verified: bool,
    pub replay_protection_active: bool,
    pub token_lifetime_seconds: u64,
    pub jti_verified: bool,
}

/// The security block of a response to a fully validated token: every
/// guard ran, and the configured lifespan bound is echoed.
pub fn success_security(max_lifespan: u64) -> (r: GpsV2Security)
    ensures
        r.token_validated,
        r.claims_integrity_verified,
        r.replay_protection_active,
        r.token_lifetime_seconds == max_lifespan,
        r.jti_verified,
{
    GpsV2Security {
        token_validated: true,
        claims_integrity_verified: true,
        replay_protection_active: true,
        token_lifetime_seconds: max_lifespan,
        jti_verified: true,
    }
}

/// The body of an error response: a status word, the human-readable
/// error, the taxonomy code, and optional security details.
pub struct GpsV2Error {
    pub status: String,
    pub error: String,
    pub code: String,
    pub security_details: Option<String>,
}

} // verus!
