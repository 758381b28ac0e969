//! The validation pipeline: a single pass over an inbound token through
//! structure, decoding, schema, algorithm profile, signature, temporal
//! bounds, identifier shape and replay, ending in a validated coordinate
//! or a final rejection.

use vstd::prelude::*;
use vstd::string::StringSliceAdditionalSpecFns;
use crate::base64url::base64url_decode;
use crate::base64url::spec_decode;
use crate::claims::Claims;
use crate::claims::SpecClaims;
use crate::claims::bytes_eq;
use crate::claims::extract_claims;
use crate::claims::extract_header;
use crate::claims::header_fields;
use crate::claims::hs256_bytes;
use crate::claims::hs256_name;
use crate::claims::is_valid_jwt_id;
use crate::claims::is_valid_latitude;
use crate::claims::is_valid_longitude;
use crate::claims::jwt_bytes;
use crate::claims::jwt_name;
use crate::claims::lemma_parse_object_wf;
use crate::claims::payload_claims;
use crate::claims::spec_valid_jti;
use crate::errors::ErrorKind;
use crate::errors::StatusClass;
use crate::jsonflat::copy_range;
use crate::jsonflat::parse_flat_object;
use crate::jsonflat::spec_parse_object;
use crate::replay::ReplayGuard;
use crate::sigverify::hmac_sha256;
use crate::sigverify::signing_input;
use crate::sigverify::verify_signature;
use crate::temporal::check_temporal;
use crate::temporal::temporal_error;

verus! {

/// First index at or after `from` holding byte `b`, or the length.
pub open spec fn find_byte(s: Seq<u8>, b: u8, from: int) -> int
    decreases s.len() - from,
        when 0 <= from <= s.len()
{
    if from < s.len() {
        if s[from] == b {
            from
        } else {
            find_byte(s, b, from + 1)
        }
    } else {
        s.len() as int
    }
}

/// A found byte lies inside the input at or after the scan start.
pub proof fn lemma_find_byte_bounds(s: Seq<u8>, b: u8, from: int)
    requires
        0 <= from <= s.len(),
    ensures
        from <= find_byte(s, b, from) <= s.len(),
        find_byte(s, b, from) < s.len() ==> s[find_byte(s, b, from)] == b,
    decreases s.len() - from,
{
    if from < s.len() && s[from] != b {
        lemma_find_byte_bounds(s, b, from + 1);
    }
}

/// The three segments of a token: it must hold exactly two dots, and the
/// segments between them must all be non-empty.
pub open spec fn spec_split3(s: Seq<u8>) -> Option<(Seq<u8>, Seq<u8>, Seq<u8>)> {
    let d1 = find_byte(s, 46, 0);
    let d2 = find_byte(s, 46, d1 + 1);
    let d3 = find_byte(s, 46, d2 + 1);
    if d1 < s.len() && d2 < s.len() && d3 == s.len() && 0 < d1 && d1 + 1 < d2 && d2 + 1 < s.len() {
        Some((s.subrange(0, d1), s.subrange(d1 + 1, d2), s.subrange(d2 + 1, s.len() as int)))
    } else {
        None
    }
}

/// First index at or after `from` holding byte `b`, or the length.
#[verifier::loop_isolation(false)]
pub(crate) fn find_byte_from(s: &[u8], b: u8, from: usize) -> (r: usize)
    requires
        from <= s@.len(),
    ensures
        r as int == find_byte(s@, b, from as int),
        from <= r <= s@.len(),
{
    proof {
        lemma_find_byte_bounds(s@, b, from as int);
    }
    let n: usize = s.len();
    let mut j: usize = from;
    while j < n && s[j] != b
        invariant
            from <= j <= n,
            find_byte(s@, b, from as int) == find_byte(s@, b, j as int),
        decreases n - j,
    {
        j = j + 1;
    }
    j
}

/// The parse half of the pipeline, before any secret, clock or replay
/// state is consulted: split the token, decode the three segments, read
/// the header and hold it to the fixed profile, read the payload's
/// claims. Gives the two encoded segments, the signature bytes and the
/// claims, or the first rule the token broke.
pub open spec fn spec_parse_token(token: Seq<u8>) -> Result<
    (Seq<u8>, Seq<u8>, Seq<u8>, SpecClaims),
    ErrorKind,
> {
    match spec_split3(token) {
        None => Err(ErrorKind::StructureError),
        Some((h, p, g)) => match (spec_decode(h), spec_decode(p), spec_decode(g)) {
            (Some(hb), Some(pb), Some(sig)) => match spec_parse_object(hb) {
                None => Err(ErrorKind::SchemaError),
                Some(hm) => match header_fields(hm) {
                    Err(e) => Err(e),
                    Ok((alg, typ)) => if !(alg == hs256_name() && typ == jwt_name()) {
                        Err(ErrorKind::UnsupportedAlgorithm)
                    } else {
                        match spec_parse_object(pb) {
                            None => Err(ErrorKind::SchemaError),
                            Some(pm) => match payload_claims(pm) {
                                Err(e) => Err(e),
                                Ok(c) => Ok((h, p, sig, c)),
                            },
                        }
                    },
                },
            },
            _ => Err(ErrorKind::DecodeError),
        },
    }
}

/// The verdict of the whole validation pipeline on a token, under a given
/// secret, clock second, lifespan bound and set of already-used
/// identifiers: the structured claims, or the first rule the token broke.
pub open spec fn spec_validate_token(
    token: Seq<u8>,
    secret: Seq<u8>,
    now: u64,
    max_lifespan: u64,
    seen: Set<Seq<u8>>,
) -> Result<SpecClaims, ErrorKind> {
    match spec_parse_token(token) {
        Err(e) => Err(e),
        Ok((h, p, sig, c)) => if sig != hmac_sha256(secret, signing_input(h, p)) {
            Err(ErrorKind::SignatureMismatch)
        } else {
            match temporal_error(c.exp, c.iat, now as int, max_lifespan as int) {
                Some(e) => Err(e),
                None => if !spec_valid_jti(c.jti) {
                    Err(ErrorKind::InvalidJti)
                } else if seen.contains(c.jti) {
                    Err(ErrorKind::ReplayDetected)
                } else {
                    Ok(c)
                },
            }
        },
    }
}

/// Run the whole validation pipeline on a token: split, decode, parse,
/// check the fixed algorithm profile, verify the signature over the
/// original segments, enforce the temporal bounds at `now`, check the
/// identifier's shape, and claim it against the replay guard. The guard
/// gains the identifier exactly when the token is accepted.
pub fn validate_token(
    token: &[u8],
    secret: &[u8],
    now: u64,
    max_lifespan: u64,
    replay: &mut ReplayGuard,
) -> (r: Result<Claims, ErrorKind>)
    ensures
        (match (r, spec_validate_token(token@, secret@, now, max_lifespan, old(replay)@)) {
            (Ok(c), Ok(sc)) => c@ == sc,
            (Err(e), Err(se)) => e == se,
            _ => false,
        }),
        final(replay)@ == (match spec_validate_token(
            token@,
            secret@,
            now,
            max_lifespan,
            old(replay)@,
        ) {
            Ok(sc) => old(replay)@.insert(sc.jti),
            Err(_) => old(replay)@,
        }),
{
    let n: usize = token.len();
    let d1 = find_byte_from(token, 46, 0);
    if d1 >= n {
        return Err(ErrorKind::StructureError);
    }
    let d2 = find_byte_from(token, 46, d1 + 1);
    if d2 >= n {
        return Err(ErrorKind::StructureError);
    }
    let d3 = find_byte_from(token, 46, d2 + 1);
    if d3 < n {
        return Err(ErrorKind::StructureError);
    }
    if !(0 < d1 && d1 + 1 < d2 && d2 + 1 < n) {
        return Err(ErrorKind::StructureError);
    }
    let h_seg = copy_range(token, 0, d1);
    let p_seg = copy_range(token, d1 + 1, d2);
    let s_seg = copy_range(token, d2 + 1, n);
    let hb = match base64url_decode(h_seg.as_slice()) {
        Some(v) => v,
        None => {
            return Err(ErrorKind::DecodeError);
        },
    };
    let pb = match base64url_decode(p_seg.as_slice()) {
        Some(v) => v,
        None => {
            return Err(ErrorKind::DecodeError);
        },
    };
    let sig = match base64url_decode(s_seg.as_slice()) {
        Some(v) => v,
        None => {
            return Err(ErrorKind::DecodeError);
        },
    };
    let hm = match parse_flat_object(hb.as_slice()) {
        Some(m) => m,
        None => {
            return Err(ErrorKind::SchemaError);
        },
    };
    let (alg, typ) = match extract_header(&hm) {
        Ok(p) => p,
        Err(e) => {
            return Err(e);
        },
    };
    let hs256 = hs256_bytes();
    let jwt = jwt_bytes();
    if !(bytes_eq(alg.as_slice(), hs256.as_slice()) && bytes_eq(typ.as_slice(), jwt.as_slice())) {
        return Err(ErrorKind::UnsupportedAlgorithm);
    }
    let pm = match parse_flat_object(pb.as_slice()) {
        Some(m) => m,
        None => {
            return Err(ErrorKind::SchemaError);
        },
    };
    proof {
        lemma_parse_object_wf(pb@);
    }
    let claims = match extract_claims(&pm) {
        Ok(c) => c,
        Err(e) => {
            return Err(e);
        },
    };
    if !verify_signature(h_seg.as_slice(), p_seg.as_slice(), sig.as_slice(), secret) {
        return Err(ErrorKind::SignatureMismatch);
    }
    match check_temporal(claims.exp, claims.iat, now, max_lifespan) {
        Some(e) => {
            return Err(e);
        },
        None => {},
    }
    if !is_valid_jwt_id(claims.jti.as_slice()) {
        return Err(ErrorKind::InvalidJti);
    }
    if !replay.accept_or_reject(claims.jti.as_slice()) {
        return Err(ErrorKind::ReplayDetected);
    }
    Ok(claims)
}

/// The one artifact handed downstream: a coordinate that passed the whole
/// pipeline and the range checks. It is only ever built by
/// `validate_coordinate`.
#[derive(Debug)]
pub struct ValidatedCoordinate {
    latitude_micro: i64,
    longitude_micro: i64,
    timestamp: u64,
    accuracy_micro: Option<i64>,
    altitude_micro: Option<i64>,
    speed_micro: Option<i64>,
    heading_micro: Option<i64>,
}

/// Mathematical image of `ValidatedCoordinate`.
pub struct SpecCoordinate {
    pub latitude_micro: int,
    pub longitude_micro: int,
    pub timestamp: int,
    pub accuracy_micro: Option<int>,
    pub altitude_micro: Option<int>,
    pub speed_micro: Option<int>,
    pub heading_micro: Option<int>,
}

impl View for ValidatedCoordinate {
    type V = SpecCoordinate;

    closed spec fn view(&self) -> SpecCoordinate {
        SpecCoordinate {
            latitude_micro: self.latitude_micro as int,
            longitude_micro: self.longitude_micro as int,
            timestamp: self.timestamp as int,
            accuracy_micro: crate::claims::opt_view(self.accuracy_micro),
            altitude_micro: crate::claims::opt_view(self.altitude_micro),
            speed_micro: crate::claims::opt_view(self.speed_micro),
            heading_micro: crate::claims::opt_view(self.heading_micro),
        }
    }
}

/// A claim-range violation: the signed coordinate lies outside the world.
#[derive(Clone, Copy, Debug, PartialEq, Eq, Structural)]
pub enum CoordinateError {
    InvalidLatitude,
    InvalidLongitude,
}

/// The range verdict on validated claims: latitude within [-90, 90]
/// degrees, longitude within [-180, 180] degrees, latitude judged first.
pub open spec fn coordinate_check(c: SpecClaims) -> Option<CoordinateError> {
    if !(-90000000 <= c.lat_micro <= 90000000) {
        Some(CoordinateError::InvalidLatitude)
    } else if !(-180000000 <= c.lon_micro <= 180000000) {
        Some(CoordinateError::InvalidLongitude)
    } else {
        None
    }
}

/// The coordinate a set of claims stands for: position and metadata from
/// the claims, the timestamp from the issue time.
pub open spec fn coord_of(c: SpecClaims) -> SpecCoordinate {
    SpecCoordinate {
        latitude_micro: c.lat_micro,
        longitude_micro: c.lon_micro,
        timestamp: c.iat,
        accuracy_micro: c.accuracy_micro,
        altitude_micro: c.altitude_micro,
        speed_micro: c.speed_micro,
        heading_micro: c.heading_micro,
    }
}

/// Check the coordinate ranges of fully validated claims and build the
/// artifact handed downstream.
pub fn validate_coordinate(c: &Claims) -> (r: Result<ValidatedCoordinate, CoordinateError>)
    ensures
        (match r {
            Ok(v) => coordinate_check(c@) is None && v@ == coord_of(c@),
            Err(e) => coordinate_check(c@) == Some(e),
        }),
{
    if !is_valid_latitude(c.lat_micro) {
        return Err(CoordinateError::InvalidLatitude);
    }
    if !is_valid_longitude(c.lon_micro) {
        return Err(CoordinateError::InvalidLongitude);
    }
    Ok(
        ValidatedCoordinate {
            latitude_micro: c.lat_micro,
            longitude_micro: c.lon_micro,
            timestamp: c.iat,
            accuracy_micro: c.accuracy_micro,
            altitude_micro: c.altitude_micro,
            speed_micro: c.speed_micro,
            heading_micro: c.heading_micro,
        },
    )
}

impl ValidatedCoordinate {
    /// Latitude in millionths of a degree.
    pub fn latitude_micro(&self) -> (r: i64)
        ensures
            r as int == self@.latitude_micro,
    {
        self.latitude_micro
    }

    /// Longitude in millionths of a degree.
    pub fn longitude_micro(&self) -> (r: i64)
        ensures
            r as int == self@.longitude_micro,
    {
        self.longitude_micro
    }

    /// Seconds since the epoch, taken from the token's issue time.
    pub fn timestamp(&self) -> (r: u64)
        ensures
            r as int == self@.timestamp,
    {
        self.timestamp
    }

    /// Accuracy in millionths of a meter, when the token carried it.
    pub fn accuracy_micro(&self) -> (r: Option<i64>)
        ensures
            crate::claims::opt_view(r) == self@.accuracy_micro,
    {
        self.accuracy_micro
    }

    /// Altitude in millionths of a meter, when the token carried it.
    pub fn altitude_micro(&self) -> (r: Option<i64>)
        ensures
            crate::claims::opt_view(r) == self@.altitude_micro,
    {
        self.altitude_micro
    }

    /// Speed in millionths of a meter per second, when the token carried
    /// it.
    pub fn speed_micro(&self) -> (r: Option<i64>)
        ensures
            crate::claims::opt_view(r) == self@.speed_micro,
    {
        self.speed_micro
    }

    /// Heading in millionths of a degree, when the token carried it.
    pub fn heading_micro(&self) -> (r: Option<i64>)
        ensures
            crate::claims::opt_view(r) == self@.heading_micro,
    {
        self.heading_micro
    }
}

/// Which response a rejection maps onto: authentication failures are
/// unauthorized, range violations a bad request, key-file and clock
/// failures the server's own fault.
pub open spec fn spec_status_class(e: ErrorKind) -> StatusClass {
    match e {
        ErrorKind::StructureError => StatusClass::Unauthorized,
        ErrorKind::DecodeError => StatusClass::Unauthorized,
        ErrorKind::SchemaError => StatusClass::Unauthorized,
        ErrorKind::MissingClaim => StatusClass::Unauthorized,
        ErrorKind::UnsupportedAlgorithm => StatusClass::Unauthorized,
        ErrorKind::SignatureMismatch => StatusClass::Unauthorized,
        ErrorKind::Expired => StatusClass::Unauthorized,
        ErrorKind::IssuedInFuture => StatusClass::Unauthorized,
        ErrorKind::LifespanExceeded => StatusClass::Unauthorized,
        ErrorKind::InvalidJti => StatusClass::Unauthorized,
        ErrorKind::ReplayDetected => StatusClass::Unauthorized,
        ErrorKind::KeyFileError => StatusClass::ServerError,
        ErrorKind::KeyFormatError => StatusClass::ServerError,
        ErrorKind::PinValidation => StatusClass::BadRequest,
        ErrorKind::KeyDerivation => StatusClass::ServerError,
        ErrorKind::Permission => StatusClass::ServerError,
        ErrorKind::InternalError => StatusClass::ServerError,
    }
}

/// Which response a rejection maps onto.
pub fn status_class(e: ErrorKind) -> (r: StatusClass)
    ensures
        r == spec_status_class(e),
{
    match e {
        ErrorKind::StructureError => StatusClass::Unauthorized,
        ErrorKind::DecodeError => StatusClass::Unauthorized,
        ErrorKind::SchemaError => StatusClass::Unauthorized,
        ErrorKind::MissingClaim => StatusClass::Unauthorized,
        ErrorKind::UnsupportedAlgorithm => StatusClass::Unauthorized,
        ErrorKind::SignatureMismatch => StatusClass::Unauthorized,
        ErrorKind::Expired => StatusClass::Unauthorized,
        ErrorKind::IssuedInFuture => StatusClass::Unauthorized,
        ErrorKind::LifespanExceeded => StatusClass::Unauthorized,
        ErrorKind::InvalidJti => StatusClass::Unauthorized,
        ErrorKind::ReplayDetected => StatusClass::Unauthorized,
        ErrorKind::KeyFileError => StatusClass::ServerError,
        ErrorKind::KeyFormatError => StatusClass::ServerError,
        ErrorKind::PinValidation => StatusClass::BadRequest,
        ErrorKind::KeyDerivation => StatusClass::ServerError,
        ErrorKind::Permission => StatusClass::ServerError,
        ErrorKind::InternalError => StatusClass::ServerError,
    }
}


/// Nothing is accepted without every guard: an accepted token parsed and
/// passed the fixed profile, its signature equals the HMAC of its own
/// segments under the secret, it is not expired, not issued in the
/// future, within the lifespan bound, its identifier is well shaped, and
/// that identifier was never accepted before.
pub proof fn lemma_acceptance_requires_all_guards(
    token: Seq<u8>,
    secret: Seq<u8>,
    now: u64,
    max_lifespan: u64,
    seen: Set<Seq<u8>>,
)
    ensures
        (match spec_validate_token(token, secret, now, max_lifespan, seen) {
            Ok(c) => (match spec_parse_token(token) {
                Ok((h, p, sig, c2)) => c2 == c && sig == hmac_sha256(
                    secret,
                    signing_input(h, p),
                ) && c.exp >= now && c.iat <= now && now - c.iat <= max_lifespan
                    && spec_valid_jti(c.jti) && !seen.contains(c.jti),
                Err(_) => false,
            }),
            Err(_) => true,
        }),
{
}

/// A token whose signature was not computed with this secret is rejected
/// as a signature mismatch, however valid all its claims are.
pub proof fn lemma_wrong_secret_rejected(
    token: Seq<u8>,
    secret: Seq<u8>,
    now: u64,
    max_lifespan: u64,
    seen: Set<Seq<u8>>,
)
    requires
        (match spec_parse_token(token) {
            Ok((h, p, sig, c)) => sig != hmac_sha256(secret, signing_input(h, p)),
            Err(_) => false,
        }),
    ensures
        spec_validate_token(token, secret, now, max_lifespan, seen) == Err::<
            SpecClaims,
            ErrorKind,
        >(ErrorKind::SignatureMismatch),
{
}

/// A correctly signed token whose expiry has passed is rejected as
/// expired, whatever its other timestamps say. (A token with a wrong
/// signature is rejected earlier, as a signature mismatch.)
pub proof fn lemma_expired_rejected(
    token: Seq<u8>,
    secret: Seq<u8>,
    now: u64,
    max_lifespan: u64,
    seen: Set<Seq<u8>>,
)
    requires
        (match spec_parse_token(token) {
            Ok((h, p, sig, c)) => sig == hmac_sha256(secret, signing_input(h, p)) && c.exp < now,
            Err(_) => false,
        }),
    ensures
        spec_validate_token(token, secret, now, max_lifespan, seen) == Err::<
            SpecClaims,
            ErrorKind,
        >(ErrorKind::Expired),
{
}

/// A correctly signed token older than the configured maximum lifespan is
/// rejected for its age even when its own expiry still lies in the
/// future.
pub proof fn lemma_lifespan_rejected(
    token: Seq<u8>,
    secret: Seq<u8>,
    now: u64,
    max_lifespan: u64,
    seen: Set<Seq<u8>>,
)
    requires
        (match spec_parse_token(token) {
            Ok((h, p, sig, c)) => sig == hmac_sha256(secret, signing_input(h, p)) && c.exp >= now
                && c.iat <= now && now - c.iat > max_lifespan,
            Err(_) => false,
        }),
    ensures
        spec_validate_token(token, secret, now, max_lifespan, seen) == Err::<
            SpecClaims,
            ErrorKind,
        >(ErrorKind::LifespanExceeded),
{
}

/// A correctly signed, temporally sound token whose identifier is not
/// well shaped is rejected for the identifier alone.
pub proof fn lemma_bad_jti_rejected(
    token: Seq<u8>,
    secret: Seq<u8>,
    now: u64,
    max_lifespan: u64,
    seen: Set<Seq<u8>>,
)
    requires
        (match spec_parse_token(token) {
            Ok((h, p, sig, c)) => sig == hmac_sha256(secret, signing_input(h, p))
                && temporal_error(c.exp, c.iat, now as int, max_lifespan as int) is None
                && !spec_valid_jti(c.jti),
            Err(_) => false,
        }),
    ensures
        spec_validate_token(token, secret, now, max_lifespan, seen) == Err::<
            SpecClaims,
            ErrorKind,
        >(ErrorKind::InvalidJti),
{
}

/// A token accepted once is afterwards rejected as a replay: after its
/// identifier has been recorded, the identical token is refused with a
/// replay verdict, whatever else still holds of it.
pub proof fn lemma_second_use_is_replay(
    token: Seq<u8>,
    secret: Seq<u8>,
    now: u64,
    max_lifespan: u64,
    seen: Set<Seq<u8>>,
)
    ensures
        (match spec_validate_token(token, secret, now, max_lifespan, seen) {
            Ok(c) => spec_validate_token(token, secret, now, max_lifespan, seen.insert(c.jti))
                == Err::<SpecClaims, ErrorKind>(ErrorKind::ReplayDetected),
            Err(_) => true,
        }),
{
}

/// A coordinate outside the world is refused whatever else holds of its
/// token: a latitude beyond ninety degrees in magnitude is an invalid
/// latitude, an in-range latitude with a longitude beyond one hundred
/// eighty degrees an invalid longitude; acceptance means both ranges
/// hold.
pub proof fn lemma_out_of_range_rejected(c: SpecClaims)
    ensures
        (c.lat_micro < -90000000 || c.lat_micro > 90000000) ==> coordinate_check(c) == Some(
            CoordinateError::InvalidLatitude,
        ),
        (-90000000 <= c.lat_micro <= 90000000 && (c.lon_micro < -180000000 || c.lon_micro
            > 180000000)) ==> coordinate_check(c) == Some(CoordinateError::InvalidLongitude),
        coordinate_check(c) is None ==> -90000000 <= c.lat_micro <= 90000000 && -180000000
            <= c.lon_micro <= 180000000,
{
}


/// The token inside an Authorization header value: the text after the
/// `Bearer ` prefix, or nothing when the prefix is absent.
pub open spec fn spec_bearer_token(auth: Seq<u8>) -> Option<Seq<u8>> {
    if auth.len() >= 7 && auth.take(7) == "Bearer ".spec_bytes() {
        Some(auth.skip(7))
    } else {
        None
    }
}

/// Strip the `Bearer ` prefix from an Authorization header value.
pub fn strip_bearer(auth: &[u8]) -> (r: Option<Vec<u8>>)
    ensures
        (match r {
            Some(t) => spec_bearer_token(auth@) == Some(t@),
            None => spec_bearer_token(auth@) is None,
        }),
{
    if auth.len() < 7 {
        return None;
    }
    let prefix = crate::provision::msg_bytes("Bearer ");
    let head = copy_range(auth, 0, 7);
    if !bytes_eq(head.as_slice(), prefix.as_slice()) {
        return None;
    }
    Some(copy_range(auth, 7, auth.len()))
}

} // verus!
