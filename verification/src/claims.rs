//! Structured claims: extraction of the fixed claim set from a parsed flat
//! object, the header's algorithm profile, and the shape rules for the
//! token identifier and the coordinate ranges.
//!
//! Coordinates are held in millionths of a degree, rounded away from zero,
//! so that a range comparison against a whole-degree bound agrees with the
//! comparison of the written decimal value against that bound.

use vstd::prelude::*;
use crate::errors::ErrorKind;
use crate::jsonflat::SpecValue;
use crate::jsonflat::SpecNum;
use crate::jsonflat::JsonValue;
use crate::jsonflat::all_digits;
use crate::jsonflat::clamp_micro;
use crate::jsonflat::num_micro;
use crate::jsonflat::num_u64;
use crate::jsonflat::num_to_micro;
use crate::jsonflat::num_to_u64;
use crate::jsonflat::pairs_view;
use crate::jsonflat::spec_parse_object;
use crate::jsonflat::spec_parse_members;
use crate::jsonflat::spec_parse_value;
use crate::jsonflat::lemma_parse_number_digits;
use crate::jsonflat::spec_parse_string;
use crate::jsonflat::skip_ws;
use crate::jsonflat::lemma_parse_string_bounds;
use crate::jsonflat::lemma_skip_ws_bounds;
use crate::jsonflat::lemma_parse_value_bounds;

verus! {

/// The names this subsystem reads from a token's header and payload.
#[derive(Clone, Copy, Debug)]
pub enum ClaimKey {
    Lat,
    Lon,
    Exp,
    Iat,
    Jti,
    Accuracy,
    Altitude,
    Speed,
    Heading,
    Alg,
    Typ,
}

/// The bytes of a claim name.
pub open spec fn key_name(k: ClaimKey) -> Seq<u8> {
    match k {
        ClaimKey::Lat => seq![108u8, 97, 116],
        ClaimKey::Lon => seq![108u8, 111, 110],
        ClaimKey::Exp => seq![101u8, 120, 112],
        ClaimKey::Iat => seq![105u8, 97, 116],
        ClaimKey::Jti => seq![106u8, 116, 105],
        ClaimKey::Accuracy => seq![97u8, 99, 99, 117, 114, 97, 99, 121],
        ClaimKey::Altitude => seq![97u8, 108, 116, 105, 116, 117, 100, 101],
        ClaimKey::Speed => seq![115u8, 112, 101, 101, 100],
        ClaimKey::Heading => seq![104u8, 101, 97, 100, 105, 110, 103],
        ClaimKey::Alg => seq![97u8, 108, 103],
        ClaimKey::Typ => seq![116u8, 121, 112],
    }
}

/// The bytes of the one accepted algorithm name.
pub open spec fn hs256_name() -> Seq<u8> {
    seq![72u8, 83, 50, 53, 54]
}

/// The bytes of the one accepted token type name.
pub open spec fn jwt_name() -> Seq<u8> {
    seq![74u8, 87, 84]
}

/// The bytes of a claim name, as a runtime value.
pub fn key_bytes(k: ClaimKey) -> (v: Vec<u8>)
    ensures
        v@ == key_name(k),
{
    let mut v: Vec<u8> = Vec::new();
    match k {
        ClaimKey::Lat => {
            v.push(108);
            v.push(97);
            v.push(116);
        },
        ClaimKey::Lon => {
            v.push(108);
            v.push(111);
            v.push(110);
        },
        ClaimKey::Exp => {
            v.push(101);
            v.push(120);
            v.push(112);
        },
        ClaimKey::Iat => {
            v.push(105);
            v.push(97);
            v.push(116);
        },
        ClaimKey::Jti => {
            v.push(106);
            v.push(116);
            v.push(105);
        },
        ClaimKey::Accuracy => {
            v.push(97);
            v.push(99);
            v.push(99);
            v.push(117);
            v.push(114);
            v.push(97);
            v.push(99);
            v.push(121);
        },
        ClaimKey::Altitude => {
            v.push(97);
            v.push(108);
            v.push(116);
            v.push(105);
            v.push(116);
            v.push(117);
            v.push(100);
            v.push(101);
        },
        ClaimKey::Speed => {
            v.push(115);
            v.push(112);
            v.push(101);
            v.push(101);
            v.push(100);
        },
        ClaimKey::Heading => {
            v.push(104);
            v.push(101);
            v.push(97);
            v.push(100);
            v.push(105);
            v.push(110);
            v.push(103);
        },
        ClaimKey::Alg => {
            v.push(97);
            v.push(108);
            v.push(103);
        },
        ClaimKey::Typ => {
            v.push(116);
            v.push(121);
            v.push(112);
        },
    }
    proof {
        assert(v@ =~= key_name(k));
    }
    v
}

/// The bytes of the one accepted algorithm name, as a runtime value.
pub fn hs256_bytes() -> (v: Vec<u8>)
    ensures
        v@ == hs256_name(),
{
    let mut v: Vec<u8> = Vec::new();
    v.push(72);
    v.push(83);
    v.push(50);
    v.push(53);
    v.push(54);
    proof {
        assert(v@ =~= hs256_name());
    }
    v
}

/// The bytes of the one accepted token type name, as a runtime value.
pub fn jwt_bytes() -> (v: Vec<u8>)
    ensures
        v@ == jwt_name(),
{
    let mut v: Vec<u8> = Vec::new();
    v.push(74);
    v.push(87);
    v.push(84);
    proof {
        assert(v@ =~= jwt_name());
    }
    v
}

/// Plain byte-slice equality.
pub fn bytes_eq(a: &[u8], b: &[u8]) -> (r: bool)
    ensures
        r <==> a@ == b@,
{
    if a.len() != b.len() {
        assert(a@ != b@);
        return false;
    }
    let n: usize = a.len();
    let mut i: usize = 0;
    while i < n
        invariant
            i <= n,
            n == a@.len() == b@.len(),
            forall|j: int| 0 <= j < i ==> a@[j] == b@[j],
        decreases n - i,
    {
        if a[i] != b[i] {
            return false;
        }
        i = i + 1;
    }
    assert(a@ =~= b@);
    true
}

/// How often a key occurs among the members.
pub open spec fn key_count(ms: Seq<(Seq<u8>, SpecValue)>, k: Seq<u8>) -> int
    decreases ms.len(),
{
    if ms.len() == 0 {
        0
    } else {
        (if ms[0].0 == k {
            1int
        } else {
            0int
        }) + key_count(ms.drop_first(), k)
    }
}

/// The first value stored under a key, if any.
pub open spec fn key_lookup(ms: Seq<(Seq<u8>, SpecValue)>, k: Seq<u8>) -> Option<SpecValue>
    decreases ms.len(),
{
    if ms.len() == 0 {
        None
    } else if ms[0].0 == k {
        Some(ms[0].1)
    } else {
        key_lookup(ms.drop_first(), k)
    }
}

/// How often a key occurs among the members.
#[verifier::loop_isolation(false)]
fn count_key(ms: &Vec<(Vec<u8>, JsonValue)>, key: &Vec<u8>) -> (r: usize)
    ensures
        r as int == key_count(pairs_view(ms@), key@),
{
    let n: usize = ms.len();
    let ghost full = pairs_view(ms@);
    let mut acc: usize = 0;
    let mut i: usize = 0;
    proof {
        assert(full.skip(0) =~= full);
    }
    while i < n
        invariant
            i <= n,
            acc <= i,
            key_count(full, key@) == acc + key_count(full.skip(i as int), key@),
        decreases n - i,
    {
        proof {
            assert(full.skip(i as int)[0] == full[i as int]);
            assert(full.skip(i as int).drop_first() =~= full.skip(i + 1));
        }
        if bytes_eq(ms[i].0.as_slice(), key.as_slice()) {
            acc = acc + 1;
        }
        i = i + 1;
    }
    proof {
        assert(full.skip(n as int) =~= Seq::<(Seq<u8>, SpecValue)>::empty());
    }
    acc
}

/// The first value stored under a key, if any.
#[verifier::loop_isolation(false)]
fn lookup_key<'a>(ms: &'a Vec<(Vec<u8>, JsonValue)>, key: &Vec<u8>) -> (r: Option<
    &'a JsonValue,
>)
    ensures
        match r {
            Some(v) => key_lookup(pairs_view(ms@), key@) == Some(v@),
            None => key_lookup(pairs_view(ms@), key@) is None,
        },
{
    let n: usize = ms.len();
    let ghost full = pairs_view(ms@);
    let mut i: usize = 0;
    proof {
        assert(full.skip(0) =~= full);
    }
    while i < n
        invariant
            i <= n,
            key_lookup(full, key@) == key_lookup(full.skip(i as int), key@),
        decreases n - i,
    {
        proof {
            assert(full.skip(i as int)[0] == full[i as int]);
            assert(full.skip(i as int).drop_first() =~= full.skip(i + 1));
        }
        if bytes_eq(ms[i].0.as_slice(), key.as_slice()) {
            return Some(&ms[i].1);
        }
        i = i + 1;
    }
    proof {
        assert(full.skip(n as int) =~= Seq::<(Seq<u8>, SpecValue)>::empty());
    }
    None
}

/// The payload's claims in structured form: coordinates and optional
/// metadata in millionths, timestamps in whole seconds, the identifier's
/// bytes.
#[derive(Debug)]
pub struct Claims {
    pub lat_micro: i64,
    pub lon_micro: i64,
    pub exp: u64,
    pub iat: u64,
    pub jti: Vec<u8>,
    pub accuracy_micro: Option<i64>,
    pub altitude_micro: Option<i64>,
    pub speed_micro: Option<i64>,
    pub heading_micro: Option<i64>,
}

/// Mathematical image of `Claims`.
pub struct SpecClaims {
    pub lat_micro: int,
    pub lon_micro: int,
    pub exp: int,
    pub iat: int,
    pub jti: Seq<u8>,
    pub accuracy_micro: Option<int>,
    pub altitude_micro: Option<int>,
    pub speed_micro: Option<int>,
    pub heading_micro: Option<int>,
}

pub open spec fn opt_view(v: Option<i64>) -> Option<int> {
    match v {
        Some(x) => Some(x as int),
        None => None,
    }
}

impl View for Claims {
    type V = SpecClaims;

    open spec fn view(&self) -> SpecClaims {
        SpecClaims {
            lat_micro: self.lat_micro as int,
            lon_micro: self.lon_micro as int,
            exp: self.exp as int,
            iat: self.iat as int,
            jti: self.jti@,
            accuracy_micro: opt_view(self.accuracy_micro),
            altitude_micro: opt_view(self.altitude_micro),
            speed_micro: opt_view(self.speed_micro),
            heading_micro: opt_view(self.heading_micro),
        }
    }
}

/// The number behind a looked-up value, if it is a number.
pub open spec fn num_of(v: Option<SpecValue>) -> Option<SpecNum> {
    match v {
        Some(SpecValue::Num(n)) => Some(n),
        _ => None,
    }
}

/// The string content behind a looked-up value, if it is a string.
pub open spec fn str_of(v: Option<SpecValue>) -> Option<Seq<u8>> {
    match v {
        Some(SpecValue::Str(s)) => Some(s),
        _ => None,
    }
}

/// The unsigned whole value behind a looked-up value, if it is one.
pub open spec fn u64_of(v: Option<SpecValue>) -> Option<int> {
    match num_of(v) {
        Some(n) => num_u64(n),
        None => None,
    }
}

/// An optional metadata value is either absent or a number.
pub open spec fn opt_num_ok(v: Option<SpecValue>) -> bool {
    match v {
        None => true,
        Some(SpecValue::Num(_)) => true,
        Some(SpecValue::Str(_)) => false,
    }
}

/// An optional metadata value in clamped millionths.
pub open spec fn opt_micro(v: Option<SpecValue>) -> Option<int> {
    match v {
        Some(SpecValue::Num(n)) => Some(clamp_micro(num_micro(n))),
        _ => None,
    }
}

/// A member list is well formed when every number value holds digit text
/// in both parts; the parser only produces such lists.
pub open spec fn wf_value(v: SpecValue) -> bool {
    match v {
        SpecValue::Num(n) => all_digits(n.int_digits) && all_digits(n.frac_digits),
        SpecValue::Str(_) => true,
    }
}

pub open spec fn wf_members(ms: Seq<(Seq<u8>, SpecValue)>) -> bool {
    forall|i: int| 0 <= i < ms.len() ==> wf_value(#[trigger] ms[i].1)
}

/// The structured claims of a member list, or why they are refused: a
/// repeated recognized name or a wrong type is a schema violation, an
/// absent required name a missing claim.
pub open spec fn payload_claims(ms: Seq<(Seq<u8>, SpecValue)>) -> Result<SpecClaims, ErrorKind> {
    let lat = key_lookup(ms, key_name(ClaimKey::Lat));
    let lon = key_lookup(ms, key_name(ClaimKey::Lon));
    let exp = key_lookup(ms, key_name(ClaimKey::Exp));
    let iat = key_lookup(ms, key_name(ClaimKey::Iat));
    let jti = key_lookup(ms, key_name(ClaimKey::Jti));
    let accuracy = key_lookup(ms, key_name(ClaimKey::Accuracy));
    let altitude = key_lookup(ms, key_name(ClaimKey::Altitude));
    let speed = key_lookup(ms, key_name(ClaimKey::Speed));
    let heading = key_lookup(ms, key_name(ClaimKey::Heading));
    if key_count(ms, key_name(ClaimKey::Lat)) > 1 || key_count(ms, key_name(ClaimKey::Lon)) > 1
        || key_count(ms, key_name(ClaimKey::Exp)) > 1 || key_count(ms, key_name(ClaimKey::Iat))
        > 1 || key_count(ms, key_name(ClaimKey::Jti)) > 1 || key_count(
        ms,
        key_name(ClaimKey::Accuracy),
    ) > 1 || key_count(ms, key_name(ClaimKey::Altitude)) > 1 || key_count(
        ms,
        key_name(ClaimKey::Speed),
    ) > 1 || key_count(ms, key_name(ClaimKey::Heading)) > 1 {
        Err(ErrorKind::SchemaError)
    } else if lat is None || lon is None || exp is None || iat is None || jti is None {
        Err(ErrorKind::MissingClaim)
    } else if num_of(lat) is None || num_of(lon) is None {
        Err(ErrorKind::SchemaError)
    } else if u64_of(exp) is None || u64_of(iat) is None {
        Err(ErrorKind::SchemaError)
    } else if str_of(jti) is None {
        Err(ErrorKind::SchemaError)
    } else if !opt_num_ok(accuracy) || !opt_num_ok(altitude) || !opt_num_ok(speed) || !opt_num_ok(
        heading,
    ) {
        Err(ErrorKind::SchemaError)
    } else {
        Ok(
            SpecClaims {
                lat_micro: clamp_micro(num_micro(num_of(lat)->0)),
                lon_micro: clamp_micro(num_micro(num_of(lon)->0)),
                exp: u64_of(exp)->0,
                iat: u64_of(iat)->0,
                jti: str_of(jti)->0,
                accuracy_micro: opt_micro(accuracy),
                altitude_micro: opt_micro(altitude),
                speed_micro: opt_micro(speed),
                heading_micro: opt_micro(heading),
            },
        )
    }
}

/// The header's algorithm and type names, or a schema violation when
/// either is repeated, absent or not a string.
pub open spec fn header_fields(ms: Seq<(Seq<u8>, SpecValue)>) -> Result<
    (Seq<u8>, Seq<u8>),
    ErrorKind,
> {
    let alg = key_lookup(ms, key_name(ClaimKey::Alg));
    let typ = key_lookup(ms, key_name(ClaimKey::Typ));
    if key_count(ms, key_name(ClaimKey::Alg)) > 1 || key_count(ms, key_name(ClaimKey::Typ)) > 1 {
        Err(ErrorKind::SchemaError)
    } else if str_of(alg) is None || str_of(typ) is None {
        Err(ErrorKind::SchemaError)
    } else {
        Ok((str_of(alg)->0, str_of(typ)->0))
    }
}

/// A value found by lookup in a well-formed member list is well formed.
proof fn lemma_key_lookup_wf(ms: Seq<(Seq<u8>, SpecValue)>, k: Seq<u8>)
    requires
        wf_members(ms),
    ensures
        key_lookup(ms, k) is Some ==> wf_value(key_lookup(ms, k)->0),
    decreases ms.len(),
{
    if ms.len() > 0 && !(ms[0].0 == k) {
        assert forall|i: int| 0 <= i < ms.drop_first().len() implies wf_value(
            ms.drop_first()[i].1,
        ) by {
            assert(ms.drop_first()[i] == ms[i + 1]);
        }
        lemma_key_lookup_wf(ms.drop_first(), k);
    }
}

/// Extract the structured claims from a parsed payload object.
pub fn extract_claims(ms: &Vec<(Vec<u8>, JsonValue)>) -> (r: Result<Claims, ErrorKind>)
    requires
        wf_members(pairs_view(ms@)),
    ensures
        match (r, payload_claims(pairs_view(ms@))) {
            (Ok(c), Ok(sc)) => c@ == sc,
            (Err(e), Err(se)) => e == se,
            _ => false,
        },
{
    let ghost msv = pairs_view(ms@);
    proof {
        lemma_key_lookup_wf(msv, key_name(ClaimKey::Lat));
        lemma_key_lookup_wf(msv, key_name(ClaimKey::Lon));
        lemma_key_lookup_wf(msv, key_name(ClaimKey::Exp));
        lemma_key_lookup_wf(msv, key_name(ClaimKey::Iat));
        lemma_key_lookup_wf(msv, key_name(ClaimKey::Jti));
        lemma_key_lookup_wf(msv, key_name(ClaimKey::Accuracy));
        lemma_key_lookup_wf(msv, key_name(ClaimKey::Altitude));
        lemma_key_lookup_wf(msv, key_name(ClaimKey::Speed));
        lemma_key_lookup_wf(msv, key_name(ClaimKey::Heading));
    }
    let lat_k = key_bytes(ClaimKey::Lat);
    let lon_k = key_bytes(ClaimKey::Lon);
    let exp_k = key_bytes(ClaimKey::Exp);
    let iat_k = key_bytes(ClaimKey::Iat);
    let jti_k = key_bytes(ClaimKey::Jti);
    let accuracy_k = key_bytes(ClaimKey::Accuracy);
    let altitude_k = key_bytes(ClaimKey::Altitude);
    let speed_k = key_bytes(ClaimKey::Speed);
    let heading_k = key_bytes(ClaimKey::Heading);
    if count_key(ms, &lat_k) > 1 || count_key(ms, &lon_k) > 1 || count_key(ms, &exp_k) > 1
        || count_key(ms, &iat_k) > 1 || count_key(ms, &jti_k) > 1 || count_key(ms, &accuracy_k)
        > 1 || count_key(ms, &altitude_k) > 1 || count_key(ms, &speed_k) > 1 || count_key(
        ms,
        &heading_k,
    ) > 1 {
        return Err(ErrorKind::SchemaError);
    }
    let lat_v = lookup_key(ms, &lat_k);
    let lon_v = lookup_key(ms, &lon_k);
    let exp_v = lookup_key(ms, &exp_k);
    let iat_v = lookup_key(ms, &iat_k);
    let jti_v = lookup_key(ms, &jti_k);
    let accuracy_v = lookup_key(ms, &accuracy_k);
    let altitude_v = lookup_key(ms, &altitude_k);
    let speed_v = lookup_key(ms, &speed_k);
    let heading_v = lookup_key(ms, &heading_k);
    let (lat_v, lon_v, exp_v, iat_v, jti_v) = match (lat_v, lon_v, exp_v, iat_v, jti_v) {
        (Some(a), Some(b), Some(c), Some(d), Some(e)) => (a, b, c, d, e),
        _ => {
            return Err(ErrorKind::MissingClaim);
        },
    };
    let (lat_n, lon_n) = match (lat_v, lon_v) {
        (JsonValue::Num(a), JsonValue::Num(b)) => (a, b),
        _ => {
            return Err(ErrorKind::SchemaError);
        },
    };
    let (exp_n, iat_n) = match (exp_v, iat_v) {
        (JsonValue::Num(a), JsonValue::Num(b)) => (a, b),
        _ => {
            return Err(ErrorKind::SchemaError);
        },
    };
    let exp = match num_to_u64(exp_n) {
        Some(v) => v,
        None => {
            return Err(ErrorKind::SchemaError);
        },
    };
    let iat = match num_to_u64(iat_n) {
        Some(v) => v,
        None => {
            return Err(ErrorKind::SchemaError);
        },
    };
    let jti = match jti_v {
        JsonValue::Str(s) => s,
        _ => {
            return Err(ErrorKind::SchemaError);
        },
    };
    let accuracy_micro = match accuracy_v {
        None => None,
        Some(JsonValue::Num(n)) => Some(num_to_micro(n)),
        Some(JsonValue::Str(_)) => {
            return Err(ErrorKind::SchemaError);
        },
    };
    let altitude_micro = match altitude_v {
        None => None,
        Some(JsonValue::Num(n)) => Some(num_to_micro(n)),
        Some(JsonValue::Str(_)) => {
            return Err(ErrorKind::SchemaError);
        },
    };
    let speed_micro = match speed_v {
        None => None,
        Some(JsonValue::Num(n)) => Some(num_to_micro(n)),
        Some(JsonValue::Str(_)) => {
            return Err(ErrorKind::SchemaError);
        },
    };
    let heading_micro = match heading_v {
        None => None,
        Some(JsonValue::Num(n)) => Some(num_to_micro(n)),
        Some(JsonValue::Str(_)) => {
            return Err(ErrorKind::SchemaError);
        },
    };
    let c = Claims {
        lat_micro: num_to_micro(lat_n),
        lon_micro: num_to_micro(lon_n),
        exp,
        iat,
        jti: jti.clone(),
        accuracy_micro,
        altitude_micro,
        speed_micro,
        heading_micro,
    };
    Ok(c)
}

/// Extract the header's algorithm and type names.
pub fn extract_header(ms: &Vec<(Vec<u8>, JsonValue)>) -> (r: Result<(Vec<u8>, Vec<u8>), ErrorKind>)
    ensures
        match (r, header_fields(pairs_view(ms@))) {
            (Ok((a, t)), Ok((sa, st))) => a@ == sa && t@ == st,
            (Err(e), Err(se)) => e == se,
            _ => false,
        },
{
    let alg_k = key_bytes(ClaimKey::Alg);
    let typ_k = key_bytes(ClaimKey::Typ);
    if count_key(ms, &alg_k) > 1 || count_key(ms, &typ_k) > 1 {
        return Err(ErrorKind::SchemaError);
    }
    let alg_v = lookup_key(ms, &alg_k);
    let typ_v = lookup_key(ms, &typ_k);
    match (alg_v, typ_v) {
        (Some(JsonValue::Str(a)), Some(JsonValue::Str(t))) => Ok((a.clone(), t.clone())),
        _ => Err(ErrorKind::SchemaError),
    }
}

/// A character the token identifier may hold: ASCII letters, digits,
/// hyphen, underscore.
pub open spec fn is_jti_char(c: u8) -> bool {
    (48 <= c && c <= 57) || (65 <= c && c <= 90) || (97 <= c && c <= 122) || c == 45 || c == 95
}

/// A well-shaped token identifier: non-empty, at most 128 characters, all
/// from the allowed alphabet.
pub open spec fn spec_valid_jti(s: Seq<u8>) -> bool {
    0 < s.len() <= 128 && forall|i: int| 0 <= i < s.len() ==> is_jti_char(#[trigger] s[i])
}

/// Whether a token identifier is well shaped.
#[verifier::loop_isolation(false)]
pub fn is_valid_jwt_id(jti: &[u8]) -> (r: bool)
    ensures
        r <==> spec_valid_jti(jti@),
{
    let n: usize = jti.len();
    if n == 0 || n > 128 {
        return false;
    }
    let mut i: usize = 0;
    while i < n
        invariant
            i <= n,
            forall|j: int| 0 <= j < i ==> is_jti_char(#[trigger] jti@[j]),
        decreases n - i,
    {
        let c = jti[i];
        let ok = (48 <= c && c <= 57) || (65 <= c && c <= 90) || (97 <= c && c <= 122) || c == 45
            || c == 95;
        if !ok {
            return false;
        }
        i = i + 1;
    }
    true
}

/// Whether a latitude in millionths lies in [-90, 90] degrees.
pub fn is_valid_latitude(lat_micro: i64) -> (r: bool)
    ensures
        r <==> -90000000 <= lat_micro <= 90000000,
{
    -90000000 <= lat_micro && lat_micro <= 90000000
}

/// Whether a longitude in millionths lies in [-180, 180] degrees.
pub fn is_valid_longitude(lon_micro: i64) -> (r: bool)
    ensures
        r <==> -180000000 <= lon_micro <= 180000000,
{
    -180000000 <= lon_micro && lon_micro <= 180000000
}

/// Everything the parser produces is well formed: number values hold
/// digit text in both parts.
pub proof fn lemma_parse_members_wf(s: Seq<u8>, i: int)
    requires
        0 <= i <= s.len(),
    ensures
        match spec_parse_members(s, i) {
            Some((ms, i2)) => wf_members(ms),
            None => true,
        },
    decreases s.len() - i,
{
    if i < s.len() && s[i] == 34 {
        lemma_parse_string_bounds(s, i);
        if let Some((key, i2)) = spec_parse_string(s, i) {
            lemma_skip_ws_bounds(s, i2);
            let i3 = skip_ws(s, i2);
            if i3 < s.len() && s[i3] == 58 {
                lemma_skip_ws_bounds(s, i3 + 1);
                let i4 = skip_ws(s, i3 + 1);
                lemma_parse_value_bounds(s, i4);
                lemma_parse_number_digits(s, i4);
                if let Some((v, i5)) = spec_parse_value(s, i4) {
                    assert(wf_value(v));
                    lemma_skip_ws_bounds(s, i5);
                    let i6 = skip_ws(s, i5);
                    if i6 < s.len() && s[i6] == 44 {
                        lemma_skip_ws_bounds(s, i6 + 1);
                        let i7 = skip_ws(s, i6 + 1);
                        lemma_parse_members_wf(s, i7);
                        if let Some((rest, i8)) = spec_parse_members(s, i7) {
                            let ms = (spec_parse_members(s, i)->0).0;
                            assert(ms == seq![(key, v)] + rest);
                            assert forall|t: int| 0 <= t < ms.len() implies wf_value(
                                ms[t].1,
                            ) by {
                                if t == 0 {
                                } else {
                                    assert(ms[t] == rest[t - 1]);
                                }
                            }
                        }
                    } else {
                        let ms = (spec_parse_members(s, i)->0).0;
                        assert(ms == seq![(key, v)]);
                        assert(forall|t: int| 0 <= t < ms.len() ==> wf_value(#[trigger] ms[t].1));
                    }
                }
            }
        }
    }
}

/// Everything a parsed object holds is well formed.
pub proof fn lemma_parse_object_wf(s: Seq<u8>)
    ensures
        match spec_parse_object(s) {
            Some(ms) => wf_members(ms),
            None => true,
        },
{
    lemma_skip_ws_bounds(s, 0);
    let i0 = skip_ws(s, 0);
    if i0 < s.len() && s[i0] == 123 {
        lemma_skip_ws_bounds(s, i0 + 1);
        let i1 = skip_ws(s, i0 + 1);
        if i1 < s.len() && s[i1] == 125 {
        } else {
            lemma_parse_members_wf(s, i1);
        }
    }
}

} // verus!
