//! Small decision helpers around the daemon's web surface: the content
//! type a static file is served under, the severity names of test
//! alerts, and the reading of a simple coordinate log line.

use vstd::prelude::*;
use vstd::string::StringSliceAdditionalSpecFns;
use crate::claims::bytes_eq;
use crate::jsonflat::copy_range;
use crate::jsonflat::parse_decimal_micro;
use crate::jsonflat::spec_decimal_micro;
use crate::secret::spec_trim;
use crate::secret::trim_bytes;
use crate::token::find_byte;
use crate::token::lemma_find_byte_bounds;

verus! {

/// Index after the last dot of a path, or zero when it has none.
pub open spec fn suffix_start(s: Seq<u8>) -> int
    decreases s.len(),
{
    if s.len() == 0 {
        0
    } else if s.last() == 46 {
        s.len() as int
    } else {
        suffix_start(s.drop_last())
    }
}

/// The content type a file is served under, decided by the text after
/// the path's last dot; anything unrecognized is served as raw bytes.
pub open spec fn spec_content_type(path: Seq<u8>) -> Seq<u8> {
    let e = path.skip(suffix_start(path));
    if e == "html".spec_bytes() {
        "text/html".spec_bytes()
    } else if e == "css".spec_bytes() {
        "text/css".spec_bytes()
    } else if e == "js".spec_bytes() {
        "application/javascript".spec_bytes()
    } else if e == "png".spec_bytes() {
        "image/png".spec_bytes()
    } else if e == "jpg".spec_bytes() || e == "jpeg".spec_bytes() {
        "image/jpeg".spec_bytes()
    } else if e == "gif".spec_bytes() {
        "image/gif".spec_bytes()
    } else if e == "svg".spec_bytes() {
        "image/svg+xml".spec_bytes()
    } else if e == "json".spec_bytes() {
        "application/json".spec_bytes()
    } else {
        "application/octet-stream".spec_bytes()
    }
}

/// The suffix start stays inside the input, and no dot follows it.
proof fn lemma_suffix_start_bounds(s: Seq<u8>)
    ensures
        0 <= suffix_start(s) <= s.len(),
    decreases s.len(),
{
    if s.len() > 0 && s.last() != 46 {
        lemma_suffix_start_bounds(s.drop_last());
    }
}

/// The content type a file is served under.
#[verifier::loop_isolation(false)]
pub fn content_type_for_path(path: &[u8]) -> (r: Vec<u8>)
    ensures
        r@ == spec_content_type(path@),
{
    proof {
        lemma_suffix_start_bounds(path@);
        assert(path@.take(path@.len() as int) =~= path@);
    }
    let n: usize = path.len();
    let mut b: usize = n;
    while b > 0 && path[b - 1] != 46
        invariant
            b <= n,
            suffix_start(path@) == suffix_start(path@.take(b as int)),
        decreases b,
    {
        proof {
            let t = path@.take(b as int);
            assert(t.last() == path@[b - 1]);
            assert(t.drop_last() =~= path@.take(b - 1));
        }
        b = b - 1;
    }
    proof {
        let t = path@.take(b as int);
        if t.len() > 0 {
            assert(t.last() == path@[b - 1]);
        }
        assert(suffix_start(t) == b);
        assert(path@.skip(b as int) =~= path@.subrange(b as int, n as int));
    }
    let ext = copy_range(path, b, n);
    let html = crate::provision::msg_bytes("html");
    let css = crate::provision::msg_bytes("css");
    let js = crate::provision::msg_bytes("js");
    let png = crate::provision::msg_bytes("png");
    let jpg = crate::provision::msg_bytes("jpg");
    let jpeg = crate::provision::msg_bytes("jpeg");
    let gif = crate::provision::msg_bytes("gif");
    let svg = crate::provision::msg_bytes("svg");
    let json = crate::provision::msg_bytes("json");
    if bytes_eq(ext.as_slice(), html.as_slice()) {
        crate::provision::msg_bytes("text/html")
    } else if bytes_eq(ext.as_slice(), css.as_slice()) {
        crate::provision::msg_bytes("text/css")
    } else if bytes_eq(ext.as_slice(), js.as_slice()) {
        crate::provision::msg_bytes("application/javascript")
    } else if bytes_eq(ext.as_slice(), png.as_slice()) {
        crate::provision::msg_bytes("image/png")
    } else if bytes_eq(ext.as_slice(), jpg.as_slice()) || bytes_eq(ext.as_slice(), jpeg.as_slice())
    {
        crate::provision::msg_bytes("image/jpeg")
    } else if bytes_eq(ext.as_slice(), gif.as_slice()) {
        crate::provision::msg_bytes("image/gif")
    } else if bytes_eq(ext.as_slice(), svg.as_slice()) {
        crate::provision::msg_bytes("image/svg+xml")
    } else if bytes_eq(ext.as_slice(), json.as_slice()) {
        crate::provision::msg_bytes("application/json")
    } else {
        crate::provision::msg_bytes("application/octet-stream")
    }
}

/// The severity of a reported event.
#[derive(Clone, Copy, Debug, PartialEq, Eq, Structural)]
pub enum Severity {
    High,
    Medium,
    Low,
}

/// A byte with ASCII uppercase folded to lowercase.
pub open spec fn ascii_lower(c: u8) -> u8 {
    if 65 <= c && c <= 90 {
        (c + 32) as u8
    } else {
        c
    }
}

/// The severity named by a string, compared ASCII-case-insensitively.
pub open spec fn spec_parse_severity(s: Seq<u8>) -> Option<Severity> {
    let lower = s.map_values(|c: u8| ascii_lower(c));
    if lower == "high".spec_bytes() {
        Some(Severity::High)
    } else if lower == "medium".spec_bytes() {
        Some(Severity::Medium)
    } else if lower == "low".spec_bytes() {
        Some(Severity::Low)
    } else {
        None
    }
}

/// The severity named by a string, compared ASCII-case-insensitively;
/// `None` refuses an unrecognized name rather than defaulting.
#[verifier::loop_isolation(false)]
pub fn parse_severity(s: &[u8]) -> (r: Option<Severity>)
    ensures
        r == spec_parse_severity(s@),
{
    let n: usize = s.len();
    let mut lower: Vec<u8> = Vec::new();
    let mut i: usize = 0;
    proof {
        assert(lower@ =~= s@.map_values(|c: u8| ascii_lower(c)).take(0));
    }
    while i < n
        invariant
            i <= n,
            lower@ == s@.map_values(|c: u8| ascii_lower(c)).take(i as int),
        decreases n - i,
    {
        let c = s[i];
        let d: u8 = if 65 <= c && c <= 90 {
            c + 32
        } else {
            c
        };
        lower.push(d);
        proof {
            assert(lower@ =~= s@.map_values(|c: u8| ascii_lower(c)).take(i + 1));
        }
        i = i + 1;
    }
    proof {
        assert(s@.map_values(|c: u8| ascii_lower(c)).take(n as int) =~= s@.map_values(
            |c: u8| ascii_lower(c),
        ));
    }
    let high = crate::provision::msg_bytes("high");
    let medium = crate::provision::msg_bytes("medium");
    let low = crate::provision::msg_bytes("low");
    if bytes_eq(lower.as_slice(), high.as_slice()) {
        Some(Severity::High)
    } else if bytes_eq(lower.as_slice(), medium.as_slice()) {
        Some(Severity::Medium)
    } else if bytes_eq(lower.as_slice(), low.as_slice()) {
        Some(Severity::Low)
    } else {
        None
    }
}

/// The severity named exactly, capitalized as the display layer writes
/// it.
pub open spec fn spec_parse_severity_exact(s: Seq<u8>) -> Option<Severity> {
    if s == "High".spec_bytes() {
        Some(Severity::High)
    } else if s == "Medium".spec_bytes() {
        Some(Severity::Medium)
    } else if s == "Low".spec_bytes() {
        Some(Severity::Low)
    } else {
        None
    }
}

/// The severity named exactly, capitalized as the display layer writes
/// it; `None` refuses an unrecognized name rather than defaulting.
pub fn parse_severity_exact(s: &[u8]) -> (r: Option<Severity>)
    ensures
        r == spec_parse_severity_exact(s@),
{
    let high = crate::provision::msg_bytes("High");
    let medium = crate::provision::msg_bytes("Medium");
    let low = crate::provision::msg_bytes("Low");
    if bytes_eq(s, high.as_slice()) {
        Some(Severity::High)
    } else if bytes_eq(s, medium.as_slice()) {
        Some(Severity::Medium)
    } else if bytes_eq(s, low.as_slice()) {
        Some(Severity::Low)
    } else {
        None
    }
}

/// A simple coordinate log line, `timestamp,latitude,longitude`, read
/// back into millionths: the second and third comma-separated fields,
/// trimmed, each one plain decimal number.
pub open spec fn spec_simple_gps_line(line: Seq<u8>) -> Option<(int, int)> {
    let c1 = find_byte(line, 44, 0);
    let c2 = find_byte(line, 44, c1 + 1);
    let c3 = find_byte(line, 44, c2 + 1);
    if c1 < line.len() && c2 < line.len() {
        let lat = spec_decimal_micro(spec_trim(line.subrange(c1 + 1, c2)));
        let lon = spec_decimal_micro(spec_trim(line.subrange(c2 + 1, c3)));
        match (lat, lon) {
            (Some(la), Some(lo)) => Some((la, lo)),
            _ => None,
        }
    } else {
        None
    }
}

/// Read a simple coordinate log line back into millionths.
pub fn parse_simple_gps_line(line: &[u8]) -> (r: Option<(i64, i64)>)
    ensures
        (match r {
            Some((la, lo)) => spec_simple_gps_line(line@) == Some((la as int, lo as int)),
            None => spec_simple_gps_line(line@) is None,
        }),
{
    let n: usize = line.len();
    let c1 = crate::token::find_byte_from(line, 44, 0);
    if c1 >= n {
        return None;
    }
    let c2 = crate::token::find_byte_from(line, 44, c1 + 1);
    if c2 >= n {
        return None;
    }
    let c3 = crate::token::find_byte_from(line, 44, c2 + 1);
    let part1 = copy_range(line, c1 + 1, c2);
    let part2 = copy_range(line, c2 + 1, c3);
    let t1 = trim_bytes(part1.as_slice());
    let t2 = trim_bytes(part2.as_slice());
    let la = match parse_decimal_micro(t1.as_slice()) {
        Some(v) => v,
        None => {
            return None;
        },
    };
    let lo = match parse_decimal_micro(t2.as_slice()) {
        Some(v) => v,
        None => {
            return None;
        },
    };
    Some((la, lo))
}

} // verus!
