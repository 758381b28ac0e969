//! The shared secret as persisted: hex text, read back into raw key
//! bytes. The surrounding daemon reads the file; this module checks the
//! text's shape and decodes it.

use vstd::prelude::*;
use crate::errors::ErrorKind;
use crate::hexcodec::hex_decode;
use crate::hexcodec::spec_hex_decode;
use crate::jsonflat::copy_range;

verus! {

/// ASCII whitespace as trimmed from the stored text: tab, line feed, form
/// feed, carriage return, space.
pub open spec fn is_trim_ws(c: u8) -> bool {
    c == 9 || c == 10 || c == 12 || c == 13 || c == 32
}

/// First index at or after `i` without leading whitespace.
pub open spec fn trim_start_idx(s: Seq<u8>, i: int) -> int
    decreases s.len() - i,
        when 0 <= i <= s.len()
{
    if i < s.len() && is_trim_ws(s[i]) {
        trim_start_idx(s, i + 1)
    } else {
        i
    }
}

/// Index after the last byte that is not trailing whitespace.
pub open spec fn trim_end_idx(s: Seq<u8>) -> int
    decreases s.len(),
{
    if s.len() > 0 && is_trim_ws(s.last()) {
        trim_end_idx(s.drop_last())
    } else {
        s.len() as int
    }
}

/// The text with leading and trailing ASCII whitespace removed.
pub open spec fn spec_trim(s: Seq<u8>) -> Seq<u8> {
    let a = trim_start_idx(s, 0);
    let b = trim_end_idx(s);
    if a <= b {
        s.subrange(a, b)
    } else {
        Seq::empty()
    }
}

/// The trim start stays inside the input.
proof fn lemma_trim_start_bounds(s: Seq<u8>, i: int)
    requires
        0 <= i <= s.len(),
    ensures
        i <= trim_start_idx(s, i) <= s.len(),
    decreases s.len() - i,
{
    if i < s.len() && is_trim_ws(s[i]) {
        lemma_trim_start_bounds(s, i + 1);
    }
}

/// The trim end stays inside the input.
proof fn lemma_trim_end_bounds(s: Seq<u8>)
    ensures
        0 <= trim_end_idx(s) <= s.len(),
    decreases s.len(),
{
    if s.len() > 0 && is_trim_ws(s.last()) {
        lemma_trim_end_bounds(s.drop_last());
    }
}

/// The text with leading and trailing ASCII whitespace removed.
#[verifier::loop_isolation(false)]
pub fn trim_bytes(s: &[u8]) -> (r: Vec<u8>)
    ensures
        r@ == spec_trim(s@),
{
    proof {
        lemma_trim_start_bounds(s@, 0);
        lemma_trim_end_bounds(s@);
    }
    let n: usize = s.len();
    let mut a: usize = 0;
    while a < n && (s[a] == 9 || s[a] == 10 || s[a] == 12 || s[a] == 13 || s[a] == 32)
        invariant
            a <= n,
            trim_start_idx(s@, 0) == trim_start_idx(s@, a as int),
        decreases n - a,
    {
        a = a + 1;
    }
    let mut b: usize = n;
    proof {
        assert(s@.take(n as int) =~= s@);
    }
    while b > 0 && (s[b - 1] == 9 || s[b - 1] == 10 || s[b - 1] == 12 || s[b - 1] == 13 || s[b
        - 1] == 32)
        invariant
            b <= n,
            trim_end_idx(s@) == trim_end_idx(s@.take(b as int)),
        decreases b,
    {
        proof {
            let t = s@.take(b as int);
            assert(t.last() == s@[b - 1]);
            assert(t.drop_last() =~= s@.take(b - 1));
        }
        b = b - 1;
    }
    proof {
        let t = s@.take(b as int);
        if t.len() > 0 {
            assert(t.last() == s@[b - 1]);
        }
        assert(trim_end_idx(t) == b);
    }
    if a >= b {
        let r: Vec<u8> = Vec::new();
        proof {
            if trim_start_idx(s@, 0) <= trim_end_idx(s@) {
                assert(s@.subrange(a as int, b as int) =~= Seq::<u8>::empty());
            }
            assert(r@ =~= spec_trim(s@));
        }
        r
    } else {
        copy_range(s, a, b)
    }
}

/// Read the persisted secret's text into raw key bytes: trim it, require
/// exactly twice the expected key size in hex digits, and decode. Any
/// deviation is a key-format failure.
pub fn parse_secret_key(content: &[u8], expected_key_len: usize) -> (r: Result<Vec<u8>, ErrorKind>)
    ensures
        (match r {
            Ok(k) => spec_trim(content@).len() == 2 * expected_key_len && spec_hex_decode(
                spec_trim(content@),
            ) == Some(k@) && k@.len() == expected_key_len,
            Err(e) => e == ErrorKind::KeyFormatError && (spec_trim(content@).len() != 2
                * expected_key_len || spec_hex_decode(spec_trim(content@)) is None),
        }),
{
    let t = trim_bytes(content);
    if t.len() % 2 != 0 || t.len() / 2 != expected_key_len {
        return Err(ErrorKind::KeyFormatError);
    }
    match hex_decode(t.as_slice()) {
        Some(k) => Ok(k),
        None => Err(ErrorKind::KeyFormatError),
    }
}

/// Check only the shape of a stored key: its trimmed text has exactly two
/// hex digits for each expected key byte. This is not a cryptographic
/// validity check.
pub fn validate_key_length(content: &[u8], expected_key_len: usize) -> (r: bool)
    ensures
        r <==> spec_trim(content@).len() == 2 * expected_key_len,
{
    let t = trim_bytes(content);
    t.len() % 2 == 0 && t.len() / 2 == expected_key_len
}

} // verus!
