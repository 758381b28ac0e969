//! Signature verification: HMAC-SHA256 over the signing input and a
//! constant-time comparison of the supplied signature against the expected
//! one.

use vstd::prelude::*;

verus! {

/// The HMAC-SHA256 digest of a message under a key. The digest is a
/// function of the two arguments alone; what it is on given values is
/// stated nowhere, so nothing rests on its content.
pub uninterp spec fn hmac_sha256(key: Seq<u8>, msg: Seq<u8>) -> Seq<u8>;

/// Relies on the hmac crate's `Hmac<Sha256>` (`new_from_slice`, `update`,
/// `finalize`): the digest depends on key and message alone and is 32
/// bytes, the SHA-256 output size; `new_from_slice` accepts any key
/// length for HMAC.
#[verifier::external_body]
fn hmac_sha256_digest(key: &[u8], msg: &[u8]) -> (r: Vec<u8>)
    ensures
        r@ == hmac_sha256(key@, msg@),
        r@.len() == 32,
{
    let mut mac = <hmac::Hmac<sha2::Sha256> as hmac::KeyInit>::new_from_slice(key)
        .expect("HMAC accepts any key length");
    hmac::Mac::update(&mut mac, msg);
    hmac::Mac::finalize(mac).into_bytes().as_slice().to_vec()
}

/// The bytes HMAC is computed over: the header segment, a dot, the
/// payload segment, as originally encoded.
pub open spec fn signing_input(header_seg: Seq<u8>, payload_seg: Seq<u8>) -> Seq<u8> {
    header_seg + seq![46u8] + payload_seg
}

/// Recompute the expected signature over the two encoded segments with
/// the shared secret and compare it to the supplied signature bytes in
/// constant time.
#[verifier::loop_isolation(false)]
pub fn verify_signature(
    header_seg: &[u8],
    payload_seg: &[u8],
    signature: &[u8],
    secret: &[u8],
) -> (r: bool)
    ensures
        r <==> signature@ == hmac_sha256(secret@, signing_input(header_seg@, payload_seg@)),
{
    let mut msg: Vec<u8> = Vec::new();
    let hn: usize = header_seg.len();
    let mut i: usize = 0;
    while i < hn
        invariant
            i <= hn,
            msg@ == header_seg@.take(i as int),
        decreases hn - i,
    {
        msg.push(header_seg[i]);
        proof {
            assert(msg@ =~= header_seg@.take(i + 1));
        }
        i = i + 1;
    }
    msg.push(46);
    let pn: usize = payload_seg.len();
    let mut j: usize = 0;
    proof {
        assert(header_seg@.take(hn as int) =~= header_seg@);
        assert(payload_seg@.take(0) =~= Seq::<u8>::empty());
        assert(msg@ =~= header_seg@ + seq![46u8] + payload_seg@.take(0));
    }
    while j < pn
        invariant
            j <= pn,
            msg@ == header_seg@ + seq![46u8] + payload_seg@.take(j as int),
        decreases pn - j,
    {
        msg.push(payload_seg[j]);
        proof {
            assert(payload_seg@.take(j as int).push(payload_seg@[j as int]) =~= payload_seg@.take(
                j + 1,
            ));
            assert(msg@ =~= header_seg@ + seq![46u8] + payload_seg@.take(j + 1));
        }
        j = j + 1;
    }
    proof {
        assert(payload_seg@.take(pn as int) =~= payload_seg@);
    }
    let expected = hmac_sha256_digest(secret, msg.as_slice());
    constant_time_eq(expected.as_slice(), signature)
}

/// Constant-time byte-slice equality.
///
/// Returns true iff the two slices are byte-for-byte equal. A length
/// mismatch returns false at once (length is not secret); for equal
/// lengths the comparison accumulates a bitwise OR of pairwise XORs over
/// all bytes, never returning early on the first differing byte, so the
/// running time does not depend on the position of the first difference.
pub fn constant_time_eq(a: &[u8], b: &[u8]) -> (r: bool)
    ensures
        r <==> a@ == b@,
{
    if a.len() != b.len() {
        assert(a@ != b@);
        return false;
    }
    let n: usize = a.len();
    let mut acc: u8 = 0;
    let mut i: usize = 0;
    while i < n
        invariant
            n == a@.len() == b@.len(),
            0 <= i <= n,
            (acc == 0) <==> (forall|j: int| 0 <= j < i ==> a@[j] == b@[j]),
        decreases n - i,
    {
        let d: u8 = a[i] ^ b[i];
        proof {
            let x = a@[i as int];
            let y = b@[i as int];
            assert(((x ^ y) == 0) <==> x == y) by (bit_vector);
            assert((acc | (x ^ y)) == 0 <==> acc == 0 && (x ^ y) == 0) by (bit_vector);
        }
        acc = acc | d;
        i = i + 1;
    }
    if acc == 0 {
        assert(a@ =~= b@);
        true
    } else {
        false
    }
}

} // verus!
