//! Hex text codec for persisted key material: the derived secret and the
//! salt are stored as lowercase hex text, two digits for each byte. Decoding
//! also accepts uppercase digits.

use vstd::prelude::*;

verus! {

/// Lowercase hex digit for a four-bit value.
pub open spec fn hex_digit_of(v: int) -> u8 {
    if v < 10 {
        (48 + v) as u8  // '0'..'9'
    } else {
        (97 + v - 10) as u8  // 'a'..'f'
    }
}

/// Four-bit value of a hex digit, or -1 outside the hex alphabet.
pub open spec fn hex_digit_val(c: u8) -> int {
    if 48 <= c && c <= 57 {
        c - 48
    } else if 97 <= c && c <= 102 {
        c - 97 + 10
    } else if 65 <= c && c <= 70 {
        c - 65 + 10
    } else {
        -1
    }
}

/// Lowercase hex encoding, two digits for each byte.
pub open spec fn spec_hex_encode(b: Seq<u8>) -> Seq<u8>
    decreases b.len(),
{
    if b.len() == 0 {
        Seq::empty()
    } else {
        seq![hex_digit_of(b[0] as int / 16), hex_digit_of(b[0] as int % 16)]
            + spec_hex_encode(b.skip(1))
    }
}

/// Hex decoding: `None` on an odd length or a character outside the hex
/// alphabet.
pub open spec fn spec_hex_decode(s: Seq<u8>) -> Option<Seq<u8>>
    decreases s.len(),
{
    if s.len() == 0 {
        Some(Seq::empty())
    } else if s.len() == 1 {
        None
    } else {
        let hi = hex_digit_val(s[0]);
        let lo = hex_digit_val(s[1]);
        if hi >= 0 && lo >= 0 {
            match spec_hex_decode(s.skip(2)) {
                Some(rest) => Some(seq![(hi * 16 + lo) as u8] + rest),
                None => None,
            }
        } else {
            None
        }
    }
}

/// Encode bytes as lowercase hex text.
#[verifier::loop_isolation(false)]
pub fn hex_encode(bytes: &[u8]) -> (r: Vec<u8>)
    ensures
        r@ == spec_hex_encode(bytes@),
        r@.len() == 2 * bytes@.len(),
{
    let n: usize = bytes.len();
    let mut out: Vec<u8> = Vec::new();
    let mut i: usize = 0;
    proof {
        assert(bytes@.skip(0) =~= bytes@);
        assert(out@ + spec_hex_encode(bytes@) =~= spec_hex_encode(bytes@));
        lemma_hex_encode_len(bytes@);
    }
    while i < n
        invariant
            i <= n,
            out@.len() == 2 * i,
            spec_hex_encode(bytes@) == out@ + spec_hex_encode(bytes@.skip(i as int)),
        decreases n - i,
    {
        let b = bytes[i];
        proof {
            assert(bytes@.skip(i as int)[0] == bytes@[i as int]);
        }
        let hi = b / 16;
        let lo = b % 16;
        let ghost out0 = out@;
        out.push(hex_digit_exec(hi));
        out.push(hex_digit_exec(lo));
        proof {
            assert(bytes@.skip(i as int).skip(1) =~= bytes@.skip(i + 1));
            let pair = seq![hex_digit_of(b as int / 16), hex_digit_of(b as int % 16)];
            assert(out@ =~= out0 + pair);
            assert(out0 + (pair + spec_hex_encode(bytes@.skip(i + 1)))
                =~= (out0 + pair) + spec_hex_encode(bytes@.skip(i + 1)));
        }
        i = i + 1;
    }
    proof {
        assert(bytes@.skip(n as int) =~= Seq::<u8>::empty());
        assert(out@ + Seq::<u8>::empty() =~= out@);
    }
    out
}

/// Decode hex text to bytes; `None` on an odd length or a character outside
/// the hex alphabet.
#[verifier::loop_isolation(false)]
pub fn hex_decode(s: &[u8]) -> (r: Option<Vec<u8>>)
    ensures
        match r {
            Some(v) => spec_hex_decode(s@) == Some(v@) && 2 * v@.len() == s@.len(),
            None => spec_hex_decode(s@) is None,
        },
{
    let n: usize = s.len();
    if n % 2 != 0 {
        proof {
            lemma_hex_decode_odd(s@);
        }
        return None;
    }
    let mut out: Vec<u8> = Vec::new();
    let mut i: usize = 0;
    proof {
        assert(s@.skip(0) =~= s@);
        if let Some(rest) = spec_hex_decode(s@) {
            assert(Seq::<u8>::empty() + rest =~= rest);
        }
    }
    while i < n
        invariant
            i <= n,
            i % 2 == 0,
            n % 2 == 0,
            out@.len() * 2 == i,
            spec_hex_decode(s@) == match spec_hex_decode(s@.skip(i as int)) {
                Some(rest) => Some(out@ + rest),
                None => None::<Seq<u8>>,
            },
        decreases n - i,
    {
        let hi = hex_val_exec(s[i]);
        let lo = hex_val_exec(s[i + 1]);
        proof {
            assert(s@.skip(i as int)[0] == s@[i as int]);
            assert(s@.skip(i as int)[1] == s@[i + 1]);
        }
        match (hi, lo) {
            (Some(h), Some(l)) => {
                let ghost out0 = out@;
                out.push(h * 16 + l);
                proof {
                    assert(s@.skip(i as int).skip(2) =~= s@.skip(i + 2));
                    let one = seq![(h * 16 + l) as u8];
                    assert(out@ =~= out0 + one);
                    if let Some(rest) = spec_hex_decode(s@.skip(i + 2)) {
                        assert(out0 + (one + rest) =~= (out0 + one) + rest);
                    }
                }
                i = i + 2;
            },
            _ => {
                return None;
            },
        }
    }
    proof {
        assert(s@.skip(n as int) =~= Seq::<u8>::empty());
        assert(out@ + Seq::<u8>::empty() =~= out@);
    }
    Some(out)
}

/// Lowercase hex digit for a four-bit value.
fn hex_digit_exec(v: u8) -> (r: u8)
    requires
        v < 16,
    ensures
        r == hex_digit_of(v as int),
{
    if v < 10 {
        48 + v
    } else {
        97 + (v - 10)
    }
}

/// Four-bit value of one hex digit, `None` outside the hex alphabet.
fn hex_val_exec(c: u8) -> (r: Option<u8>)
    ensures
        r is Some <==> hex_digit_val(c) >= 0,
        r is Some ==> r->0 == hex_digit_val(c),
{
    if 48 <= c && c <= 57 {
        Some(c - 48)
    } else if 97 <= c && c <= 102 {
        Some(c - 97 + 10)
    } else if 65 <= c && c <= 70 {
        Some(c - 65 + 10)
    } else {
        None
    }
}

/// The encoding of `n` bytes has `2 n` digits.
pub proof fn lemma_hex_encode_len(b: Seq<u8>)
    ensures
        spec_hex_encode(b).len() == 2 * b.len(),
    decreases b.len(),
{
    if b.len() > 0 {
        lemma_hex_encode_len(b.skip(1));
    }
}

/// Odd-length hex text never decodes.
proof fn lemma_hex_decode_odd(s: Seq<u8>)
    requires
        s.len() % 2 != 0,
    ensures
        spec_hex_decode(s) is None,
    decreases s.len(),
{
    if s.len() > 1 {
        lemma_hex_decode_odd(s.skip(2));
    }
}

/// Round trip: decoding an encoding gives the original bytes back, for
/// every byte string.
pub proof fn lemma_hex_decode_encode(b: Seq<u8>)
    ensures
        spec_hex_decode(spec_hex_encode(b)) == Some(b),
    decreases b.len(),
{
    let e = spec_hex_encode(b);
    if b.len() == 0 {
        assert(b =~= Seq::<u8>::empty());
    } else {
        lemma_hex_decode_encode(b.skip(1));
        let hi = b[0] as int / 16;
        let lo = b[0] as int % 16;
        assert(hex_digit_val(hex_digit_of(hi)) == hi);
        assert(hex_digit_val(hex_digit_of(lo)) == lo);
        assert(e.skip(2) =~= spec_hex_encode(b.skip(1)));
        assert(hi * 16 + lo == b[0]);
        assert(seq![(hi * 16 + lo) as u8] + b.skip(1) =~= b);
    }
}

} // verus!
