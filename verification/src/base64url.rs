//! Segment codec: reversible encode/decode between raw bytes and the
//! URL-safe, unpadded base64 alphabet used by each token segment.
//!
//! `base64url_decode` mirrors the tolerant wire behaviour: the input is
//! padded with `=` to a multiple of four characters, then decoded under
//! canonical-padding rules, so explicit trailing padding is accepted when it
//! is exactly right, the standard alphabet characters `+` and `/` are taken
//! as aliases of `-` and `_`, and non-zero trailing bits are rejected.
//! `base64url_encode` is the inverse and emits unpadded URL-safe text.

use vstd::prelude::*;

verus! {

/// Six-bit value of one base64 character, or -1 when the character is not
/// in the alphabet. Both the URL-safe and the standard alphabet are read.
pub open spec fn b64_char_val(c: u8) -> int {
    if 65 <= c && c <= 90 {
        c - 65
    } else if 97 <= c && c <= 122 {
        c - 97 + 26
    } else if 48 <= c && c <= 57 {
        c - 48 + 52
    } else if c == 45 || c == 43 {
        62
    } else if c == 95 || c == 47 {
        63
    } else {
        -1
    }
}

pub open spec fn is_b64_char(c: u8) -> bool {
    b64_char_val(c) >= 0
}

/// URL-safe alphabet character for a six-bit value.
pub open spec fn b64_char_of(v: int) -> u8 {
    if v < 26 {
        (65 + v) as u8
    } else if v < 52 {
        (97 + (v - 26)) as u8
    } else if v < 62 {
        (48 + (v - 52)) as u8
    } else if v == 62 {
        45
    } else {
        95
    }
}

/// Decoding of a padding-free character sequence, four characters to three
/// bytes, with the final partial group required to have zero trailing bits.
pub open spec fn spec_decode_core(s: Seq<u8>) -> Option<Seq<u8>>
    decreases s.len(),
{
    if s.len() == 0 {
        Some(Seq::empty())
    } else if s.len() == 1 {
        None
    } else if s.len() == 2 {
        let v0 = b64_char_val(s[0]);
        let v1 = b64_char_val(s[1]);
        if v0 >= 0 && v1 >= 0 && v1 % 16 == 0 {
            Some(seq![(v0 * 4 + v1 / 16) as u8])
        } else {
            None
        }
    } else if s.len() == 3 {
        let v0 = b64_char_val(s[0]);
        let v1 = b64_char_val(s[1]);
        let v2 = b64_char_val(s[2]);
        if v0 >= 0 && v1 >= 0 && v2 >= 0 && v2 % 4 == 0 {
            Some(seq![(v0 * 4 + v1 / 16) as u8, ((v1 % 16) * 16 + v2 / 4) as u8])
        } else {
            None
        }
    } else {
        let v0 = b64_char_val(s[0]);
        let v1 = b64_char_val(s[1]);
        let v2 = b64_char_val(s[2]);
        let v3 = b64_char_val(s[3]);
        if v0 >= 0 && v1 >= 0 && v2 >= 0 && v3 >= 0 {
            match spec_decode_core(s.skip(4)) {
                Some(rest) => Some(
                    seq![
                        (v0 * 4 + v1 / 16) as u8,
                        ((v1 % 16) * 16 + v2 / 4) as u8,
                        ((v2 % 4) * 64 + v3) as u8,
                    ] + rest,
                ),
                None => None,
            }
        } else {
            None
        }
    }
}

/// Number of `=` characters at the end of the input.
pub open spec fn trailing_eq_count(s: Seq<u8>) -> int
    decreases s.len(),
{
    if s.len() > 0 && s.last() == 61 {
        1 + trailing_eq_count(s.drop_last())
    } else {
        0
    }
}

/// Characters of `=` padding that bring a length up to a multiple of four.
pub open spec fn pad_needed(n: int) -> int {
    if n % 4 == 0 {
        0
    } else {
        4 - n % 4
    }
}

/// Decoding of a whole segment: strip the trailing padding, reject it
/// unless padding the input to a multiple of four characters would leave at
/// most two `=` at the end, then decode the padding-free core.
pub open spec fn spec_decode(s: Seq<u8>) -> Option<Seq<u8>> {
    let p = trailing_eq_count(s);
    if p + pad_needed(s.len() as int) <= 2 {
        spec_decode_core(s.take(s.len() - p))
    } else {
        None
    }
}

/// Unpadded URL-safe encoding, three bytes to four characters.
pub open spec fn spec_encode(b: Seq<u8>) -> Seq<u8>
    decreases b.len(),
{
    if b.len() == 0 {
        Seq::empty()
    } else if b.len() == 1 {
        seq![b64_char_of(b[0] as int / 4), b64_char_of((b[0] as int % 4) * 16)]
    } else if b.len() == 2 {
        seq![
            b64_char_of(b[0] as int / 4),
            b64_char_of((b[0] as int % 4) * 16 + b[1] as int / 16),
            b64_char_of((b[1] as int % 16) * 4),
        ]
    } else {
        seq![
            b64_char_of(b[0] as int / 4),
            b64_char_of((b[0] as int % 4) * 16 + b[1] as int / 16),
            b64_char_of((b[1] as int % 16) * 4 + b[2] as int / 64),
            b64_char_of(b[2] as int % 64),
        ] + spec_encode(b.skip(3))
    }
}

/// Six-bit value of one character, `None` outside both alphabets.
fn b64_val(c: u8) -> (r: Option<u8>)
    ensures
        r is Some <==> is_b64_char(c),
        r is Some ==> r->0 == b64_char_val(c),
{
    if 65 <= c && c <= 90 {
        Some(c - 65)
    } else if 97 <= c && c <= 122 {
        Some(c - 97 + 26)
    } else if 48 <= c && c <= 57 {
        Some(c - 48 + 52)
    } else if c == 45 || c == 43 {
        Some(62)
    } else if c == 95 || c == 47 {
        Some(63)
    } else {
        None
    }
}

/// Decode one token segment from the URL-safe base64 alphabet, padding
/// insensitively. `None` reports an invalid character, impossible length or
/// bad padding.
#[verifier::loop_isolation(false)]
#[verifier::rlimit(30)]
pub fn base64url_decode(input: &[u8]) -> (r: Option<Vec<u8>>)
    ensures
        match r {
            Some(v) => spec_decode(input@) == Some(v@),
            None => spec_decode(input@) is None,
        },
{
    let n: usize = input.len();
    // Count the trailing `=` characters.
    let mut p: usize = 0;
    proof {
        assert(input@.take(n as int) =~= input@);
    }
    while p < n && input[n - 1 - p] == 61
        invariant
            0 <= p <= n == input@.len(),
            trailing_eq_count(input@) == p + trailing_eq_count(input@.take(n - p)),
        decreases n - p,
    {
        proof {
            let s = input@.take(n - p as int);
            assert(s.last() == input@[n - 1 - p as int]);
            assert(s.drop_last() =~= input@.take(n - (p + 1) as int));
        }
        p = p + 1;
    }
    proof {
        let s = input@.take(n - p as int);
        if s.len() > 0 && s.last() == 61 {
            assert(s.last() == input@[n - 1 - p as int]);
        }
        assert(trailing_eq_count(s) == 0);
    }
    let pad: usize = if n % 4 == 0 {
        0
    } else {
        4 - n % 4
    };
    if p > 2 || p + pad > 2 {
        return None;
    }
    let core_len: usize = n - p;
    let ghost core = input@.take(core_len as int);

    let mut out: Vec<u8> = Vec::new();
    let mut i: usize = 0;
    proof {
        assert(core.skip(0) =~= core);
        assert(out@ =~= Seq::<u8>::empty());
        if let Some(rest) = spec_decode_core(core) {
            assert(Seq::<u8>::empty() + rest =~= rest);
        }
    }
    while core_len - i >= 4
        invariant
            core == input@.take(core_len as int),
            core_len <= input@.len(),
            i % 4 == 0,
            i <= core_len,
            out@.len() == 3 * (i / 4),
            spec_decode_core(core) == match spec_decode_core(core.skip(i as int)) {
                Some(rest) => Some(out@ + rest),
                None => None::<Seq<u8>>,
            },
        decreases core_len - i,
    {
        let r0 = b64_val(input[i]);
        let r1 = b64_val(input[i + 1]);
        let r2 = b64_val(input[i + 2]);
        let r3 = b64_val(input[i + 3]);
        proof {
            assert(core.skip(i as int)[0] == input@[i as int]);
            assert(core.skip(i as int)[1] == input@[i + 1]);
            assert(core.skip(i as int)[2] == input@[i + 2]);
            assert(core.skip(i as int)[3] == input@[i + 3]);
        }
        match (r0, r1, r2, r3) {
            (Some(v0), Some(v1), Some(v2), Some(v3)) => {
                let ghost out0 = out@;
                out.push(v0 * 4 + v1 / 16);
                out.push((v1 % 16) * 16 + v2 / 4);
                out.push((v2 % 4) * 64 + v3);
                proof {
                    assert(core.skip(i as int).skip(4) =~= core.skip(i + 4));
                    let chunk = seq![
                        (v0 * 4 + v1 / 16) as u8,
                        ((v1 % 16) * 16 + v2 / 4) as u8,
                        ((v2 % 4) * 64 + v3) as u8,
                    ];
                    assert(out@ =~= out0 + chunk);
                    if let Some(rest) = spec_decode_core(core.skip(i + 4)) {
                        assert(out0 + (chunk + rest) =~= (out0 + chunk) + rest);
                    }
                }
                i = i + 4;
            },
            _ => {
                return None;
            },
        }
    }
    // Remainder of zero, two or three characters; one is impossible to fill.
    let rem: usize = core_len - i;
    proof {
        assert(core.skip(i as int).len() == rem);
    }
    if rem == 0 {
        proof {
            assert(core.skip(i as int) =~= Seq::<u8>::empty());
            assert(out@ + Seq::<u8>::empty() =~= out@);
        }
        Some(out)
    } else if rem == 2 {
        let r0 = b64_val(input[i]);
        let r1 = b64_val(input[i + 1]);
        proof {
            assert(core.skip(i as int)[0] == input@[i as int]);
            assert(core.skip(i as int)[1] == input@[i + 1]);
        }
        match (r0, r1) {
            (Some(v0), Some(v1)) => {
                if v1 % 16 == 0 {
                    let ghost out0 = out@;
                    out.push(v0 * 4 + v1 / 16);
                    proof {
                        assert(out@ =~= out0 + seq![(v0 * 4 + v1 / 16) as u8]);
                    }
                    Some(out)
                } else {
                    None
                }
            },
            _ => None,
        }
    } else if rem == 3 {
        let r0 = b64_val(input[i]);
        let r1 = b64_val(input[i + 1]);
        let r2 = b64_val(input[i + 2]);
        proof {
            assert(core.skip(i as int)[0] == input@[i as int]);
            assert(core.skip(i as int)[1] == input@[i + 1]);
            assert(core.skip(i as int)[2] == input@[i + 2]);
        }
        match (r0, r1, r2) {
            (Some(v0), Some(v1), Some(v2)) => {
                if v2 % 4 == 0 {
                    let ghost out0 = out@;
                    out.push(v0 * 4 + v1 / 16);
                    out.push((v1 % 16) * 16 + v2 / 4);
                    proof {
                        assert(out@ =~= out0 + seq![
                            (v0 * 4 + v1 / 16) as u8,
                            ((v1 % 16) * 16 + v2 / 4) as u8,
                        ]);
                    }
                    Some(out)
                } else {
                    None
                }
            },
            _ => None,
        }
    } else {
        // rem == 1: the loop stopped with i + 4 > core_len, so rem < 4.
        assert(rem == 1);
        None
    }
}

/// Encode bytes as unpadded URL-safe base64 text.
#[verifier::loop_isolation(false)]
pub fn base64url_encode(bytes: &[u8]) -> (r: Vec<u8>)
    ensures
        r@ == spec_encode(bytes@),
{
    let n: usize = bytes.len();
    let mut out: Vec<u8> = Vec::new();
    let mut i: usize = 0;
    proof {
        assert(bytes@.skip(0) =~= bytes@);
        assert(out@ + spec_encode(bytes@) =~= spec_encode(bytes@));
    }
    while n - i >= 3
        invariant
            n == bytes@.len(),
            i % 3 == 0,
            i <= n,
            spec_encode(bytes@) == out@ + spec_encode(bytes@.skip(i as int)),
        decreases n - i,
    {
        let b0 = bytes[i];
        let b1 = bytes[i + 1];
        let b2 = bytes[i + 2];
        proof {
            assert(bytes@.skip(i as int)[0] == bytes@[i as int]);
            assert(bytes@.skip(i as int)[1] == bytes@[i + 1]);
            assert(bytes@.skip(i as int)[2] == bytes@[i + 2]);
        }
        let ghost out0 = out@;
        out.push(b64_char_exec(b0 / 4));
        out.push(b64_char_exec((b0 % 4) * 16 + b1 / 16));
        out.push(b64_char_exec((b1 % 16) * 4 + b2 / 64));
        out.push(b64_char_exec(b2 % 64));
        proof {
            assert(bytes@.skip(i as int).skip(3) =~= bytes@.skip(i + 3));
            let chunk = seq![
                b64_char_of(b0 as int / 4),
                b64_char_of((b0 as int % 4) * 16 + b1 as int / 16),
                b64_char_of((b1 as int % 16) * 4 + b2 as int / 64),
                b64_char_of(b2 as int % 64),
            ];
            assert(out@ =~= out0 + chunk);
            assert(out0 + (chunk + spec_encode(bytes@.skip(i + 3)))
                =~= (out0 + chunk) + spec_encode(bytes@.skip(i + 3)));
        }
        i = i + 3;
    }
    let rem: usize = n - i;
    proof {
        assert(bytes@.skip(i as int).len() == rem);
    }
    if rem == 1 {
        let b0 = bytes[i];
        proof {
            assert(bytes@.skip(i as int)[0] == bytes@[i as int]);
        }
        let ghost out0 = out@;
        out.push(b64_char_exec(b0 / 4));
        out.push(b64_char_exec((b0 % 4) * 16));
        proof {
            assert(out@ =~= out0 + seq![b64_char_of(b0 as int / 4), b64_char_of((b0 as int % 4) * 16)]);
        }
    } else if rem == 2 {
        let b0 = bytes[i];
        let b1 = bytes[i + 1];
        proof {
            assert(bytes@.skip(i as int)[0] == bytes@[i as int]);
            assert(bytes@.skip(i as int)[1] == bytes@[i + 1]);
        }
        let ghost out0 = out@;
        out.push(b64_char_exec(b0 / 4));
        out.push(b64_char_exec((b0 % 4) * 16 + b1 / 16));
        out.push(b64_char_exec((b1 % 16) * 4));
        proof {
            assert(out@ =~= out0 + seq![
                b64_char_of(b0 as int / 4),
                b64_char_of((b0 as int % 4) * 16 + b1 as int / 16),
                b64_char_of((b1 as int % 16) * 4),
            ]);
        }
    } else {
        assert(rem == 0);
        proof {
            assert(bytes@.skip(i as int) =~= Seq::<u8>::empty());
            assert(out@ + Seq::<u8>::empty() =~= out@);
        }
    }
    out
}

/// URL-safe alphabet character for a six-bit value.
fn b64_char_exec(v: u8) -> (r: u8)
    requires
        v < 64,
    ensures
        r == b64_char_of(v as int),
{
    if v < 26 {
        65 + v
    } else if v < 52 {
        97 + (v - 26)
    } else if v < 62 {
        48 + (v - 52)
    } else if v == 62 {
        45
    } else {
        95
    }
}

/// The alphabet round-trips: decoding the character of a six-bit value
/// gives the value back.
proof fn lemma_char_round_trip(v: int)
    requires
        0 <= v < 64,
    ensures
        b64_char_val(b64_char_of(v)) == v,
{
}

/// Every character of an encoding is an alphabet character, never `=`.
proof fn lemma_encode_chars(b: Seq<u8>)
    ensures
        forall|i: int| 0 <= i < spec_encode(b).len() ==> is_b64_char(#[trigger] spec_encode(b)[i]),
    decreases b.len(),
{
    let e = spec_encode(b);
    if b.len() == 0 {
    } else if b.len() == 1 {
        assert forall|i: int| 0 <= i < e.len() implies is_b64_char(e[i]) by {
            lemma_char_round_trip(b[0] as int / 4);
            lemma_char_round_trip((b[0] as int % 4) * 16);
        }
    } else if b.len() == 2 {
        assert forall|i: int| 0 <= i < e.len() implies is_b64_char(e[i]) by {
            lemma_char_round_trip(b[0] as int / 4);
            lemma_char_round_trip((b[0] as int % 4) * 16 + b[1] as int / 16);
            lemma_char_round_trip((b[1] as int % 16) * 4);
        }
    } else {
        lemma_encode_chars(b.skip(3));
        let tail = spec_encode(b.skip(3));
        assert forall|i: int| 0 <= i < e.len() implies is_b64_char(e[i]) by {
            if i < 4 {
                lemma_char_round_trip(b[0] as int / 4);
                lemma_char_round_trip((b[0] as int % 4) * 16 + b[1] as int / 16);
                lemma_char_round_trip((b[1] as int % 16) * 4 + b[2] as int / 64);
                lemma_char_round_trip(b[2] as int % 64);
            } else {
                assert(e[i] == tail[i - 4]);
            }
        }
    }
}

/// The length of an encoding: four characters for every three bytes, two or
/// three characters for a trailing one or two bytes.
pub proof fn lemma_encode_len(b: Seq<u8>)
    ensures
        spec_encode(b).len() == (b.len() * 4 + 2) / 3,
    decreases b.len(),
{
    if b.len() <= 2 {
    } else {
        lemma_encode_len(b.skip(3));
    }
}

/// Round trip: decoding an encoding gives the original bytes back, for
/// every byte string.
pub proof fn lemma_decode_core_encode(b: Seq<u8>)
    ensures
        spec_decode_core(spec_encode(b)) == Some(b),
    decreases b.len(),
{
    let e = spec_encode(b);
    if b.len() == 0 {
        assert(b =~= Seq::<u8>::empty());
    } else if b.len() == 1 {
        lemma_char_round_trip(b[0] as int / 4);
        lemma_char_round_trip((b[0] as int % 4) * 16);
        assert(spec_decode_core(e) == Some(seq![((b[0] / 4) * 4 + ((b[0] % 4) * 16) / 16) as u8]));
        assert((b[0] / 4) * 4 + ((b[0] % 4) * 16) / 16 == b[0]);
        assert(Some(seq![((b[0] / 4) * 4 + ((b[0] % 4) * 16) / 16) as u8]) == Some(b)) by {
            assert(seq![(((b[0] / 4) * 4 + ((b[0] % 4) * 16) / 16)) as u8] =~= b);
        }
    } else if b.len() == 2 {
        lemma_char_round_trip(b[0] as int / 4);
        lemma_char_round_trip((b[0] as int % 4) * 16 + b[1] as int / 16);
        lemma_char_round_trip((b[1] as int % 16) * 4);
        assert((b[0] / 4) * 4 + ((b[0] % 4) * 16 + b[1] / 16) / 16 == b[0]);
        assert((((b[0] % 4) * 16 + b[1] / 16) % 16) * 16 + ((b[1] % 16) * 4) / 4 == b[1]);
        assert(spec_decode_core(e) == Some(b)) by {
            assert(seq![
                ((b[0] / 4) * 4 + ((b[0] % 4) * 16 + b[1] / 16) / 16) as u8,
                ((((b[0] % 4) * 16 + b[1] / 16) % 16) * 16 + ((b[1] % 16) * 4) / 4) as u8,
            ] =~= b);
        }
    } else {
        let v0 = b[0] as int / 4;
        let v1 = (b[0] as int % 4) * 16 + b[1] as int / 16;
        let v2 = (b[1] as int % 16) * 4 + b[2] as int / 64;
        let v3 = b[2] as int % 64;
        lemma_char_round_trip(v0);
        lemma_char_round_trip(v1);
        lemma_char_round_trip(v2);
        lemma_char_round_trip(v3);
        lemma_decode_core_encode(b.skip(3));
        let tail = spec_encode(b.skip(3));
        assert(e.len() >= 4);
        assert(e.skip(4) =~= tail);
        assert(v0 * 4 + v1 / 16 == b[0]);
        assert((v1 % 16) * 16 + v2 / 4 == b[1]);
        assert((v2 % 4) * 64 + v3 == b[2]);
        assert(seq![
            (v0 * 4 + v1 / 16) as u8,
            ((v1 % 16) * 16 + v2 / 4) as u8,
            ((v2 % 4) * 64 + v3) as u8,
        ] + b.skip(3) =~= b);
    }
}


/// A run of `=` padding characters.
pub open spec fn eq_pad(n: nat) -> Seq<u8> {
    Seq::new(n, |i: int| 61u8)
}

/// Appending `k` padding characters to text that does not end in one
/// gives a trailing count of exactly `k`.
proof fn lemma_trailing_append(e: Seq<u8>, k: nat)
    requires
        e.len() > 0 ==> e.last() != 61,
    ensures
        trailing_eq_count(e + eq_pad(k)) == k,
    decreases k,
{
    if k == 0 {
        assert(e + eq_pad(0) =~= e);
    } else {
        let t = e + eq_pad(k);
        assert(t.last() == 61);
        assert(t.drop_last() =~= e + eq_pad((k - 1) as nat));
        lemma_trailing_append(e, (k - 1) as nat);
    }
}

/// An encoding's length is never one more than a multiple of four.
proof fn lemma_encode_len_mod(b: Seq<u8>)
    ensures
        spec_encode(b).len() % 4 != 1,
    decreases b.len(),
{
    if b.len() > 2 {
        lemma_encode_len_mod(b.skip(3));
    }
}

/// Round trip under explicit padding: appending exactly the `=` padding
/// that brings the encoding to a multiple of four characters changes
/// nothing, so decoding is insensitive to whether the padding is written.
pub proof fn lemma_decode_encode_padded(b: Seq<u8>)
    ensures
        spec_decode(
            spec_encode(b) + eq_pad(pad_needed(spec_encode(b).len() as int) as nat),
        ) == Some(b),
{
    let e = spec_encode(b);
    let p = pad_needed(e.len() as int);
    lemma_encode_len_mod(b);
    assert(0 <= p <= 2);
    lemma_encode_chars(b);
    if e.len() > 0 {
        assert(is_b64_char(e.last()));
        assert(e.last() != 61);
    }
    lemma_trailing_append(e, p as nat);
    let s = e + eq_pad(p as nat);
    assert(s.len() % 4 == 0);
    assert(pad_needed(s.len() as int) == 0);
    assert(s.take(s.len() - p) =~= e);
    lemma_decode_core_encode(b);
}

/// Round trip for whole segments, padding-insensitively: `spec_decode` of
/// `spec_encode(b)` gives `b` back, for every byte string `b`.
pub proof fn lemma_decode_encode(b: Seq<u8>)
    ensures
        spec_decode(spec_encode(b)) == Some(b),
{
    let e = spec_encode(b);
    lemma_encode_chars(b);
    lemma_encode_len(b);
    if e.len() > 0 {
        assert(is_b64_char(e.last()));
        assert(e.last() != 61);
    }
    assert(trailing_eq_count(e) == 0);
    assert(pad_needed(e.len() as int) <= 2);
    assert(e.take(e.len() as int) =~= e);
    lemma_decode_core_encode(b);
}

} // verus!
