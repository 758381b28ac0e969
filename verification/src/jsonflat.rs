//! Flat JSON object reader for the token's header and payload: an object of
//! string keys whose values are strings or plain decimal numbers, decoded
//! from raw bytes against an explicit grammar.
//!
//! The grammar is deliberately closed: no nested objects or arrays, no
//! escape sequences inside strings, no exponent notation, no literal
//! values. Anything outside it is rejected, so a malformed or exotic
//! payload fails instead of being partially read.

use vstd::prelude::*;

verus! {

/// JSON whitespace: space, tab, line feed, carriage return.
pub open spec fn is_ws(c: u8) -> bool {
    c == 32 || c == 9 || c == 10 || c == 13
}

/// ASCII decimal digit.
pub open spec fn is_digit(c: u8) -> bool {
    48 <= c && c <= 57
}

/// First index at or after `i` that does not hold whitespace.
pub open spec fn skip_ws(s: Seq<u8>, i: int) -> int
    decreases s.len() - i,
        when 0 <= i <= s.len()
{
    if i < s.len() && is_ws(s[i]) {
        skip_ws(s, i + 1)
    } else {
        i
    }
}

/// Index of the closing quote of a string body starting at `i`, or -1 when
/// the string is unterminated or holds a control character or a backslash
/// (escape sequences are outside the grammar).
pub open spec fn str_end(s: Seq<u8>, i: int) -> int
    decreases s.len() - i,
        when 0 <= i <= s.len()
{
    if i < s.len() {
        if s[i] == 34 {
            i
        } else if s[i] == 92 || s[i] < 32 {
            -1
        } else {
            str_end(s, i + 1)
        }
    } else {
        -1
    }
}

/// First index at or after `i` that does not hold a digit.
pub open spec fn digit_run_end(s: Seq<u8>, i: int) -> int
    decreases s.len() - i,
        when 0 <= i <= s.len()
{
    if i < s.len() && is_digit(s[i]) {
        digit_run_end(s, i + 1)
    } else {
        i
    }
}

/// A number token: sign, integer digits, fractional digits (empty when no
/// fractional part was written).
pub struct SpecNum {
    pub neg: bool,
    pub int_digits: Seq<u8>,
    pub frac_digits: Seq<u8>,
}

/// A value of the flat grammar: a string's content bytes or a number.
pub enum SpecValue {
    Str(Seq<u8>),
    Num(SpecNum),
}

/// Parse a string token whose opening quote stands at `i`; gives the
/// content bytes and the index after the closing quote.
pub open spec fn spec_parse_string(s: Seq<u8>, i: int) -> Option<(Seq<u8>, int)> {
    let e = str_end(s, i + 1);
    if e >= 0 {
        Some((s.subrange(i + 1, e), e + 1))
    } else {
        None
    }
}

/// Parse a number token starting at `i`: `-`? digits (`.` digits)?, with no
/// superfluous leading zero and no exponent notation.
pub open spec fn spec_parse_number(s: Seq<u8>, i: int) -> Option<(SpecNum, int)> {
    let j = if i < s.len() && s[i] == 45 {
        i + 1
    } else {
        i
    };
    let neg = j != i;
    let k = digit_run_end(s, j);
    if k == j {
        None
    } else if s[j] == 48 && k > j + 1 {
        None
    } else if k < s.len() && s[k] == 46 {
        let m = digit_run_end(s, k + 1);
        if m == k + 1 {
            None
        } else {
            Some(
                (
                    SpecNum {
                        neg,
                        int_digits: s.subrange(j, k),
                        frac_digits: s.subrange(k + 1, m),
                    },
                    m,
                ),
            )
        }
    } else {
        Some((SpecNum { neg, int_digits: s.subrange(j, k), frac_digits: Seq::empty() }, k))
    }
}

/// Parse one value: a string or a number.
pub open spec fn spec_parse_value(s: Seq<u8>, i: int) -> Option<(SpecValue, int)> {
    if i < s.len() && s[i] == 34 {
        match spec_parse_string(s, i) {
            Some((c, i2)) => Some((SpecValue::Str(c), i2)),
            None => None,
        }
    } else if i < s.len() && (s[i] == 45 || is_digit(s[i])) {
        match spec_parse_number(s, i) {
            Some((n, i2)) => Some((SpecValue::Num(n), i2)),
            None => None,
        }
    } else {
        None
    }
}

/// Parse a comma-separated run of `"key" : value` members, the first key's
/// opening quote standing at `i`; gives the members in order and the index
/// after the run's trailing whitespace.
pub open spec fn spec_parse_members(s: Seq<u8>, i: int) -> Option<(Seq<(Seq<u8>, SpecValue)>, int)>
    decreases s.len() - i,
        when 0 <= i <= s.len()
        via spec_parse_members_decreases
{
    if i < s.len() && s[i] == 34 {
        match spec_parse_string(s, i) {
            Some((key, i2)) => {
                let i3 = skip_ws(s, i2);
                if i3 < s.len() && s[i3] == 58 {
                    let i4 = skip_ws(s, i3 + 1);
                    match spec_parse_value(s, i4) {
                        Some((v, i5)) => {
                            let i6 = skip_ws(s, i5);
                            if i6 < s.len() && s[i6] == 44 {
                                let i7 = skip_ws(s, i6 + 1);
                                match spec_parse_members(s, i7) {
                                    Some((rest, i8)) => Some((seq![(key, v)] + rest, i8)),
                                    None => None,
                                }
                            } else {
                                Some((seq![(key, v)], i6))
                            }
                        },
                        None => None,
                    }
                } else {
                    None
                }
            },
            None => None,
        }
    } else {
        None
    }
}

#[via_fn]
proof fn spec_parse_members_decreases(s: Seq<u8>, i: int) {
    if 0 <= i <= s.len() && i < s.len() && s[i] == 34 {
        lemma_parse_string_bounds(s, i);
        if let Some((key, i2)) = spec_parse_string(s, i) {
            lemma_skip_ws_bounds(s, i2);
            let i3 = skip_ws(s, i2);
            if i3 < s.len() && s[i3] == 58 {
                lemma_skip_ws_bounds(s, i3 + 1);
                let i4 = skip_ws(s, i3 + 1);
                lemma_parse_value_bounds(s, i4);
                if let Some((v, i5)) = spec_parse_value(s, i4) {
                    lemma_skip_ws_bounds(s, i5);
                    let i6 = skip_ws(s, i5);
                    if i6 < s.len() && s[i6] == 44 {
                        lemma_skip_ws_bounds(s, i6 + 1);
                    }
                }
            }
        }
    }
}

/// Parse a whole flat object: optional whitespace, `{`, members or
/// nothing, `}`, optional whitespace, end of input.
pub open spec fn spec_parse_object(s: Seq<u8>) -> Option<Seq<(Seq<u8>, SpecValue)>> {
    let i0 = skip_ws(s, 0);
    if i0 < s.len() && s[i0] == 123 {
        let i1 = skip_ws(s, i0 + 1);
        if i1 < s.len() && s[i1] == 125 {
            if skip_ws(s, i1 + 1) == s.len() {
                Some(Seq::empty())
            } else {
                None
            }
        } else {
            match spec_parse_members(s, i1) {
                Some((ms, i2)) => {
                    if i2 < s.len() && s[i2] == 125 {
                        if skip_ws(s, i2 + 1) == s.len() {
                            Some(ms)
                        } else {
                            None
                        }
                    } else {
                        None
                    }
                },
                None => None,
            }
        }
    } else {
        None
    }
}

/// `skip_ws` stays inside the input and moves forward.
pub proof fn lemma_skip_ws_bounds(s: Seq<u8>, i: int)
    requires
        0 <= i <= s.len(),
    ensures
        i <= skip_ws(s, i) <= s.len(),
        skip_ws(s, i) < s.len() ==> !is_ws(s[skip_ws(s, i)]),
    decreases s.len() - i,
{
    if i < s.len() && is_ws(s[i]) {
        lemma_skip_ws_bounds(s, i + 1);
    }
}

/// A found closing quote lies inside the input, at or after the scan
/// start, and holds a quote.
pub proof fn lemma_str_end_bounds(s: Seq<u8>, i: int)
    requires
        0 <= i <= s.len(),
    ensures
        str_end(s, i) >= 0 ==> i <= str_end(s, i) < s.len() && s[str_end(s, i)] == 34,
    decreases s.len() - i,
{
    if i < s.len() && s[i] != 34 && s[i] != 92 && s[i] >= 32 {
        lemma_str_end_bounds(s, i + 1);
    }
}

/// A digit run stays inside the input and moves forward.
pub proof fn lemma_digit_run_bounds(s: Seq<u8>, i: int)
    requires
        0 <= i <= s.len(),
    ensures
        i <= digit_run_end(s, i) <= s.len(),
        digit_run_end(s, i) < s.len() ==> !is_digit(s[digit_run_end(s, i)]),
        forall|t: int| i <= t < digit_run_end(s, i) ==> is_digit(#[trigger] s[t]),
    decreases s.len() - i,
{
    if i < s.len() && is_digit(s[i]) {
        lemma_digit_run_bounds(s, i + 1);
    }
}

/// A parsed string token ends inside the input, at least two characters on.
pub proof fn lemma_parse_string_bounds(s: Seq<u8>, i: int)
    requires
        0 <= i < s.len(),
    ensures
        match spec_parse_string(s, i) {
            Some((c, i2)) => i + 2 <= i2 <= s.len(),
            None => true,
        },
{
    lemma_str_end_bounds(s, i + 1);
}

/// A parsed number token ends inside the input, past its start.
pub proof fn lemma_parse_number_bounds(s: Seq<u8>, i: int)
    requires
        0 <= i <= s.len(),
    ensures
        match spec_parse_number(s, i) {
            Some((n, i2)) => i < i2 <= s.len(),
            None => true,
        },
{
    let j = if i < s.len() && s[i] == 45 {
        i + 1
    } else {
        i
    };
    lemma_digit_run_bounds(s, j);
    let k = digit_run_end(s, j);
    if k < s.len() && s[k] == 46 {
        lemma_digit_run_bounds(s, k + 1);
    }
}

/// A parsed value ends inside the input, past its start.
pub proof fn lemma_parse_value_bounds(s: Seq<u8>, i: int)
    requires
        0 <= i <= s.len(),
    ensures
        match spec_parse_value(s, i) {
            Some((v, i2)) => i < i2 <= s.len(),
            None => true,
        },
{
    if i < s.len() && s[i] == 34 {
        lemma_parse_string_bounds(s, i);
    } else if i < s.len() && (s[i] == 45 || is_digit(s[i])) {
        lemma_parse_number_bounds(s, i);
    }
}

/// A number token as parsed: sign and the digit text of both parts.
pub struct JsonNum {
    pub neg: bool,
    pub int_digits: Vec<u8>,
    pub frac_digits: Vec<u8>,
}

impl View for JsonNum {
    type V = SpecNum;

    open spec fn view(&self) -> SpecNum {
        SpecNum { neg: self.neg, int_digits: self.int_digits@, frac_digits: self.frac_digits@ }
    }
}

/// A parsed value: a string's content bytes or a number token.
pub enum JsonValue {
    Str(Vec<u8>),
    Num(JsonNum),
}

impl View for JsonValue {
    type V = SpecValue;

    open spec fn view(&self) -> SpecValue {
        match self {
            JsonValue::Str(c) => SpecValue::Str(c@),
            JsonValue::Num(n) => SpecValue::Num(n@),
        }
    }
}

/// Members as parsed, seen as key/value pairs of sequences.
pub open spec fn pairs_view(v: Seq<(Vec<u8>, JsonValue)>) -> Seq<(Seq<u8>, SpecValue)> {
    v.map_values(|p: (Vec<u8>, JsonValue)| (p.0@, p.1@))
}

/// First index at or after `i` without whitespace.
#[verifier::loop_isolation(false)]
fn skip_ws_exec(s: &[u8], i: usize) -> (r: usize)
    requires
        i <= s@.len(),
    ensures
        r == skip_ws(s@, i as int),
        i <= r <= s@.len(),
{
    proof {
        lemma_skip_ws_bounds(s@, i as int);
    }
    let n: usize = s.len();
    let mut j: usize = i;
    while j < n && (s[j] == 32 || s[j] == 9 || s[j] == 10 || s[j] == 13)
        invariant
            i <= j <= n,
            skip_ws(s@, i as int) == skip_ws(s@, j as int),
        decreases n - j,
    {
        j = j + 1;
    }
    j
}

/// Copy of `s[a..b]`.
#[verifier::loop_isolation(false)]
pub(crate) fn copy_range(s: &[u8], a: usize, b: usize) -> (v: Vec<u8>)
    requires
        a <= b <= s@.len(),
    ensures
        v@ == s@.subrange(a as int, b as int),
{
    let mut v: Vec<u8> = Vec::new();
    let mut j: usize = a;
    while j < b
        invariant
            a <= j <= b,
            v@ == s@.subrange(a as int, j as int),
        decreases b - j,
    {
        v.push(s[j]);
        proof {
            assert(v@ =~= s@.subrange(a as int, j + 1));
        }
        j = j + 1;
    }
    v
}

/// Index of the closing quote of a string body starting at `i`, `None`
/// when the string is unterminated or holds a byte outside the grammar.
#[verifier::loop_isolation(false)]
fn find_str_end(s: &[u8], i: usize) -> (r: Option<usize>)
    requires
        i <= s@.len(),
    ensures
        match r {
            Some(e) => str_end(s@, i as int) == e && i <= e < s@.len(),
            None => str_end(s@, i as int) < 0,
        },
{
    proof {
        lemma_str_end_bounds(s@, i as int);
    }
    let n: usize = s.len();
    let mut j: usize = i;
    while j < n
        invariant
            i <= j <= n,
            str_end(s@, i as int) == str_end(s@, j as int),
        decreases n - j,
    {
        let c = s[j];
        if c == 34 {
            return Some(j);
        }
        if c == 92 || c < 32 {
            return None;
        }
        j = j + 1;
    }
    None
}

/// First index at or after `i` without a digit.
#[verifier::loop_isolation(false)]
fn digit_run_end_exec(s: &[u8], i: usize) -> (r: usize)
    requires
        i <= s@.len(),
    ensures
        r == digit_run_end(s@, i as int),
        i <= r <= s@.len(),
{
    proof {
        lemma_digit_run_bounds(s@, i as int);
    }
    let n: usize = s.len();
    let mut j: usize = i;
    while j < n && 48 <= s[j] && s[j] <= 57
        invariant
            i <= j <= n,
            digit_run_end(s@, i as int) == digit_run_end(s@, j as int),
        decreases n - j,
    {
        j = j + 1;
    }
    j
}

/// Parse a string token whose opening quote stands at `i`.
fn parse_string_exec(s: &[u8], i: usize) -> (r: Option<(Vec<u8>, usize)>)
    requires
        i < s@.len(),
        s@[i as int] == 34,
    ensures
        match r {
            Some((c, i2)) => spec_parse_string(s@, i as int) == Some((c@, i2 as int))
                && i + 2 <= i2 <= s@.len(),
            None => spec_parse_string(s@, i as int) is None,
        },
{
    proof {
        lemma_parse_string_bounds(s@, i as int);
    }
    let n: usize = s.len();
    match find_str_end(s, i + 1) {
        Some(e) => {
            let content = copy_range(s, i + 1, e);
            Some((content, e + 1))
        },
        None => None,
    }
}

/// Parse a number token starting at `i`.
fn parse_number_exec(s: &[u8], i: usize) -> (r: Option<(JsonNum, usize)>)
    requires
        i <= s@.len(),
    ensures
        match r {
            Some((nm, i2)) => spec_parse_number(s@, i as int) == Some((nm@, i2 as int))
                && i < i2 <= s@.len(),
            None => spec_parse_number(s@, i as int) is None,
        },
{
    proof {
        lemma_parse_number_bounds(s@, i as int);
    }
    let n: usize = s.len();
    let j: usize = if i < n && s[i] == 45 {
        i + 1
    } else {
        i
    };
    let neg = j != i;
    let k = digit_run_end_exec(s, j);
    if k == j {
        return None;
    }
    if s[j] == 48 && k > j + 1 {
        return None;
    }
    if k < n && s[k] == 46 {
        let m = digit_run_end_exec(s, k + 1);
        if m == k + 1 {
            None
        } else {
            Some(
                (
                    JsonNum {
                        neg,
                        int_digits: copy_range(s, j, k),
                        frac_digits: copy_range(s, k + 1, m),
                    },
                    m,
                ),
            )
        }
    } else {
        let nm = JsonNum { neg, int_digits: copy_range(s, j, k), frac_digits: Vec::new() };
        proof {
            assert(nm@.frac_digits =~= Seq::<u8>::empty());
        }
        Some((nm, k))
    }
}

/// Parse one value: a string or a number.
fn parse_value_exec(s: &[u8], i: usize) -> (r: Option<(JsonValue, usize)>)
    requires
        i <= s@.len(),
    ensures
        match r {
            Some((v, i2)) => spec_parse_value(s@, i as int) == Some((v@, i2 as int))
                && i < i2 <= s@.len(),
            None => spec_parse_value(s@, i as int) is None,
        },
{
    proof {
        lemma_parse_value_bounds(s@, i as int);
    }
    let n: usize = s.len();
    if i < n && s[i] == 34 {
        match parse_string_exec(s, i) {
            Some((c, i2)) => Some((JsonValue::Str(c), i2)),
            None => None,
        }
    } else if i < n && (s[i] == 45 || (48 <= s[i] && s[i] <= 57)) {
        match parse_number_exec(s, i) {
            Some((nm, i2)) => Some((JsonValue::Num(nm), i2)),
            None => None,
        }
    } else {
        None
    }
}

/// Parse a run of `"key" : value` members starting at `i`.
fn parse_members_exec(s: &[u8], i: usize) -> (r: Option<(Vec<(Vec<u8>, JsonValue)>, usize)>)
    requires
        i <= s@.len(),
    ensures
        match r {
            Some((ms, i2)) => spec_parse_members(s@, i as int) == Some(
                (pairs_view(ms@), i2 as int),
            ) && i2 <= s@.len(),
            None => spec_parse_members(s@, i as int) is None,
        },
    decreases s@.len() - i,
{
    let n: usize = s.len();
    if !(i < n && s[i] == 34) {
        return None;
    }
    let (key, i2) = match parse_string_exec(s, i) {
        Some(p) => p,
        None => {
            return None;
        },
    };
    let i3 = skip_ws_exec(s, i2);
    if !(i3 < n && s[i3] == 58) {
        return None;
    }
    let i4 = skip_ws_exec(s, i3 + 1);
    let (v, i5) = match parse_value_exec(s, i4) {
        Some(p) => p,
        None => {
            return None;
        },
    };
    let i6 = skip_ws_exec(s, i5);
    if i6 < n && s[i6] == 44 {
        let i7 = skip_ws_exec(s, i6 + 1);
        let (mut rest, i8) = match parse_members_exec(s, i7) {
            Some(p) => p,
            None => {
                return None;
            },
        };
        let mut ms: Vec<(Vec<u8>, JsonValue)> = Vec::new();
        ms.push((key, v));
        let ghost first = pairs_view(ms@);
        let ghost restv = pairs_view(rest@);
        ms.append(&mut rest);
        proof {
            let sv = (spec_parse_members(s@, i as int)->0).0;
            assert(pairs_view(ms@) =~= first + restv);
            assert(first + restv =~= sv);
        }
        Some((ms, i8))
    } else {
        let mut ms: Vec<(Vec<u8>, JsonValue)> = Vec::new();
        ms.push((key, v));
        proof {
            let sv = (spec_parse_members(s@, i as int)->0).0;
            assert(pairs_view(ms@) =~= sv);
        }
        Some((ms, i6))
    }
}

/// Parse a whole flat object from raw bytes: `None` reports any deviation
/// from the grammar, including trailing data.
pub fn parse_flat_object(s: &[u8]) -> (r: Option<Vec<(Vec<u8>, JsonValue)>>)
    ensures
        match r {
            Some(ms) => spec_parse_object(s@) == Some(pairs_view(ms@)),
            None => spec_parse_object(s@) is None,
        },
{
    let n: usize = s.len();
    let i0 = skip_ws_exec(s, 0);
    if !(i0 < n && s[i0] == 123) {
        return None;
    }
    let i1 = skip_ws_exec(s, i0 + 1);
    if i1 < n && s[i1] == 125 {
        if skip_ws_exec(s, i1 + 1) == n {
            let ms: Vec<(Vec<u8>, JsonValue)> = Vec::new();
            proof {
                assert(pairs_view(ms@) =~= Seq::<(Seq<u8>, SpecValue)>::empty());
            }
            Some(ms)
        } else {
            None
        }
    } else {
        let (ms, i2) = match parse_members_exec(s, i1) {
            Some(p) => p,
            None => {
                return None;
            },
        };
        if i2 < n && s[i2] == 125 {
            if skip_ws_exec(s, i2 + 1) == n {
                Some(ms)
            } else {
                None
            }
        } else {
            None
        }
    }
}


/// Every byte of the sequence is a decimal digit.
pub open spec fn all_digits(ds: Seq<u8>) -> bool {
    forall|i: int| 0 <= i < ds.len() ==> is_digit(#[trigger] ds[i])
}

/// Value of a digit string read in base ten.
pub open spec fn digits_val(ds: Seq<u8>) -> int
    decreases ds.len(),
{
    if ds.len() == 0 {
        0
    } else {
        digits_val(ds.drop_last()) * 10 + (ds.last() - 48)
    }
}

/// Powers of ten.
pub open spec fn pow10(n: nat) -> int
    decreases n,
{
    if n == 0 {
        1
    } else {
        10 * pow10((n - 1) as nat)
    }
}

/// Fractional digits scaled to millionths, truncated past six digits.
pub open spec fn frac_micro(ds: Seq<u8>) -> int {
    if ds.len() >= 6 {
        digits_val(ds.take(6))
    } else {
        digits_val(ds) * pow10((6 - ds.len()) as nat)
    }
}

/// A non-zero digit stands past the sixth fractional digit.
pub open spec fn frac_tail_nonzero(ds: Seq<u8>) -> bool {
    exists|j: int| 6 <= j < ds.len() && ds[j] != 48
}

/// The number's value in millionths, rounded away from zero, so that a
/// comparison of `num_micro` against a whole-number bound in millionths
/// agrees with the comparison of the written decimal against that bound.
pub open spec fn num_micro(n: SpecNum) -> int {
    let mag = digits_val(n.int_digits) * 1000000 + frac_micro(n.frac_digits) + if frac_tail_nonzero(
        n.frac_digits,
    ) {
        1int
    } else {
        0int
    };
    if n.neg {
        -mag
    } else {
        mag
    }
}

/// Millionths value clamped to what an `i64` holds, symmetrically.
pub open spec fn clamp_micro(v: int) -> int {
    if v > i64::MAX {
        i64::MAX as int
    } else if v < -(i64::MAX as int) {
        -(i64::MAX as int)
    } else {
        v
    }
}

/// The number as an unsigned whole value: `None` when it is negative, has
/// a fractional part, or does not fit.
pub open spec fn num_u64(n: SpecNum) -> Option<int> {
    if !n.neg && n.frac_digits.len() == 0 && digits_val(n.int_digits) <= u64::MAX {
        Some(digits_val(n.int_digits))
    } else {
        None
    }
}

/// A digit string's value is not negative.
pub proof fn lemma_digits_val_nonneg(ds: Seq<u8>)
    requires
        all_digits(ds),
    ensures
        digits_val(ds) >= 0,
    decreases ds.len(),
{
    if ds.len() > 0 {
        assert(all_digits(ds.drop_last()));
        lemma_digits_val_nonneg(ds.drop_last());
        assert(is_digit(ds.last()));
    }
}

/// A digit string's value is below ten to its length.
pub proof fn lemma_digits_val_bound(ds: Seq<u8>)
    requires
        all_digits(ds),
    ensures
        0 <= digits_val(ds) < pow10(ds.len()),
    decreases ds.len(),
{
    if ds.len() > 0 {
        assert(all_digits(ds.drop_last()));
        lemma_digits_val_bound(ds.drop_last());
        assert(is_digit(ds.last()));
    }
}

/// Ten to any power is positive.
proof fn lemma_pow10_pos(n: nat)
    ensures
        pow10(n) > 0,
    decreases n,
{
    if n > 0 {
        lemma_pow10_pos((n - 1) as nat);
    }
}

/// Ten to a power grows with the power.
proof fn lemma_pow10_le(a: nat, b: nat)
    requires
        a <= b,
    ensures
        0 < pow10(a) <= pow10(b),
    decreases b,
{
    lemma_pow10_pos(a);
    if a < b {
        lemma_pow10_le(a, (b - 1) as nat);
    }
}

/// A prefix of a digit string has a value no larger than the whole.
proof fn lemma_digits_val_take_le(ds: Seq<u8>, i: int)
    requires
        all_digits(ds),
        0 <= i <= ds.len(),
    ensures
        0 <= digits_val(ds.take(i)) <= digits_val(ds),
    decreases ds.len() - i,
{
    assert(all_digits(ds.take(i)));
    lemma_digits_val_nonneg(ds.take(i));
    assert(ds.take(ds.len() as int) =~= ds);
    if i < ds.len() {
        lemma_digits_val_take_le(ds, i + 1);
        assert(ds.take(i + 1).drop_last() =~= ds.take(i));
        assert(ds.take(i + 1).last() == ds[i]);
        assert(is_digit(ds[i]));
        assert(digits_val(ds.take(i + 1)) == digits_val(ds.take(i)) * 10 + (ds[i] - 48));
        assert(digits_val(ds.take(i)) * 10 >= digits_val(ds.take(i)));
    }
}

/// All-zero digits to pad a fractional part.
pub open spec fn zero_seq(k: nat) -> Seq<u8> {
    Seq::new(k, |i: int| 48u8)
}

/// Appending `k` zero digits multiplies the value by ten to the `k`.
proof fn lemma_digits_val_append_zeros(ds: Seq<u8>, k: nat)
    ensures
        digits_val(ds + zero_seq(k)) == digits_val(ds) * pow10(k),
    decreases k,
{
    if k == 0 {
        assert(ds + zero_seq(0) =~= ds);
    } else {
        lemma_digits_val_append_zeros(ds, (k - 1) as nat);
        let t = ds + zero_seq(k);
        assert(t.drop_last() =~= ds + zero_seq((k - 1) as nat));
        assert(t.last() == 48);
        assert(digits_val(t) == digits_val(ds) * pow10((k - 1) as nat) * 10);
        assert(digits_val(ds) * pow10((k - 1) as nat) * 10 == digits_val(ds) * (pow10(
            (k - 1) as nat,
        ) * 10)) by (nonlinear_arith);
        assert(pow10((k - 1) as nat) * 10 == pow10(k));
    }
}

/// The parts of a parsed number token are digit strings; the integer part
/// is never empty.
pub proof fn lemma_parse_number_digits(s: Seq<u8>, i: int)
    requires
        0 <= i <= s.len(),
    ensures
        match spec_parse_number(s, i) {
            Some((nm, i2)) => all_digits(nm.int_digits) && all_digits(nm.frac_digits)
                && nm.int_digits.len() >= 1,
            None => true,
        },
{
    let j = if i < s.len() && s[i] == 45 {
        i + 1
    } else {
        i
    };
    lemma_digit_run_bounds(s, j);
    let k = digit_run_end(s, j);
    assert(forall|t: int| 0 <= t < k - j ==> is_digit(#[trigger] s.subrange(j, k)[t]));
    if k > j && k < s.len() && s[k] == 46 {
        lemma_digit_run_bounds(s, k + 1);
        let m = digit_run_end(s, k + 1);
        assert(forall|t: int| 0 <= t < m - (k + 1) ==> is_digit(
            #[trigger] s.subrange(k + 1, m)[t],
        ));
    }
}

/// The number as an unsigned whole value that fits a `u64`.
#[verifier::loop_isolation(false)]
pub fn num_to_u64(n: &JsonNum) -> (r: Option<u64>)
    requires
        all_digits(n@.int_digits),
    ensures
        match r {
            Some(v) => num_u64(n@) == Some(v as int),
            None => num_u64(n@) is None,
        },
{
    if n.neg || n.frac_digits.len() > 0 {
        return None;
    }
    let ds = &n.int_digits;
    let len: usize = ds.len();
    let mut acc: u64 = 0;
    let mut i: usize = 0;
    proof {
        assert(ds@.take(0) =~= Seq::<u8>::empty());
    }
    while i < len
        invariant
            i <= len,
            acc == digits_val(ds@.take(i as int)),
        decreases len - i,
    {
        let d: u8 = ds[i] - 48;
        proof {
            assert(is_digit(ds@[i as int]));
            assert(ds@.take(i + 1).drop_last() =~= ds@.take(i as int));
            assert(ds@.take(i + 1).last() == ds@[i as int]);
        }
        let m = match acc.checked_mul(10) {
            Some(m) => m,
            None => {
                proof {
                    lemma_digits_val_take_le(ds@, i + 1);
                    assert(digits_val(ds@.take(i + 1)) == acc * 10 + d);
                    assert(ds@.take(ds@.len() as int) =~= ds@);
                }
                return None;
            },
        };
        let a = match m.checked_add(d as u64) {
            Some(a) => a,
            None => {
                proof {
                    lemma_digits_val_take_le(ds@, i + 1);
                    assert(digits_val(ds@.take(i + 1)) == acc * 10 + d);
                    assert(ds@.take(ds@.len() as int) =~= ds@);
                }
                return None;
            },
        };
        acc = a;
        i = i + 1;
    }
    proof {
        assert(ds@.take(len as int) =~= ds@);
    }
    Some(acc)
}

/// The number's value in millionths, rounded away from zero and clamped
/// symmetrically to what an `i64` holds.
#[verifier::loop_isolation(false)]
pub fn num_to_micro(n: &JsonNum) -> (r: i64)
    requires
        all_digits(n@.int_digits),
        all_digits(n@.frac_digits),
    ensures
        r as int == clamp_micro(num_micro(n@)),
{
    let ids = &n.int_digits;
    let ilen: usize = ids.len();
    // Integer part, capped at a bound far past the clamp threshold.
    let cap: u64 = 1000000000000000000;
    let mut intv: u64 = 0;
    let mut i: usize = 0;
    proof {
        assert(ids@.take(0) =~= Seq::<u8>::empty());
        lemma_digits_val_nonneg(ids@);
    }
    while i < ilen
        invariant
            i <= ilen,
            intv <= cap,
            digits_val(ids@.take(i as int)) <= cap ==> intv == digits_val(ids@.take(i as int)),
            digits_val(ids@.take(i as int)) > cap ==> intv == cap,
            digits_val(ids@.take(i as int)) >= 0,
        decreases ilen - i,
    {
        let d: u8 = ids[i] - 48;
        proof {
            assert(is_digit(ids@[i as int]));
            assert(ids@.take(i + 1).drop_last() =~= ids@.take(i as int));
            assert(ids@.take(i + 1).last() == ids@[i as int]);
            assert(all_digits(ids@.take(i + 1)));
            lemma_digits_val_nonneg(ids@.take(i + 1));
            let dv = digits_val(ids@.take(i as int));
            assert(dv * 10 >= dv);
        }
        let t: u64 = intv * 10 + (d as u64);
        intv = if t > cap {
            cap
        } else {
            t
        };
        i = i + 1;
    }
    proof {
        assert(ids@.take(ilen as int) =~= ids@);
    }
    // Fractional part: value of the first six digits, zero padded.
    let fds = &n.frac_digits;
    let flen: usize = fds.len();
    let ghost padded: Seq<u8> = if fds@.len() >= 6 {
        fds@.take(6)
    } else {
        fds@ + zero_seq((6 - fds@.len()) as nat)
    };
    proof {
        assert(padded.len() == 6);
        if fds@.len() < 6 {
            lemma_digits_val_append_zeros(fds@, (6 - fds@.len()) as nat);
        }
        assert(digits_val(padded) == frac_micro(fds@));
        assert(padded.take(0) =~= Seq::<u8>::empty());
    }
    let mut fracv: u64 = 0;
    let mut k: usize = 0;
    while k < 6
        invariant
            k <= 6,
            fracv == digits_val(padded.take(k as int)),
            fracv < pow10(k as nat),
        decreases 6 - k,
    {
        let d: u8 = if k < flen {
            fds[k] - 48
        } else {
            0
        };
        proof {
            assert(padded.take(k + 1).drop_last() =~= padded.take(k as int));
            assert(padded.take(k + 1).last() == padded[k as int]);
            if k < fds@.len() {
                assert(is_digit(fds@[k as int]));
                assert(padded[k as int] == fds@[k as int]);
            } else {
                assert(padded[k as int] == 48);
            }
            lemma_pow10_le(k as nat, 5);
            reveal_with_fuel(pow10, 7);
            assert(pow10(5) == 100000);
            assert(pow10((k + 1) as nat) == 10 * pow10(k as nat));
        }
        fracv = fracv * 10 + (d as u64);
        k = k + 1;
    }
    proof {
        assert(padded.take(6) =~= padded);
        reveal_with_fuel(pow10, 7);
        assert(pow10(6) == 1000000);
    }
    // Rounding bump when a non-zero digit stands past the sixth.
    let mut bump: u64 = 0;
    let mut j: usize = 6;
    if flen > 6 {
        while j < flen
            invariant
                6 <= j <= flen,
                bump == 0 || bump == 1,
                bump == 1 <==> exists|t: int| 6 <= t < j && fds@[t] != 48,
            decreases flen - j,
        {
            if fds[j] != 48 {
                bump = 1;
            }
            j = j + 1;
        }
    }
    proof {
        if bump == 1 {
            assert(frac_tail_nonzero(fds@));
        } else {
            assert(!frac_tail_nonzero(fds@));
        }
    }
    // Combine in a wide register and clamp.
    let mag: u128 = (intv as u128) * 1000000 + (fracv as u128) + (bump as u128);
    let ghost real_mag = digits_val(ids@) * 1000000 + frac_micro(fds@) + if frac_tail_nonzero(
        fds@,
    ) {
        1int
    } else {
        0int
    };
    proof {
        lemma_digits_val_bound(fds@);
        if fds@.len() >= 6 {
            assert(all_digits(fds@.take(6)));
            lemma_digits_val_bound(fds@.take(6));
        }
        assert(frac_micro(fds@) >= 0) by {
            if fds@.len() < 6 {
                lemma_digits_val_nonneg(fds@);
                lemma_pow10_le(0, (6 - fds@.len()) as nat);
                assert(digits_val(fds@) * pow10((6 - fds@.len()) as nat) >= 0) by (nonlinear_arith)
                    requires digits_val(fds@) >= 0 && pow10((6 - fds@.len()) as nat) > 0;
            }
        }
        if digits_val(ids@) > cap {
            assert(digits_val(ids@) * 1000000 >= cap * 1000000 + 1000000) by (nonlinear_arith)
                requires digits_val(ids@) >= cap + 1;
            assert(real_mag > i64::MAX);
            assert(mag >= (cap as u128) * 1000000);
        } else {
            assert(mag == real_mag);
        }
    }
    let limit: u128 = 9223372036854775807;
    let m: i64 = if mag > limit {
        9223372036854775807
    } else {
        mag as i64
    };
    proof {
        if mag > limit {
            assert(real_mag > i64::MAX);
        }
    }
    if n.neg {
        -m
    } else {
        m
    }
}


/// A whole byte string read as one plain decimal number, in clamped
/// millionths: `None` unless the entire input is a single number token.
pub open spec fn spec_decimal_micro(s: Seq<u8>) -> Option<int> {
    match spec_parse_number(s, 0) {
        Some((nm, end)) => if end == s.len() {
            Some(clamp_micro(num_micro(nm)))
        } else {
            None
        },
        None => None,
    }
}

/// Read a whole byte string as one plain decimal number, in clamped
/// millionths.
pub fn parse_decimal_micro(s: &[u8]) -> (r: Option<i64>)
    ensures
        (match r {
            Some(v) => spec_decimal_micro(s@) == Some(v as int),
            None => spec_decimal_micro(s@) is None,
        }),
{
    proof {
        lemma_parse_number_digits(s@, 0);
    }
    match parse_number_exec(s, 0) {
        Some((nm, end)) => if end == s.len() {
            Some(num_to_micro(&nm))
        } else {
            None
        },
        None => None,
    }
}

} // verus!
