//! Parsing of decimal text into fixed-point integers.
//!
//! Money amounts are held in hundredths (two decimal places) and coordinates
//! in millionths (six decimal places). A field parses when, after trimming
//! ASCII whitespace, it is an optional sign followed by decimal digits with at
//! most one point and at least one digit; fractional digits beyond the scale
//! are truncated. Values whose magnitude exceeds the given cap are rejected.
use vstd::prelude::*;
use vstd::utf8::encode_utf8;

verus! {

/// Largest money magnitude accepted, in hundredths (ten trillion units).
pub const MONEY_CAP: i64 = 1_000_000_000_000_000;

/// Largest coordinate magnitude accepted, in millionths of a degree.
pub const COORD_CAP: i64 = 1_000_000_000_000;

/// ASCII whitespace trimmed from both ends of a numeric field.
pub open spec fn is_ws(c: u8) -> bool {
    c == 32 || c == 9 || c == 10 || c == 13
}

/// ASCII decimal digit.
pub open spec fn is_digit(c: u8) -> bool {
    48 <= c <= 57
}

pub open spec fn trim_front(s: Seq<u8>) -> Seq<u8>
    decreases s.len(),
{
    if s.len() > 0 && is_ws(s[0]) {
        trim_front(s.drop_first())
    } else {
        s
    }
}

pub open spec fn trim_back(s: Seq<u8>) -> Seq<u8>
    decreases s.len(),
{
    if s.len() > 0 && is_ws(s.last()) {
        trim_back(s.drop_last())
    } else {
        s
    }
}

/// The field with ASCII whitespace removed from both ends.
pub open spec fn trimmed(s: Seq<u8>) -> Seq<u8> {
    trim_back(trim_front(s))
}

pub open spec fn all_digits(s: Seq<u8>) -> bool {
    forall|i: int| 0 <= i < s.len() ==> is_digit(s[i])
}

/// Value of a digit string read in base ten.
pub open spec fn digits_val(s: Seq<u8>) -> int
    decreases s.len(),
{
    if s.len() == 0 {
        0
    } else {
        digits_val(s.drop_last()) * 10 + (s.last() - 48)
    }
}

pub open spec fn pow10(k: nat) -> int
    decreases k,
{
    if k == 0 {
        1
    } else {
        10 * pow10((k - 1) as nat)
    }
}

/// Index of the first `.` in `s`, or `-1` if there is none.
pub open spec fn first_dot(s: Seq<u8>) -> int
    decreases s.len(),
{
    if s.len() == 0 {
        -1
    } else if s[0] == 46 {
        0
    } else if first_dot(s.drop_first()) < 0 {
        -1
    } else {
        1 + first_dot(s.drop_first())
    }
}

/// Digits before the point (the whole body when there is no point).
pub open spec fn int_digits(t: Seq<u8>) -> Seq<u8> {
    if first_dot(t) < 0 {
        t
    } else {
        t.take(first_dot(t))
    }
}

/// Digits after the point (empty when there is no point).
pub open spec fn frac_digits(t: Seq<u8>) -> Seq<u8> {
    if first_dot(t) < 0 {
        Seq::empty()
    } else {
        t.skip(first_dot(t) + 1)
    }
}

/// Sign factor given by an optional leading `+` or `-`.
pub open spec fn sign_of(t: Seq<u8>) -> int {
    if t.len() > 0 && t[0] == 45 {
        -1
    } else {
        1
    }
}

/// The body of the field after the optional sign.
pub open spec fn body_of(t: Seq<u8>) -> Seq<u8> {
    if t.len() > 0 && (t[0] == 43 || t[0] == 45) {
        t.drop_first()
    } else {
        t
    }
}

/// A well-formed body: digits with at most one point, and at least one digit.
pub open spec fn body_ok(b: Seq<u8>) -> bool {
    all_digits(int_digits(b)) && all_digits(frac_digits(b)) && int_digits(b).len() + frac_digits(
        b,
    ).len() > 0
}

/// Fractional digits scaled to exactly `k` places: truncated beyond `k`,
/// padded with zeros below `k`.
pub open spec fn frac_scaled(f: Seq<u8>, k: nat) -> int {
    if f.len() >= k {
        digits_val(f.take(k as int))
    } else {
        digits_val(f) * pow10((k - f.len()) as nat)
    }
}

/// Magnitude of a well-formed body, in units of `10^-k`.
pub open spec fn body_val(b: Seq<u8>, k: nat) -> int {
    digits_val(int_digits(b)) * pow10(k) + frac_scaled(frac_digits(b), k)
}

/// The value a decimal field parses to at scale `k`, capped at `cap`:
/// `None` when the trimmed field is not an optional sign followed by a
/// well-formed digit body, or when its magnitude exceeds `cap`.
pub open spec fn decimal_of(s: Seq<u8>, k: nat, cap: int) -> Option<int> {
    let t = trimmed(s);
    let b = body_of(t);
    if body_ok(b) && body_val(b, k) <= cap {
        Some(sign_of(t) * body_val(b, k))
    } else {
        None
    }
}

/// What a money field parses to: hundredths, capped at [`MONEY_CAP`].
pub open spec fn spec_parse_budget(s: Seq<char>) -> Option<int> {
    decimal_of(encode_utf8(s), 2, MONEY_CAP as int)
}

/// What a coordinate field parses to: millionths, capped at [`COORD_CAP`].
pub open spec fn spec_parse_coordinate(s: Seq<char>) -> Option<int> {
    decimal_of(encode_utf8(s), 6, COORD_CAP as int)
}

proof fn lemma_trim_front_skip(s: Seq<u8>, lo: int)
    requires
        0 <= lo <= s.len(),
        forall|j: int| 0 <= j < lo ==> is_ws(s[j]),
        lo == s.len() || !is_ws(s[lo]),
    ensures
        trim_front(s) == s.skip(lo),
    decreases lo,
{
    if lo > 0 {
        assert(is_ws(s[0]));
        assert forall|j: int| 0 <= j < lo - 1 implies is_ws(s.drop_first()[j]) by {
            assert(s.drop_first()[j] == s[j + 1]);
        }
        lemma_trim_front_skip(s.drop_first(), lo - 1);
        assert(s.drop_first().skip(lo - 1) =~= s.skip(lo));
    } else {
        assert(s.skip(0) =~= s);
    }
}

proof fn lemma_trim_back_take(s: Seq<u8>, hi: int)
    requires
        0 <= hi <= s.len(),
        forall|j: int| hi <= j < s.len() ==> is_ws(s[j]),
        hi == 0 || !is_ws(s[hi - 1]),
    ensures
        trim_back(s) == s.take(hi),
    decreases s.len() - hi,
{
    if hi < s.len() {
        assert(is_ws(s.last()));
        lemma_trim_back_take(s.drop_last(), hi);
        assert(s.drop_last().take(hi) =~= s.take(hi));
    } else {
        assert(s.take(hi) =~= s);
    }
}

/// `first_dot` is determined by a scan that finds the first `.` at `p`,
/// or none at all when `p` is the length.
proof fn lemma_first_dot_at(s: Seq<u8>, p: int)
    requires
        0 <= p <= s.len(),
        forall|j: int| 0 <= j < p ==> s[j] != 46,
        p == s.len() || s[p] == 46,
    ensures
        first_dot(s) == if p == s.len() {
            -1int
        } else {
            p
        },
    decreases s.len(),
{
    if s.len() == 0 {
    } else if s[0] == 46 {
        assert(p == 0);
    } else {
        assert(p >= 1);
        assert forall|j: int| 0 <= j < p - 1 implies s.drop_first()[j] != 46 by {
            assert(s.drop_first()[j] == s[j + 1]);
        }
        if p < s.len() {
            assert(s.drop_first()[p - 1] == s[p]);
        }
        lemma_first_dot_at(s.drop_first(), p - 1);
    }
}

/// The position `first_dot` names really is the first `.`.
proof fn lemma_first_dot_props(s: Seq<u8>)
    ensures
        first_dot(s) >= 0 ==> first_dot(s) < s.len() && s[first_dot(s)] == 46 && (forall|j: int|
            0 <= j < first_dot(s) ==> s[j] != 46),
        first_dot(s) < 0 ==> forall|j: int| 0 <= j < s.len() ==> s[j] != 46,
    decreases s.len(),
{
    if s.len() > 0 && s[0] != 46 {
        lemma_first_dot_props(s.drop_first());
        assert forall|j: int| 0 <= j < s.len() && first_dot(s) < 0 implies s[j] != 46 by {
            if j > 0 {
                assert(s.drop_first()[j - 1] == s[j]);
            }
        }
        if first_dot(s) >= 0 {
            assert(s.drop_first()[first_dot(s) - 1] == s[first_dot(s)]);
            assert forall|j: int| 0 <= j < first_dot(s) implies s[j] != 46 by {
                if j > 0 {
                    assert(s.drop_first()[j - 1] == s[j]);
                }
            }
        }
    }
}

proof fn lemma_digits_val_nonneg(s: Seq<u8>)
    requires
        all_digits(s),
    ensures
        digits_val(s) >= 0,
    decreases s.len(),
{
    if s.len() > 0 {
        assert(all_digits(s.drop_last()));
        lemma_digits_val_nonneg(s.drop_last());
        assert(is_digit(s.last()));
    }
}

proof fn lemma_digits_val_take_le(s: Seq<u8>, i: int)
    requires
        all_digits(s),
        0 <= i <= s.len(),
    ensures
        digits_val(s.take(i)) <= digits_val(s),
    decreases s.len(),
{
    if i < s.len() {
        assert(all_digits(s.drop_last()));
        assert(s.drop_last().take(i) =~= s.take(i));
        lemma_digits_val_take_le(s.drop_last(), i);
        lemma_digits_val_nonneg(s.drop_last());
        assert(is_digit(s.last()));
    } else {
        assert(s.take(i) =~= s);
    }
}

proof fn lemma_pow10_pos(k: nat)
    ensures
        pow10(k) >= 1,
    decreases k,
{
    if k > 0 {
        lemma_pow10_pos((k - 1) as nat);
    }
}

proof fn lemma_pow10_mono(a: nat, b: nat)
    requires
        a <= b,
    ensures
        pow10(a) <= pow10(b),
    decreases b,
{
    if a < b {
        lemma_pow10_mono(a, (b - 1) as nat);
        lemma_pow10_pos((b - 1) as nat);
    }
}

proof fn lemma_digits_val_bound(s: Seq<u8>)
    requires
        all_digits(s),
    ensures
        0 <= digits_val(s) < pow10(s.len()),
    decreases s.len(),
{
    if s.len() > 0 {
        assert(all_digits(s.drop_last()));
        lemma_digits_val_bound(s.drop_last());
        assert(is_digit(s.last()));
    } else {
        lemma_pow10_pos(0);
    }
}

/// A digit prefix of the whole part is a lower bound on the body's value.
proof fn lemma_body_val_lower(b: Seq<u8>, k: nat, i: int)
    requires
        body_ok(b),
        0 <= i <= int_digits(b).len(),
    ensures
        body_val(b, k) >= digits_val(int_digits(b).take(i)),
{
    let idg = int_digits(b);
    let f = frac_digits(b);
    lemma_digits_val_take_le(idg, i);
    lemma_digits_val_nonneg(idg);
    lemma_pow10_pos(k);
    if f.len() >= k {
        assert(all_digits(f.take(k as int)));
        lemma_digits_val_nonneg(f.take(k as int));
    } else {
        lemma_digits_val_nonneg(f);
        lemma_pow10_pos((k - f.len()) as nat);
        assert(digits_val(f) * pow10((k - f.len()) as nat) >= 0) by (nonlinear_arith)
            requires
                digits_val(f) >= 0,
                pow10((k - f.len()) as nat) >= 0,
        ;
    }
    assert(digits_val(idg) * pow10(k) >= digits_val(idg)) by (nonlinear_arith)
        requires
            digits_val(idg) >= 0,
            pow10(k) >= 1,
    ;
}

/// A parsed decimal value lies within the cap on both sides.
pub proof fn lemma_decimal_bounds(s: Seq<u8>, k: nat, cap: int)
    requires
        decimal_of(s, k, cap) is Some,
    ensures
        -cap <= decimal_of(s, k, cap).unwrap() <= cap,
{
    let t = trimmed(s);
    let b = body_of(t);
    lemma_body_val_lower(b, k, 0);
    assert(b.take(0) =~= Seq::<u8>::empty());
    assert(int_digits(b).take(0) =~= Seq::<u8>::empty());
}

fn pow10_exec(k: usize) -> (r: i128)
    requires
        k <= 6,
    ensures
        r == pow10(k as nat),
        1 <= r <= 1_000_000,
{
    proof {
        reveal_with_fuel(pow10, 8);
    }
    if k == 0 {
        1
    } else if k == 1 {
        10
    } else if k == 2 {
        100
    } else if k == 3 {
        1_000
    } else if k == 4 {
        10_000
    } else if k == 5 {
        100_000
    } else {
        1_000_000
    }
}

/// Finds the bounds of the field once ASCII whitespace is trimmed.
#[verifier::loop_isolation(false)]
fn trim_bounds(b: &Vec<u8>) -> (r: (usize, usize))
    ensures
        r.0 <= r.1 <= b@.len(),
        trimmed(b@) == b@.subrange(r.0 as int, r.1 as int),
{
    let n = b.len();
    let mut lo: usize = 0;
    while lo < n && (b[lo] == 32 || b[lo] == 9 || b[lo] == 10 || b[lo] == 13)
        invariant
            lo <= n,
            forall|j: int| 0 <= j < lo ==> is_ws(b@[j]),
        decreases n - lo,
    {
        lo = lo + 1;
    }
    let mut hi: usize = n;
    while hi > lo && (b[hi - 1] == 32 || b[hi - 1] == 9 || b[hi - 1] == 10 || b[hi - 1] == 13)
        invariant
            lo <= hi <= n,
            forall|j: int| hi <= j < n ==> is_ws(b@[j]),
        decreases hi,
    {
        hi = hi - 1;
    }
    proof {
        lemma_trim_front_skip(b@, lo as int);
        assert forall|j: int| (hi - lo) <= j < b@.skip(lo as int).len() implies is_ws(
            b@.skip(lo as int)[j],
        ) by {
            assert(b@.skip(lo as int)[j] == b@[j + lo]);
        }
        if hi > lo {
            assert(b@.skip(lo as int)[hi - lo - 1] == b@[hi - 1]);
        }
        lemma_trim_back_take(b@.skip(lo as int), (hi - lo) as int);
        assert(b@.skip(lo as int).take((hi - lo) as int) =~= b@.subrange(lo as int, hi as int));
    }
    (lo, hi)
}

/// Scans the fractional digits in `b[start..hi]`: `None` when a non-digit
/// appears, otherwise the value of the first `k` digits together with how
/// many of them there were (at most `k`).
#[verifier::loop_isolation(false)]
fn scan_frac(b: &Vec<u8>, start: usize, hi: usize, k: usize) -> (r: Option<(i128, usize)>)
    requires
        start <= hi <= b@.len(),
        1 <= k <= 6,
    ensures
        (r is None) == !all_digits(b@.subrange(start as int, hi as int)),
        r matches Some((fval, fcnt)) ==> {
            let f = b@.subrange(start as int, hi as int);
            &&& fcnt == if f.len() <= k {
                f.len() as int
            } else {
                k as int
            }
            &&& fval == digits_val(f.take(fcnt as int))
            &&& 0 <= fval < pow10(fcnt as nat)
        },
{
    let ghost f = b@.subrange(start as int, hi as int);
    let mut fj = start;
    let mut fval: i128 = 0;
    let mut fcnt: usize = 0;
    while fj < hi
        invariant
            start <= fj <= hi,
            forall|idx: int| start <= idx < fj ==> is_digit(b@[idx]),
            fcnt == if fj - start <= k {
                fj - start
            } else {
                k as int
            },
            fval == digits_val(b@.subrange(start as int, start + fcnt)),
            0 <= fval < pow10(fcnt as nat),
        decreases hi - fj,
    {
        let c = b[fj];
        if c < 48 || c > 57 {
            proof {
                assert(f[fj - start] == b@[fj as int]);
                assert(!is_digit(f[fj - start]));
            }
            return None;
        }
        if fcnt < k {
            proof {
                lemma_pow10_mono(fcnt as nat, 5);
                assert(pow10(5) == 100_000) by {
                    reveal_with_fuel(pow10, 8);
                };
            }
            let fval2 = fval * 10 + ((c - 48) as i128);
            proof {
                assert(b@.subrange(start as int, start + 1 + fcnt).drop_last() =~= b@.subrange(
                    start as int,
                    start + fcnt,
                ));
                assert(b@.subrange(start as int, start + 1 + fcnt).last() == b@[fj as int]);
                assert(fval2 == digits_val(b@.subrange(start as int, start + 1 + fcnt)));
                assert(pow10((fcnt + 1) as nat) == 10 * pow10(fcnt as nat));
            }
            fval = fval2;
            fcnt = fcnt + 1;
        }
        fj = fj + 1;
    }
    proof {
        assert(all_digits(f)) by {
            assert forall|idx: int| 0 <= idx < f.len() implies is_digit(f[idx]) by {
                assert(f[idx] == b@[start + idx]);
            }
        }
        assert(f.take(fcnt as int) =~= b@.subrange(start as int, start + fcnt));
    }
    Some((fval, fcnt))
}

/// Parses a decimal field at scale `k` (fixed-point with `k` fractional
/// digits), rejecting magnitudes above `cap`.
#[verifier::rlimit(100)]
#[verifier::loop_isolation(false)]
pub fn parse_fixed(s: &str, k: usize, cap: i64) -> (r: Option<i64>)
    requires
        1 <= k <= 6,
        0 < cap <= MONEY_CAP,
    ensures
        (r is Some) == (decimal_of(encode_utf8(s@), k as nat, cap as int) is Some),
        r matches Some(v) ==> decimal_of(encode_utf8(s@), k as nat, cap as int) == Some(v as int),
{
    let b = s.as_bytes_vec();
    let (lo, hi) = trim_bounds(&b);
    let ghost t = trimmed(b@);
    let mut p = lo;
    let mut neg = false;
    if lo < hi && (b[lo] == 43 || b[lo] == 45) {
        neg = b[lo] == 45;
        p = lo + 1;
    }
    let ghost body = body_of(t);
    proof {
        assert(body =~= b@.subrange(p as int, hi as int));
        assert(sign_of(t) == if neg {
            -1int
        } else {
            1int
        });
    }
    let ghost kk = k as nat;
    let ghost capi = cap as int;
    let ghost target = decimal_of(encode_utf8(s@), kk, capi);
    // Whole part: digits up to the first point.
    let mut j = p;
    let mut ival: i128 = 0;
    while j < hi && b[j] != 46
        invariant
            1 <= k <= 6,
            0 < cap <= MONEY_CAP,
            p <= j <= hi <= b@.len(),
            body == b@.subrange(p as int, hi as int),
            forall|idx: int| p <= idx < j ==> is_digit(b@[idx]),
            ival == digits_val(b@.subrange(p as int, j as int)),
            0 <= ival <= cap as i128,
            target == decimal_of(b@, k as nat, cap as int),
        decreases hi - j,
    {
        let c = b[j];
        if c < 48 || c > 57 {
            // A character that is neither digit nor point: the body is
            // malformed, whatever follows.
            proof {
                lemma_first_dot_props(body);
                assert forall|idx: int| 0 <= idx <= j - p implies body[idx] != 46 by {
                    assert(body[idx] == b@[p + idx]);
                }
                if 0 <= first_dot(body) <= j - p {
                    assert(body[first_dot(body)] == 46);
                }
                assert(first_dot(body) < 0 || first_dot(body) > j - p);
                assert(j - p < int_digits(body).len());
                assert(int_digits(body)[j - p] == b@[j as int]);
                assert(!is_digit(int_digits(body)[j - p]));
                assert(!body_ok(body));
                assert(decimal_of(b@, kk, capi) is None);
            }
            return None;
        }
        let ival2 = ival * 10 + ((c - 48) as i128);
        proof {
            assert(b@.subrange(p as int, j + 1).drop_last() =~= b@.subrange(p as int, j as int));
            assert(b@.subrange(p as int, j + 1).last() == b@[j as int]);
            assert(ival2 == digits_val(b@.subrange(p as int, j + 1)));
        }
        if ival2 > cap as i128 {
            // Even the digits seen so far exceed the cap.
            proof {
                lemma_first_dot_props(body);
                assert forall|idx: int| 0 <= idx <= j - p implies body[idx] != 46 by {
                    assert(body[idx] == b@[p + idx]);
                }
                if 0 <= first_dot(body) <= j - p {
                    assert(body[first_dot(body)] == 46);
                }
                assert(first_dot(body) < 0 || first_dot(body) > j - p);
                assert(j - p < int_digits(body).len());
                if body_ok(body) {
                    assert(int_digits(body).take(j + 1 - p) =~= b@.subrange(p as int, j + 1));
                    lemma_body_val_lower(body, kk, j + 1 - p);
                    assert(digits_val(int_digits(body).take(j + 1 - p)) == ival2 as int);
                    assert(body_val(body, kk) > capi);
                }
                assert(decimal_of(b@, kk, capi) is None);
            }
            return None;
        }
        ival = ival2;
        j = j + 1;
    }
    let intlen = j - p;
    let ghost idg = int_digits(body);
    if j < hi {
        // A point: scan the fractional digits.
        let dotj = j;
        proof {
            assert forall|idx: int| 0 <= idx < dotj - p implies body[idx] != 46 by {
                assert(body[idx] == b@[p + idx]);
            }
            assert(body[dotj - p] == b@[dotj as int]);
            lemma_first_dot_at(body, dotj - p);
            assert(idg =~= b@.subrange(p as int, dotj as int));
            assert(all_digits(idg));
            assert(frac_digits(body) =~= b@.subrange(dotj + 1, hi as int));
        }
        let ghost frac = frac_digits(body);
        let scanned = match scan_frac(&b, dotj + 1, hi, k) {
            Some(pair) => pair,
            None => {
                proof {
                    assert(!all_digits(frac));
                    assert(!body_ok(body));
                    assert(decimal_of(b@, kk, capi) is None);
                }
                return None;
            },
        };
        let fval = scanned.0;
        let fcnt = scanned.1;
        if intlen == 0 && hi - dotj - 1 == 0 {
            // A bare point with no digits on either side.
            proof {
                assert(idg.len() == 0 && frac.len() == 0);
                assert(!body_ok(body));
                assert(decimal_of(b@, kk, capi) is None);
            }
            return None;
        }
        proof {
            assert(body_ok(body));
            if frac.len() >= k {
                assert(fcnt == k);
            } else {
                assert(fcnt == frac.len());
                assert(frac.take(frac.len() as int) =~= frac);
            }
            lemma_pow10_mono(fcnt as nat, 6);
            assert(pow10(6) == 1_000_000) by {
                reveal_with_fuel(pow10, 8);
            };
            assert(0 <= fval < 1_000_000);
        }
        let scale_rest = pow10_exec(k - fcnt);
        proof {
            assert(fval * scale_rest >= 0 && fval * scale_rest < 1_000_000_000_000) by (
            nonlinear_arith)
                requires
                    0 <= fval < 1_000_000,
                    1 <= scale_rest <= 1_000_000,
            ;
        }
        let fpart = fval * scale_rest;
        proof {
            assert(fpart == frac_scaled(frac, kk));
        }
        let pk = pow10_exec(k);
        proof {
            assert(0 <= ival * pk && ival * pk <= cap as i128 * 1_000_000) by (nonlinear_arith)
                requires
                    0 <= ival <= cap as i128,
                    1 <= pk <= 1_000_000,
            ;
        }
        let total = ival * pk + fpart;
        proof {
            assert(digits_val(idg) == ival);
            assert(total == body_val(body, kk));
        }
        if total > cap as i128 {
            proof {
                assert(decimal_of(b@, kk, capi) is None);
            }
            return None;
        }
        let v = total as i64;
        if neg {
            Some(-v)
        } else {
            Some(v)
        }
    } else {
        // No point: the body is the whole part alone.
        proof {
            assert forall|idx: int| 0 <= idx < body.len() implies body[idx] != 46 by {
                assert(body[idx] == b@[p + idx]);
            }
            lemma_first_dot_at(body, (hi - p) as int);
            assert(idg == body);
            assert(idg =~= b@.subrange(p as int, hi as int));
            assert(frac_digits(body).len() == 0);
        }
        if intlen == 0 {
            proof {
                assert(idg.len() == 0 && frac_digits(body).len() == 0);
                assert(!body_ok(body));
                assert(decimal_of(b@, kk, capi) is None);
            }
            return None;
        }
        proof {
            assert(all_digits(idg)) by {
                assert forall|idx: int| 0 <= idx < idg.len() implies is_digit(idg[idx]) by {
                    assert(idg[idx] == b@[p + idx]);
                }
            }
            assert(body_ok(body));
        }
        let pk = pow10_exec(k);
        proof {
            assert(0 <= ival * pk && ival * pk <= cap as i128 * 1_000_000) by (nonlinear_arith)
                requires
                    0 <= ival <= cap as i128,
                    1 <= pk <= 1_000_000,
            ;
        }
        let total = ival * pk;
        proof {
            assert(digits_val(idg) == ival);
            assert(frac_scaled(frac_digits(body), kk) == 0);
            assert(total == body_val(body, kk));
        }
        if total > cap as i128 {
            proof {
                assert(decimal_of(b@, kk, capi) is None);
            }
            return None;
        }
        let v = total as i64;
        if neg {
            Some(-v)
        } else {
            Some(v)
        }
    }
}

/// Parses a money field into hundredths of a unit.
pub fn parse_budget(s: &str) -> (r: Option<i64>)
    ensures
        (r is Some) == (spec_parse_budget(s@) is Some),
        r matches Some(v) ==> spec_parse_budget(s@) == Some(v as int),
{
    parse_fixed(s, 2, MONEY_CAP)
}

/// Parses a coordinate field into millionths of a degree.
pub fn parse_coordinate(s: &str) -> (r: Option<i64>)
    ensures
        (r is Some) == (spec_parse_coordinate(s@) is Some),
        r matches Some(v) ==> spec_parse_coordinate(s@) == Some(v as int),
{
    parse_fixed(s, 6, COORD_CAP)
}

} // verus!
