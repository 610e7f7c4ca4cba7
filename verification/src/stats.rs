//! Statistical primitives: median, min-max normalization, and percentage,
//! all in exact fixed-point arithmetic.
use vstd::prelude::*;
use crate::arith::{lemma_round_div_le, round_div, round_div_i128};
use crate::model::MAX_RECORDS;
use crate::parse::MONEY_CAP;

verus! {

/// `x` inserted in front of the first element of the sorted sequence `s`
/// that is not smaller.
pub open spec fn spec_insert_i64(x: i64, s: Seq<i64>) -> Seq<i64>
    decreases s.len(),
{
    if s.len() == 0 {
        seq![x]
    } else if x <= s[0] {
        seq![x] + s
    } else {
        seq![s[0]] + spec_insert_i64(x, s.drop_first())
    }
}

/// Insertion sort, ascending.
pub open spec fn spec_sort_i64(s: Seq<i64>) -> Seq<i64>
    decreases s.len(),
{
    if s.len() == 0 {
        Seq::<i64>::empty()
    } else {
        spec_insert_i64(s[0], spec_sort_i64(s.drop_first()))
    }
}

/// Twice the median: twice the middle element of the sorted values for an
/// odd count, the sum of the two middle elements for an even count, and 0
/// for no values at all. Doubling keeps the even-count midpoint exact.
pub open spec fn spec_median_doubled(s: Seq<i64>) -> int {
    if s.len() == 0 {
        0
    } else {
        let t = spec_sort_i64(s);
        if s.len() % 2 == 1 {
            2 * t[s.len() as int / 2]
        } else {
            t[s.len() as int / 2 - 1] + t[s.len() as int / 2]
        }
    }
}

pub proof fn lemma_insert_len(x: i64, s: Seq<i64>)
    ensures
        spec_insert_i64(x, s).len() == s.len() + 1,
    decreases s.len(),
{
    if s.len() > 0 && !(x <= s[0]) {
        lemma_insert_len(x, s.drop_first());
    }
}

pub proof fn lemma_sort_len(s: Seq<i64>)
    ensures
        spec_sort_i64(s).len() == s.len(),
    decreases s.len(),
{
    if s.len() > 0 {
        lemma_sort_len(s.drop_first());
        lemma_insert_len(s[0], spec_sort_i64(s.drop_first()));
    }
}

/// Sorting keeps every element within the bounds of the input.
pub proof fn lemma_insert_bound(x: i64, s: Seq<i64>, b: int)
    requires
        -b <= x <= b,
        forall|i: int| 0 <= i < s.len() ==> -b <= #[trigger] s[i] <= b,
    ensures
        forall|i: int|
            0 <= i < spec_insert_i64(x, s).len() ==> -b <= #[trigger] spec_insert_i64(x, s)[i]
                <= b,
    decreases s.len(),
{
    if s.len() > 0 && !(x <= s[0]) {
        assert forall|i: int| 0 <= i < s.drop_first().len() implies -b
            <= #[trigger] s.drop_first()[i] <= b by {
            assert(s.drop_first()[i] == s[i + 1]);
        }
        lemma_insert_bound(x, s.drop_first(), b);
    }
    assert forall|i: int| 0 <= i < spec_insert_i64(x, s).len() implies -b <= #[trigger] spec_insert_i64(
        x,
        s,
    )[i] <= b by {
        if s.len() == 0 {
            assert(spec_insert_i64(x, s)[i] == x);
        } else if x <= s[0] {
            if i == 0 {
                assert(spec_insert_i64(x, s)[i] == x);
            } else {
                assert(spec_insert_i64(x, s)[i] == s[i - 1]);
            }
        } else {
            if i == 0 {
                assert(spec_insert_i64(x, s)[i] == s[0]);
            } else {
                assert(spec_insert_i64(x, s)[i] == spec_insert_i64(x, s.drop_first())[i - 1]);
            }
        }
    }
}

pub proof fn lemma_sort_bound(s: Seq<i64>, b: int)
    requires
        forall|i: int| 0 <= i < s.len() ==> -b <= #[trigger] s[i] <= b,
    ensures
        forall|i: int|
            0 <= i < spec_sort_i64(s).len() ==> -b <= #[trigger] spec_sort_i64(s)[i] <= b,
    decreases s.len(),
{
    if s.len() > 0 {
        assert forall|i: int| 0 <= i < s.drop_first().len() implies -b
            <= #[trigger] s.drop_first()[i] <= b by {
            assert(s.drop_first()[i] == s[i + 1]);
        }
        lemma_sort_bound(s.drop_first(), b);
        lemma_insert_bound(s[0], spec_sort_i64(s.drop_first()), b);
    }
}

fn insert_sorted_i64(x: i64, s: Vec<i64>) -> (out: Vec<i64>)
    ensures
        out@ == spec_insert_i64(x, s@),
    decreases s@.len(),
{
    let mut s = s;
    if s.len() == 0 {
        s.push(x);
        proof {
            assert(s@ =~= seq![x]);
        }
        s
    } else if x <= s[0] {
        s.insert(0, x);
        proof {
            assert(s@ =~= seq![x] + s@.subrange(1, s@.len() as int));
        }
        s
    } else {
        let ghost s0 = s@;
        let h = s.remove(0);
        proof {
            assert(s@ =~= s0.drop_first());
        }
        let rest = insert_sorted_i64(x, s);
        let mut out = rest;
        out.insert(0, h);
        proof {
            assert(out@ =~= seq![h] + spec_insert_i64(x, s0.drop_first()));
        }
        out
    }
}

/// Sorts the values ascending; the result is pinned to [`spec_sort_i64`].
pub fn sort_i64(s: Vec<i64>) -> (out: Vec<i64>)
    ensures
        out@ == spec_sort_i64(s@),
    decreases s@.len(),
{
    let mut s = s;
    if s.len() == 0 {
        s
    } else {
        let ghost s0 = s@;
        let h = s.remove(0);
        proof {
            assert(s@ =~= s0.drop_first());
        }
        let rest = sort_i64(s);
        insert_sorted_i64(h, rest)
    }
}

/// Computes twice the median of the values (see [`spec_median_doubled`]):
/// sort ascending, then take twice the middle element (odd count) or the sum
/// of the two middle elements (even count); no values yield 0.
pub fn compute_median_doubled(v: Vec<i64>) -> (m: i64)
    requires
        forall|i: int| 0 <= i < v@.len() ==> -MONEY_CAP <= #[trigger] v@[i] <= MONEY_CAP,
    ensures
        m == spec_median_doubled(v@),
        -2 * MONEY_CAP <= m <= 2 * MONEY_CAP,
{
    if v.len() == 0 {
        return 0;
    }
    let ghost v0 = v@;
    let n = v.len();
    let sorted = sort_i64(v);
    proof {
        lemma_sort_len(v0);
        lemma_sort_bound(v0, MONEY_CAP as int);
    }
    if n % 2 == 1 {
        2 * sorted[n / 2]
    } else {
        sorted[n / 2 - 1] + sorted[n / 2]
    }
}

/// Smallest value of the sequence (0 when it is empty).
pub open spec fn seq_min(s: Seq<int>) -> int
    decreases s.len(),
{
    if s.len() == 0 {
        0
    } else if s.len() == 1 {
        s[0]
    } else {
        let m = seq_min(s.drop_last());
        if s.last() < m {
            s.last()
        } else {
            m
        }
    }
}

/// Largest value of the sequence (0 when it is empty).
pub open spec fn seq_max(s: Seq<int>) -> int
    decreases s.len(),
{
    if s.len() == 0 {
        0
    } else if s.len() == 1 {
        s[0]
    } else {
        let m = seq_max(s.drop_last());
        if s.last() > m {
            s.last()
        } else {
            m
        }
    }
}

/// The extrema bound every element, and stay within any bound on the
/// elements.
pub proof fn lemma_seq_min_max(s: Seq<int>, c: int)
    requires
        c >= 0,
        forall|i: int| 0 <= i < s.len() ==> -c <= #[trigger] s[i] <= c,
    ensures
        forall|i: int| 0 <= i < s.len() ==> seq_min(s) <= #[trigger] s[i] <= seq_max(s),
        -c <= seq_min(s) <= c,
        -c <= seq_max(s) <= c,
    decreases s.len(),
{
    if s.len() > 1 {
        assert forall|i: int| 0 <= i < s.drop_last().len() implies -c <= #[trigger] s.drop_last()[i]
            <= c by {
            assert(s.drop_last()[i] == s[i]);
        }
        lemma_seq_min_max(s.drop_last(), c);
        assert forall|i: int| 0 <= i < s.len() implies seq_min(s) <= #[trigger] s[i] <= seq_max(
            s,
        ) by {
            if i < s.len() - 1 {
                assert(s.drop_last()[i] == s[i]);
            }
        }
    }
}

/// Linear rescale of `x` from `[lo, hi]` to hundredths of the 0-100 range;
/// every input maps to 0 when the range is degenerate (`hi <= lo`).
pub open spec fn spec_normalize(x: int, lo: int, hi: int) -> int {
    if hi > lo {
        round_div(10000 * (x - lo), hi - lo)
    } else {
        0
    }
}

/// Bound on the raw efficiency scores fed to normalization.
pub const RAW_SCORE_CAP: i128 = 10_000_000_000_000_000_000;

/// Normalizes a raw score against the observed extrema (see
/// [`spec_normalize`]); in particular every score maps to 0 when the extrema
/// coincide.
pub fn normalize_score(x: i128, lo: i128, hi: i128) -> (r: i128)
    requires
        -RAW_SCORE_CAP <= x <= RAW_SCORE_CAP,
        -RAW_SCORE_CAP <= lo <= RAW_SCORE_CAP,
        -RAW_SCORE_CAP <= hi <= RAW_SCORE_CAP,
    ensures
        r == spec_normalize(x as int, lo as int, hi as int),
        lo == hi ==> r == 0,
        lo <= x <= hi ==> 0 <= r <= 10000,
{
    if hi > lo {
        let r = round_div_i128(10000 * (x - lo), hi - lo);
        proof {
            if lo <= x <= hi {
                assert(10000 * (x - lo) <= 10000 * (hi - lo)) by (nonlinear_arith)
                    requires
                        x <= hi,
                        lo <= x,
                ;
                lemma_round_div_le(10000 * (x as int - lo as int), hi as int - lo as int, 10000);
            }
        }
        r
    } else {
        0
    }
}

/// Share of `part` in `whole`, in hundredths of a percent; 0 when `whole`
/// is 0.
pub open spec fn spec_percent(part: int, whole: int) -> int {
    if whole > 0 {
        round_div(10000 * part, whole)
    } else {
        0
    }
}

/// Computes [`spec_percent`] for counts out of a bounded batch.
pub fn percent_hundredths(part: usize, whole: usize) -> (r: i64)
    requires
        part <= whole <= MAX_RECORDS,
    ensures
        r == spec_percent(part as int, whole as int),
        0 <= r <= 10000,
{
    if whole == 0 {
        return 0;
    }
    let r = round_div_i128(10000 * (part as i128), whole as i128);
    proof {
        assert(10000 * (part as int) <= 10000 * (whole as int)) by (nonlinear_arith)
            requires
                part <= whole,
        ;
        lemma_round_div_le(10000 * (part as int), whole as int, 10000);
    }
    r as i64
}

} // verus!
