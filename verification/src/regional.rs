//! The regional efficiency report.
//!
//! Projects are grouped by region (first-seen order); each group gets its
//! budget total, median savings, mean delay, high-delay share and a raw
//! efficiency score (median savings per day of average delay, in hundredths);
//! raw scores are then min-max normalized across all regions, and the rows
//! are ranked by descending score with the region name as tie-break.
use vstd::prelude::*;
use crate::arith::{abs_int, lemma_round_div_abs_le, lemma_round_div_mag, round_div, round_div_i128};
use crate::dates::DAY_MAG_CAP;
use crate::group::{
    count_high_delay, group_items, group_keys, lemma_group_items_valid, lemma_sum_bounds,
    savings_of, sum_budget, sum_delay,
};
use crate::model::{valid_batch, valid_project, Proj, Project, RegionalRow, RegionalStats};
use crate::parse::MONEY_CAP;
use crate::rank::{spec_insert_by, spec_sort_by};
use crate::stats::{
    compute_median_doubled, lemma_seq_min_max, normalize_score, percent_hundredths, seq_max,
    seq_min, spec_median_doubled, spec_normalize, spec_percent, RAW_SCORE_CAP,
};
use crate::text::{contains_string, str_le, str_le_exec};

verus! {

/// The grouping key of this report: the region name.
pub open spec fn region_key() -> spec_fn(Proj) -> Seq<char> {
    |p: Proj| p.region
}

/// One group's row, with the raw (not yet normalized) efficiency score.
pub open spec fn spec_regional_group_row(g: Seq<Proj>, k: Seq<char>) -> RegionalRow {
    let n = g.len() as int;
    let med2 = spec_median_doubled(savings_of(g));
    let avg = if n > 0 {
        round_div(100 * sum_delay(g), n)
    } else {
        0
    };
    let raw = if avg > 0 {
        round_div(5000 * med2, avg)
    } else {
        0
    };
    RegionalRow {
        region: k,
        main_island: if g.len() > 0 {
            g[0].main_island
        } else {
            Seq::<char>::empty()
        },
        total_budget: sum_budget(g),
        median_savings_doubled: med2,
        avg_delay: avg,
        high_delay_pct: spec_percent(count_high_delay(g), n),
        efficiency_score: raw,
    }
}

/// All group rows, raw scores included, in first-seen region order.
pub open spec fn spec_regional_raw_rows(s: Seq<Proj>) -> Seq<RegionalRow> {
    group_keys(s, region_key()).map_values(
        |k: Seq<char>| spec_regional_group_row(group_items(s, region_key(), k), k),
    )
}

/// The raw efficiency scores of the rows.
pub open spec fn raw_scores(rows: Seq<RegionalRow>) -> Seq<int> {
    rows.map_values(|r: RegionalRow| r.efficiency_score)
}

/// A row with its raw score normalized against the given extrema.
pub open spec fn spec_normalized_row(r: RegionalRow, lo: int, hi: int) -> RegionalRow {
    RegionalRow {
        region: r.region,
        main_island: r.main_island,
        total_budget: r.total_budget,
        median_savings_doubled: r.median_savings_doubled,
        avg_delay: r.avg_delay,
        high_delay_pct: r.high_delay_pct,
        efficiency_score: spec_normalize(r.efficiency_score, lo, hi),
    }
}

/// The regional table: group rows with scores min-max normalized across the
/// whole set of regions.
pub open spec fn spec_regional_stats(s: Seq<Proj>) -> Seq<RegionalRow> {
    let rows = spec_regional_raw_rows(s);
    let lo = seq_min(raw_scores(rows));
    let hi = seq_max(raw_scores(rows));
    rows.map_values(|r: RegionalRow| spec_normalized_row(r, lo, hi))
}

/// Report order: descending efficiency score, ties by region name ascending.
pub open spec fn regional_le() -> spec_fn(RegionalRow, RegionalRow) -> bool {
    |a: RegionalRow, b: RegionalRow|
        a.efficiency_score > b.efficiency_score || (a.efficiency_score == b.efficiency_score
            && str_le(a.region, b.region))
}

/// The ranked regional table.
pub open spec fn spec_regional_report(s: Seq<Proj>) -> Seq<RegionalRow> {
    spec_sort_by(regional_le(), spec_regional_stats(s))
}

/// Collects the distinct region names, in order of first occurrence.
pub(crate) fn collect_region_keys(projects: &Vec<Project>) -> (keys: Vec<String>)
    ensures
        keys.deep_view() == group_keys(projects.deep_view(), region_key()),
{
    let ghost models = projects.deep_view();
    let mut keys: Vec<String> = Vec::new();
    let mut i: usize = 0;
    while i < projects.len()
        invariant
            i <= projects@.len(),
            models == projects.deep_view(),
            keys.deep_view() == group_keys(models.take(i as int), region_key()),
        decreases projects@.len() - i,
    {
        proof {
            assert(models.take(i + 1).drop_last() =~= models.take(i as int));
            assert(models.take(i + 1).last() == models[i as int]);
            assert(models[i as int].region == projects@[i as int]@.region);
        }
        let ghost old_keys = keys.deep_view();
        if !contains_string(&keys, &projects[i].region) {
            keys.push(projects[i].region.clone());
            proof {
                assert(keys.deep_view() =~= old_keys.push(models[i as int].region));
            }
        }
        i = i + 1;
    }
    proof {
        assert(models.take(i as int) =~= models);
    }
    keys
}

/// Computes one region's row (raw score) by a scan over the projects.
#[verifier::rlimit(60)]
#[verifier::loop_isolation(false)]
fn regional_row_for_key(projects: &Vec<Project>, key: &String) -> (row: RegionalStats)
    requires
        valid_batch(projects.deep_view()),
    ensures
        row@ == spec_regional_group_row(
            group_items(projects.deep_view(), region_key(), key@),
            key@,
        ),
        abs_int(row@.efficiency_score) <= RAW_SCORE_CAP as int,
{
    let ghost models = projects.deep_view();
    let mut budget: i128 = 0;
    let mut sav: Vec<i64> = Vec::new();
    let mut dsum: i64 = 0;
    let mut high: usize = 0;
    let mut n: usize = 0;
    let mut island = String::new();
    let mut i: usize = 0;
    while i < projects.len()
        invariant
            i <= projects@.len(),
            ({
                let g = group_items(models.take(i as int), region_key(), key@);
                &&& n == g.len()
                &&& budget == sum_budget(g)
                &&& sav@ == savings_of(g)
                &&& dsum == sum_delay(g)
                &&& high == count_high_delay(g)
                &&& (n > 0 ==> island@ == g[0].main_island)
                &&& (n == 0 ==> island@ == Seq::<char>::empty())
                &&& 0 <= budget <= n * (MONEY_CAP as int)
                &&& -(n * 2 * (DAY_MAG_CAP as int)) <= dsum <= n * 2 * (DAY_MAG_CAP as int)
                &&& high <= n
            }),
            n <= i,
        decreases projects@.len() - i,
    {
        let ghost g = group_items(models.take(i as int), region_key(), key@);
        proof {
            assert(models.take(i + 1).drop_last() =~= models.take(i as int));
            assert(models.take(i + 1).last() == models[i as int]);
            assert(valid_project(models[i as int]));
        }
        let p = &projects[i];
        assert(p@ == models[i as int]);
        if p.region == *key {
            let ghost g2 = group_items(models.take(i + 1), region_key(), key@);
            proof {
                assert(g2 == g.push(models[i as int]));
                assert(g2.drop_last() =~= g);
                assert(g2.last() == models[i as int]);
            }
            budget = budget + p.approved_budget as i128;
            sav.push(p.cost_savings);
            proof {
                assert(sav@ =~= savings_of(g2));
            }
            dsum = dsum + p.completion_delay_days;
            if p.completion_delay_days > 30 {
                high = high + 1;
            }
            if n == 0 {
                island = p.main_island.clone();
            }
            n = n + 1;
            proof {
                if g.len() > 0 {
                    assert(g2[0] == g[0]);
                }
            }
        }
        i = i + 1;
    }
    proof {
        assert(models.take(i as int) =~= models);
    }
    let ghost g = group_items(models, region_key(), key@);
    proof {
        lemma_group_items_valid(models, region_key(), key@);
        assert forall|j: int| 0 <= j < sav@.len() implies -MONEY_CAP <= #[trigger] sav@[j]
            <= MONEY_CAP by {
            assert(sav@[j] == g[j].cost_savings);
            assert(valid_project(g[j]));
        }
        lemma_sum_bounds(g);
    }
    let med2 = compute_median_doubled(sav);
    let avg: i64 = if n > 0 {
        let a = round_div_i128(100 * (dsum as i128), n as i128);
        proof {
            lemma_round_div_abs_le(
                100 * (dsum as int),
                n as int,
                200 * (DAY_MAG_CAP as int),
            );
        }
        a as i64
    } else {
        0
    };
    let high_pct = percent_hundredths(high, n);
    let raw: i128 = if avg > 0 {
        let r = round_div_i128(5000 * (med2 as i128), avg as i128);
        proof {
            lemma_round_div_mag(5000 * (med2 as int), avg as int);
        }
        r
    } else {
        0
    };
    RegionalStats {
        region: key.clone(),
        main_island: island,
        total_budget: budget,
        median_savings_doubled: med2,
        avg_delay: avg,
        high_delay_pct: high_pct,
        efficiency_score: raw,
    }
}

/// Groups the validated projects by region and computes each region's
/// statistics, normalizing the efficiency scores across the whole set
/// (so a degenerate set of extrema yields 0 everywhere); rows are in
/// first-seen region order, ranking is [`rank_regional_stats`]'s.
#[verifier::loop_isolation(false)]
pub fn aggregate_regional_stats(projects: &Vec<Project>) -> (r: Vec<RegionalStats>)
    requires
        valid_batch(projects.deep_view()),
    ensures
        r.deep_view() == spec_regional_stats(projects.deep_view()),
        forall|i: int|
            0 <= i < r@.len() ==> 0 <= #[trigger] r.deep_view()[i].efficiency_score <= 10000,
{
    let ghost models = projects.deep_view();
    let keys = collect_region_keys(projects);
    let mut rows: Vec<RegionalStats> = Vec::new();
    let mut j: usize = 0;
    while j < keys.len()
        invariant
            j <= keys@.len(),
            rows.deep_view() =~= spec_regional_raw_rows(models).take(j as int),
            rows@.len() == j,
            forall|l: int|
                0 <= l < j ==> abs_int(#[trigger] rows.deep_view()[l].efficiency_score)
                    <= RAW_SCORE_CAP as int,
        decreases keys@.len() - j,
    {
        let ghost old_rows = rows.deep_view();
        let row = regional_row_for_key(projects, &keys[j]);
        rows.push(row);
        proof {
            assert(keys.deep_view()[j as int] == keys@[j as int]@);
            assert(rows.deep_view() =~= old_rows.push(row@));
            assert(spec_regional_raw_rows(models)[j as int] == spec_regional_group_row(
                group_items(models, region_key(), keys.deep_view()[j as int]),
                keys.deep_view()[j as int],
            ));
            assert(rows.deep_view() =~= spec_regional_raw_rows(models).take(j + 1));
        }
        j = j + 1;
    }
    let ghost raw_rows = spec_regional_raw_rows(models);
    proof {
        assert(rows.deep_view() =~= raw_rows);
    }
    // Extrema of the raw scores.
    let mut lo: i128 = 0;
    let mut hi: i128 = 0;
    if rows.len() > 0 {
        lo = rows[0].efficiency_score;
        hi = rows[0].efficiency_score;
        proof {
            assert(raw_scores(raw_rows).take(1).len() == 1);
            assert(raw_scores(raw_rows).take(1)[0] == raw_rows[0].efficiency_score);
        }
        let mut m: usize = 1;
        while m < rows.len()
            invariant
                1 <= m <= rows@.len(),
                lo == seq_min(raw_scores(raw_rows).take(m as int)),
                hi == seq_max(raw_scores(raw_rows).take(m as int)),
            decreases rows@.len() - m,
        {
            proof {
                assert(raw_scores(raw_rows).take(m + 1).drop_last() =~= raw_scores(
                    raw_rows,
                ).take(m as int));
                assert(raw_scores(raw_rows).take(m + 1).last() == raw_rows[m as int].efficiency_score);
            }
            let e = rows[m].efficiency_score;
            if e < lo {
                lo = e;
            }
            if e > hi {
                hi = e;
            }
            m = m + 1;
        }
        proof {
            assert(raw_scores(raw_rows).take(m as int) =~= raw_scores(raw_rows));
        }
    } else {
        proof {
            assert(raw_scores(raw_rows).len() == 0);
        }
    }
    proof {
        assert forall|l: int| 0 <= l < raw_scores(raw_rows).len() implies -(RAW_SCORE_CAP as int)
            <= #[trigger] raw_scores(raw_rows)[l] <= RAW_SCORE_CAP as int by {
            assert(raw_scores(raw_rows)[l] == raw_rows[l].efficiency_score);
        }
        lemma_seq_min_max(raw_scores(raw_rows), RAW_SCORE_CAP as int);
    }
    // Normalize every score against the extrema.
    let mut out: Vec<RegionalStats> = Vec::new();
    let mut rows = rows;
    while rows.len() > 0
        invariant
            out@.len() + rows@.len() == raw_rows.len(),
            rows.deep_view() =~= raw_rows.skip(out@.len() as int),
            out.deep_view() =~= spec_regional_stats(models).take(out@.len() as int),
            lo == seq_min(raw_scores(raw_rows)),
            hi == seq_max(raw_scores(raw_rows)),
            forall|l: int|
                0 <= l < out@.len() ==> 0 <= #[trigger] out.deep_view()[l].efficiency_score
                    <= 10000,
        decreases rows@.len(),
    {
        let ghost done = out@.len() as int;
        let ghost old_rows = rows.deep_view();
        let ghost old_out = out.deep_view();
        let row = rows.remove(0);
        proof {
            assert(rows.deep_view() =~= old_rows.drop_first());
            assert(rows.deep_view() =~= raw_rows.skip(done + 1));
            assert(old_rows[0] == row@);
            assert(raw_rows.skip(done)[0] == raw_rows[done]);
            assert(row@ == raw_rows[done]);
            assert(raw_scores(raw_rows)[done] == raw_rows[done].efficiency_score);
        }
        let score = normalize_score(row.efficiency_score, lo, hi);
        let out_row = RegionalStats {
            region: row.region,
            main_island: row.main_island,
            total_budget: row.total_budget,
            median_savings_doubled: row.median_savings_doubled,
            avg_delay: row.avg_delay,
            high_delay_pct: row.high_delay_pct,
            efficiency_score: score,
        };
        out.push(out_row);
        proof {
            assert(out.deep_view() =~= old_out.push(out_row@));
            assert(spec_regional_stats(models)[done] == spec_normalized_row(
                raw_rows[done],
                seq_min(raw_scores(raw_rows)),
                seq_max(raw_scores(raw_rows)),
            ));
            assert(out_row@ == spec_regional_stats(models)[done]);
            assert(out.deep_view() =~= spec_regional_stats(models).take(done + 1));
        }
    }
    proof {
        assert(out.deep_view() =~= spec_regional_stats(models));
    }
    out
}

/// Whether `a` may stand before `b` in the regional report.
fn regional_le_exec(a: &RegionalStats, b: &RegionalStats) -> (r: bool)
    ensures
        r == regional_le()(a@, b@),
{
    if a.efficiency_score > b.efficiency_score {
        true
    } else if a.efficiency_score == b.efficiency_score {
        str_le_exec(a.region.as_str(), b.region.as_str())
    } else {
        false
    }
}

fn insert_regional(x: RegionalStats, s: Vec<RegionalStats>) -> (out: Vec<RegionalStats>)
    ensures
        out.deep_view() == spec_insert_by(regional_le(), x@, s.deep_view()),
    decreases s@.len(),
{
    let mut s = s;
    let ghost s0 = s.deep_view();
    if s.len() == 0 {
        s.push(x);
        proof {
            assert(s.deep_view() =~= seq![x@]);
        }
        s
    } else if regional_le_exec(&x, &s[0]) {
        s.insert(0, x);
        proof {
            assert(s.deep_view() =~= seq![x@] + s0);
        }
        s
    } else {
        let h = s.remove(0);
        proof {
            assert(s.deep_view() =~= s0.drop_first());
        }
        let rest = insert_regional(x, s);
        let mut out = rest;
        out.insert(0, h);
        proof {
            assert(out.deep_view() =~= seq![h@] + spec_insert_by(
                regional_le(),
                x@,
                s0.drop_first(),
            ));
        }
        out
    }
}

/// Ranks the regional rows: descending efficiency score, ties broken by
/// region name ascending.
pub fn rank_regional_stats(stats: Vec<RegionalStats>) -> (out: Vec<RegionalStats>)
    ensures
        out.deep_view() == spec_sort_by(regional_le(), stats.deep_view()),
    decreases stats@.len(),
{
    let mut stats = stats;
    let ghost s0 = stats.deep_view();
    if stats.len() == 0 {
        stats
    } else {
        let h = stats.remove(0);
        proof {
            assert(stats.deep_view() =~= s0.drop_first());
        }
        let rest = rank_regional_stats(stats);
        insert_regional(h, rest)
    }
}

} // verus!
