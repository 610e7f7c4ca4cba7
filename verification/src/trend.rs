//! The year-over-year cost-overrun trend report.
//!
//! Projects are grouped by (funding year, type of work); each group gets its
//! mean savings and overrun rate. Rows are then sorted by type of work and
//! year, and each row's year-over-year change is the percent change of mean
//! savings against the immediately preceding row when that row is the same
//! type's directly preceding year — with 2021 as the baseline and a guard
//! against a near-zero prior value. Display order re-ranks by year and
//! descending mean savings.
use vstd::prelude::*;
use crate::arith::{abs_int, lemma_round_div_abs_le, round_div, round_div_i128};
use crate::group::{
    count_overrun, group_items, group_keys, lemma_group_items_valid, lemma_sum_bounds,
    sum_savings,
};
use crate::model::{valid_batch, valid_project, CostOverrunStats, CostRow, Proj, Project};
use crate::parse::MONEY_CAP;
use crate::rank::{lemma_sort_by_all, spec_insert_by, spec_sort_by};
use crate::stats::{percent_hundredths, spec_percent};
use crate::text::{contains_string, str_le, str_le_exec};

verus! {

/// The grouping key of this report: funding year and type of work.
pub open spec fn cost_key() -> spec_fn(Proj) -> (u32, Seq<char>) {
    |p: Proj| (p.funding_year, p.type_of_work)
}

/// One group's row, before the year-over-year pass.
pub open spec fn spec_cost_group_row(g: Seq<Proj>, k: (u32, Seq<char>)) -> CostRow {
    let n = g.len() as int;
    let avg = if n > 0 {
        round_div(sum_savings(g), n)
    } else {
        0
    };
    CostRow {
        funding_year: k.0,
        type_of_work: k.1,
        total_projects: n,
        avg_cost_savings: avg,
        overrun_rate: spec_percent(count_overrun(g), n),
        yoy_change: 0,
    }
}

/// All group rows, in first-seen order, year-over-year not yet computed.
pub open spec fn spec_cost_rows(s: Seq<Proj>) -> Seq<CostRow> {
    group_keys(s, cost_key()).map_values(
        |k: (u32, Seq<char>)| spec_cost_group_row(group_items(s, cost_key(), k), k),
    )
}

/// Adjacency order: type of work ascending, then funding year ascending.
pub open spec fn cost_adjacency_le() -> spec_fn(CostRow, CostRow) -> bool {
    |a: CostRow, b: CostRow|
        if a.type_of_work == b.type_of_work {
            a.funding_year <= b.funding_year
        } else {
            str_le(a.type_of_work, b.type_of_work)
        }
}

/// Percent change from `prev` to `cur` (both in hundredths), in hundredths
/// of a percent; 0 when the prior value's magnitude is below one hundredth.
pub open spec fn spec_pct_change(prev: int, cur: int) -> int {
    if abs_int(prev) < 1 {
        0
    } else if prev > 0 {
        round_div(10000 * (cur - prev), prev)
    } else {
        round_div(-(10000 * (cur - prev)), -prev)
    }
}

/// The year-over-year change of the row at `i` of the adjacency-sorted rows:
/// 0 for the 2021 baseline and for rows without the same type's directly
/// preceding year, the percent change of mean savings otherwise.
pub open spec fn spec_yoy_value(rows: Seq<CostRow>, i: int) -> int {
    if rows[i].funding_year == 2021 {
        0
    } else if i > 0 && rows[i - 1].type_of_work == rows[i].type_of_work && rows[i].funding_year
        == rows[i - 1].funding_year + 1 {
        spec_pct_change(rows[i - 1].avg_cost_savings, rows[i].avg_cost_savings)
    } else {
        0
    }
}

/// The adjacency-sorted rows with their year-over-year changes filled in.
pub open spec fn spec_with_yoy(rows: Seq<CostRow>) -> Seq<CostRow> {
    Seq::new(
        rows.len(),
        |i: int|
            CostRow {
                funding_year: rows[i].funding_year,
                type_of_work: rows[i].type_of_work,
                total_projects: rows[i].total_projects,
                avg_cost_savings: rows[i].avg_cost_savings,
                overrun_rate: rows[i].overrun_rate,
                yoy_change: spec_yoy_value(rows, i),
            },
    )
}

/// The trend table: grouped rows, adjacency-sorted, year-over-year filled
/// in on that order.
pub open spec fn spec_cost_stats(s: Seq<Proj>) -> Seq<CostRow> {
    spec_with_yoy(spec_sort_by(cost_adjacency_le(), spec_cost_rows(s)))
}

/// Display order: funding year ascending, then mean savings descending,
/// ties by type of work ascending.
pub open spec fn cost_display_le() -> spec_fn(CostRow, CostRow) -> bool {
    |a: CostRow, b: CostRow|
        a.funding_year < b.funding_year || (a.funding_year == b.funding_year && (a.avg_cost_savings
            > b.avg_cost_savings || (a.avg_cost_savings == b.avg_cost_savings && str_le(
            a.type_of_work,
            b.type_of_work,
        ))))
}

/// The displayed trend report: the table re-ranked for display. The
/// year-over-year values were fixed on the adjacency order first.
pub open spec fn spec_cost_report(s: Seq<Proj>) -> Seq<CostRow> {
    spec_sort_by(cost_display_le(), spec_cost_stats(s))
}

/// The model views of the collected keys.
pub open spec fn key_views(ks: Seq<(u32, String)>) -> Seq<(u32, Seq<char>)> {
    ks.map_values(|k: (u32, String)| (k.0, k.1@))
}

/// Whether one of the collected keys equals (`y`, `t`).
fn contains_key(keys: &Vec<(u32, String)>, y: u32, t: &String) -> (r: bool)
    ensures
        r == key_views(keys@).contains((y, t@)),
{
    let mut j: usize = 0;
    while j < keys.len()
        invariant
            j <= keys@.len(),
            forall|l: int| 0 <= l < j ==> key_views(keys@)[l] != (y, t@),
        decreases keys@.len() - j,
    {
        if keys[j].0 == y && keys[j].1 == *t {
            assert(key_views(keys@)[j as int] == (y, t@));
            return true;
        }
        assert(key_views(keys@)[j as int] == (keys@[j as int].0, keys@[j as int].1@));
        j = j + 1;
    }
    false
}

/// Collects the distinct (year, type) keys, in order of first occurrence.
fn collect_cost_keys(projects: &Vec<Project>) -> (keys: Vec<(u32, String)>)
    ensures
        key_views(keys@) == group_keys(projects.deep_view(), cost_key()),
{
    let ghost models = projects.deep_view();
    let mut keys: Vec<(u32, String)> = Vec::new();
    let mut i: usize = 0;
    while i < projects.len()
        invariant
            i <= projects@.len(),
            models == projects.deep_view(),
            key_views(keys@) == group_keys(models.take(i as int), cost_key()),
        decreases projects@.len() - i,
    {
        proof {
            assert(models.take(i + 1).drop_last() =~= models.take(i as int));
            assert(models.take(i + 1).last() == models[i as int]);
            assert(models[i as int].funding_year == projects@[i as int]@.funding_year);
            assert(models[i as int].type_of_work == projects@[i as int]@.type_of_work);
        }
        let ghost old_keys = key_views(keys@);
        let p = &projects[i];
        if !contains_key(&keys, p.funding_year, &p.type_of_work) {
            keys.push((p.funding_year, p.type_of_work.clone()));
            proof {
                assert(key_views(keys@) =~= old_keys.push(
                    (models[i as int].funding_year, models[i as int].type_of_work),
                ));
            }
        }
        i = i + 1;
    }
    proof {
        assert(models.take(i as int) =~= models);
    }
    keys
}

/// Computes one (year, type) group's row by a scan over the projects.
#[verifier::rlimit(60)]
#[verifier::loop_isolation(false)]
fn cost_row_for_key(projects: &Vec<Project>, year: u32, work: &String) -> (row: CostOverrunStats)
    requires
        valid_batch(projects.deep_view()),
    ensures
        row@ == spec_cost_group_row(
            group_items(projects.deep_view(), cost_key(), (year, work@)),
            (year, work@),
        ),
        -MONEY_CAP <= row@.avg_cost_savings <= MONEY_CAP,
{
    let ghost models = projects.deep_view();
    let mut sav: i128 = 0;
    let mut over: usize = 0;
    let mut n: usize = 0;
    let mut i: usize = 0;
    while i < projects.len()
        invariant
            i <= projects@.len(),
            ({
                let g = group_items(models.take(i as int), cost_key(), (year, work@));
                &&& n == g.len()
                &&& sav == sum_savings(g)
                &&& over == count_overrun(g)
                &&& -(n * (MONEY_CAP as int)) <= sav <= n * (MONEY_CAP as int)
                &&& over <= n
            }),
            n <= i,
        decreases projects@.len() - i,
    {
        let ghost g = group_items(models.take(i as int), cost_key(), (year, work@));
        proof {
            assert(models.take(i + 1).drop_last() =~= models.take(i as int));
            assert(models.take(i + 1).last() == models[i as int]);
            assert(valid_project(models[i as int]));
        }
        let p = &projects[i];
        assert(p@ == models[i as int]);
        if p.funding_year == year && p.type_of_work == *work {
            let ghost g2 = group_items(models.take(i + 1), cost_key(), (year, work@));
            proof {
                assert(cost_key()(models[i as int]) == (year, work@));
                assert(g2 == g.push(models[i as int]));
                assert(g2.drop_last() =~= g);
                assert(g2.last() == models[i as int]);
            }
            sav = sav + p.cost_savings as i128;
            if p.cost_savings < 0 {
                over = over + 1;
            }
            n = n + 1;
        } else {
            proof {
                assert(cost_key()(models[i as int]) != (year, work@));
            }
        }
        i = i + 1;
    }
    proof {
        assert(models.take(i as int) =~= models);
    }
    let ghost g = group_items(models, cost_key(), (year, work@));
    proof {
        lemma_group_items_valid(models, cost_key(), (year, work@));
        lemma_sum_bounds(g);
    }
    let avg: i64 = if n > 0 {
        let a = round_div_i128(sav, n as i128);
        proof {
            lemma_round_div_abs_le(sav as int, n as int, MONEY_CAP as int);
        }
        a as i64
    } else {
        0
    };
    let over_pct = percent_hundredths(over, n);
    CostOverrunStats {
        funding_year: year,
        type_of_work: work.clone(),
        total_projects: n,
        avg_cost_savings: avg,
        overrun_rate: over_pct,
        yoy_change: 0,
    }
}

/// Whether `a` may stand before `b` in the adjacency order.
fn cost_adjacency_le_exec(a: &CostOverrunStats, b: &CostOverrunStats) -> (r: bool)
    ensures
        r == cost_adjacency_le()(a@, b@),
{
    if a.type_of_work == b.type_of_work {
        a.funding_year <= b.funding_year
    } else {
        str_le_exec(a.type_of_work.as_str(), b.type_of_work.as_str())
    }
}

fn insert_cost_adjacency(x: CostOverrunStats, s: Vec<CostOverrunStats>) -> (out: Vec<
    CostOverrunStats,
>)
    ensures
        out.deep_view() == spec_insert_by(cost_adjacency_le(), x@, s.deep_view()),
    decreases s@.len(),
{
    let mut s = s;
    let ghost s0 = s.deep_view();
    if s.len() == 0 {
        s.push(x);
        proof {
            assert(s.deep_view() =~= seq![x@]);
        }
        s
    } else if cost_adjacency_le_exec(&x, &s[0]) {
        s.insert(0, x);
        proof {
            assert(s.deep_view() =~= seq![x@] + s0);
        }
        s
    } else {
        let h = s.remove(0);
        proof {
            assert(s.deep_view() =~= s0.drop_first());
        }
        let rest = insert_cost_adjacency(x, s);
        let mut out = rest;
        out.insert(0, h);
        proof {
            assert(out.deep_view() =~= seq![h@] + spec_insert_by(
                cost_adjacency_le(),
                x@,
                s0.drop_first(),
            ));
        }
        out
    }
}

fn sort_cost_adjacency(stats: Vec<CostOverrunStats>) -> (out: Vec<CostOverrunStats>)
    ensures
        out.deep_view() == spec_sort_by(cost_adjacency_le(), stats.deep_view()),
    decreases stats@.len(),
{
    let mut stats = stats;
    let ghost s0 = stats.deep_view();
    if stats.len() == 0 {
        stats
    } else {
        let h = stats.remove(0);
        proof {
            assert(stats.deep_view() =~= s0.drop_first());
        }
        let rest = sort_cost_adjacency(stats);
        insert_cost_adjacency(h, rest)
    }
}

/// Computes [`spec_pct_change`] on bounded means.
fn pct_change(prev: i64, cur: i64) -> (r: i128)
    requires
        -MONEY_CAP <= prev <= MONEY_CAP,
        -MONEY_CAP <= cur <= MONEY_CAP,
    ensures
        r == spec_pct_change(prev as int, cur as int),
{
    if prev == 0 {
        0
    } else if prev > 0 {
        round_div_i128(10000 * (cur as i128 - prev as i128), prev as i128)
    } else {
        round_div_i128(-(10000 * (cur as i128 - prev as i128)), -(prev as i128))
    }
}

/// Groups the validated projects by (funding year, type of work), sorts the
/// rows by type of work then year, and fills in each row's year-over-year
/// change on that order: 0 for 2021 and for rows without the same type's
/// directly preceding year, the percent change of mean savings (guarded
/// against a near-zero prior) otherwise. Display ranking is
/// [`rank_cost_stats`]'s.
#[verifier::loop_isolation(false)]
pub fn aggregate_cost_stats(projects: &Vec<Project>) -> (r: Vec<CostOverrunStats>)
    requires
        valid_batch(projects.deep_view()),
    ensures
        r.deep_view() == spec_cost_stats(projects.deep_view()),
{
    let ghost models = projects.deep_view();
    let keys = collect_cost_keys(projects);
    let ghost all_keys = key_views(keys@);
    let mut rows: Vec<CostOverrunStats> = Vec::new();
    let mut j: usize = 0;
    while j < keys.len()
        invariant
            j <= keys@.len(),
            all_keys == key_views(keys@),
            rows.deep_view() =~= spec_cost_rows(models).take(j as int),
            rows@.len() == j,
            forall|l: int|
                0 <= l < rows@.len() ==> -MONEY_CAP <= #[trigger] rows.deep_view()[l].avg_cost_savings
                    <= MONEY_CAP,
        decreases keys@.len() - j,
    {
        let ghost old_rows = rows.deep_view();
        let row = cost_row_for_key(projects, keys[j].0, &keys[j].1);
        rows.push(row);
        proof {
            assert(all_keys[j as int] == (keys@[j as int].0, keys@[j as int].1@));
            assert(rows.deep_view() =~= old_rows.push(row@));
            assert(spec_cost_rows(models)[j as int] == spec_cost_group_row(
                group_items(models, cost_key(), all_keys[j as int]),
                all_keys[j as int],
            ));
            assert(rows.deep_view() =~= spec_cost_rows(models).take(j + 1));
        }
        j = j + 1;
    }
    proof {
        assert(rows.deep_view() =~= spec_cost_rows(models));
    }
    proof {
        let pred = |r: CostRow| -MONEY_CAP <= r.avg_cost_savings <= MONEY_CAP;
        let srt = spec_sort_by(cost_adjacency_le(), rows.deep_view());
        assert forall|l: int| 0 <= l < rows.deep_view().len() implies #[trigger] pred(
            rows.deep_view()[l],
        ) by {
            assert(-MONEY_CAP <= rows.deep_view()[l].avg_cost_savings <= MONEY_CAP);
        }
        lemma_sort_by_all(cost_adjacency_le(), rows.deep_view(), pred);
        assert forall|l: int| 0 <= l < srt.len() implies -MONEY_CAP
            <= #[trigger] srt[l].avg_cost_savings <= MONEY_CAP by {
            assert(pred(srt[l]));
        }
    }
    let sorted = sort_cost_adjacency(rows);
    let ghost base = sorted.deep_view();
    // Fill in the year-over-year change on the adjacency order: each row
    // looks only at the row directly before it.
    let mut out: Vec<CostOverrunStats> = Vec::new();
    let mut m: usize = 0;
    while m < sorted.len()
        invariant
            m <= sorted@.len(),
            base == sorted.deep_view(),
            out.deep_view() =~= spec_with_yoy(base).take(m as int),
            out@.len() == m,
            forall|l: int|
                0 <= l < base.len() ==> -MONEY_CAP <= #[trigger] base[l].avg_cost_savings
                    <= MONEY_CAP,
        decreases sorted@.len() - m,
    {
        let ghost old_out = out.deep_view();
        let cur = &sorted[m];
        proof {
            assert(cur@ == base[m as int]);
            assert(-MONEY_CAP <= base[m as int].avg_cost_savings <= MONEY_CAP);
            if m > 0 {
                assert(sorted@[m - 1]@ == base[m - 1]);
                assert(-MONEY_CAP <= base[m - 1].avg_cost_savings <= MONEY_CAP);
            }
        }
        let yoy: i128 = if cur.funding_year == 2021 {
            0
        } else if m > 0 && sorted[m - 1].type_of_work == cur.type_of_work && cur.funding_year
            as u64 == sorted[m - 1].funding_year as u64 + 1 {
            pct_change(sorted[m - 1].avg_cost_savings, cur.avg_cost_savings)
        } else {
            0
        };
        proof {
            assert(cur@ == base[m as int]);
            if m > 0 {
                assert(sorted@[m - 1]@ == base[m - 1]);
            }
            assert(yoy == spec_yoy_value(base, m as int));
        }
        let out_row = CostOverrunStats {
            funding_year: cur.funding_year,
            type_of_work: cur.type_of_work.clone(),
            total_projects: cur.total_projects,
            avg_cost_savings: cur.avg_cost_savings,
            overrun_rate: cur.overrun_rate,
            yoy_change: yoy,
        };
        out.push(out_row);
        proof {
            assert(out.deep_view() =~= old_out.push(out_row@));
            assert(out_row@ == spec_with_yoy(base)[m as int]);
            assert(out.deep_view() =~= spec_with_yoy(base).take(m + 1));
        }
        m = m + 1;
    }
    proof {
        assert(out.deep_view() =~= spec_with_yoy(base));
    }
    out
}

/// Whether `a` may stand before `b` in the displayed report.
fn cost_display_le_exec(a: &CostOverrunStats, b: &CostOverrunStats) -> (r: bool)
    ensures
        r == cost_display_le()(a@, b@),
{
    if a.funding_year < b.funding_year {
        true
    } else if a.funding_year == b.funding_year {
        if a.avg_cost_savings > b.avg_cost_savings {
            true
        } else if a.avg_cost_savings == b.avg_cost_savings {
            str_le_exec(a.type_of_work.as_str(), b.type_of_work.as_str())
        } else {
            false
        }
    } else {
        false
    }
}

fn insert_cost_display(x: CostOverrunStats, s: Vec<CostOverrunStats>) -> (out: Vec<
    CostOverrunStats,
>)
    ensures
        out.deep_view() == spec_insert_by(cost_display_le(), x@, s.deep_view()),
    decreases s@.len(),
{
    let mut s = s;
    let ghost s0 = s.deep_view();
    if s.len() == 0 {
        s.push(x);
        proof {
            assert(s.deep_view() =~= seq![x@]);
        }
        s
    } else if cost_display_le_exec(&x, &s[0]) {
        s.insert(0, x);
        proof {
            assert(s.deep_view() =~= seq![x@] + s0);
        }
        s
    } else {
        let h = s.remove(0);
        proof {
            assert(s.deep_view() =~= s0.drop_first());
        }
        let rest = insert_cost_display(x, s);
        let mut out = rest;
        out.insert(0, h);
        proof {
            assert(out.deep_view() =~= seq![h@] + spec_insert_by(
                cost_display_le(),
                x@,
                s0.drop_first(),
            ));
        }
        out
    }
}

/// Re-ranks the trend rows for display: funding year ascending, then mean
/// savings descending, ties by type of work ascending.
pub fn rank_cost_stats(stats: Vec<CostOverrunStats>) -> (out: Vec<CostOverrunStats>)
    ensures
        out.deep_view() == spec_sort_by(cost_display_le(), stats.deep_view()),
    decreases stats@.len(),
{
    let mut stats = stats;
    let ghost s0 = stats.deep_view();
    if stats.len() == 0 {
        stats
    } else {
        let h = stats.remove(0);
        proof {
            assert(stats.deep_view() =~= s0.drop_first());
        }
        let rest = rank_cost_stats(stats);
        insert_cost_display(h, rest)
    }
}

} // verus!
