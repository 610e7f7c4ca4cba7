//! The contractor reliability report.
//!
//! Projects are grouped by contractor; groups with fewer than five projects
//! are dropped entirely. A retained group gets its mean delay, totals, a
//! reliability index combining delay performance and the savings ratio, and
//! a risk flag; rows are ranked by descending total contract cost (ties by
//! name) and cut to the top fifteen.
use vstd::prelude::*;
use crate::arith::{abs_int, lemma_round_div_abs_le, lemma_round_div_mag, round_div, round_div_i128};
use crate::dates::DAY_MAG_CAP;
use crate::group::{
    group_items, group_keys, lemma_group_items_valid, lemma_sum_bounds, sum_cost, sum_delay,
    sum_savings,
};
use crate::model::{
    valid_batch, valid_project, ContractorRow, ContractorStats, Proj, Project, RiskFlag,
    MAX_RECORDS,
};
use crate::parse::MONEY_CAP;
use crate::rank::{spec_insert_by, spec_sort_by, spec_truncate};
use crate::text::{contains_string, str_le, str_le_exec};

verus! {

/// Fewest projects a contractor needs to be reported.
pub const MIN_PROJECTS: usize = 5;

/// Most contractors the ranked report shows.
pub const TOP_CONTRACTORS: usize = 15;

/// The grouping key of this report: the contractor name.
pub open spec fn contractor_key() -> spec_fn(Proj) -> Seq<char> {
    |p: Proj| p.contractor
}

/// One retained group's row.
pub open spec fn spec_contractor_group_row(g: Seq<Proj>, k: Seq<char>) -> ContractorRow {
    let n = g.len() as int;
    let avg = if n > 0 {
        round_div(100 * sum_delay(g), n)
    } else {
        0
    };
    let ratio = if sum_cost(g) > 0 {
        round_div(100 * sum_savings(g), sum_cost(g))
    } else {
        0
    };
    let rel = round_div((9000 - avg) * ratio, 90);
    ContractorRow {
        contractor: k,
        project_count: n,
        total_contract_cost: sum_cost(g),
        avg_completion_delay_days: avg,
        total_cost_savings: sum_savings(g),
        reliability_index: rel,
        risk_flag: if rel < 5000 {
            RiskFlag::High
        } else {
            RiskFlag::Low
        },
    }
}

/// The keys whose groups meet the activity threshold, in first-seen order.
pub open spec fn qualified_keys(s: Seq<Proj>, keys: Seq<Seq<char>>) -> Seq<Seq<char>>
    decreases keys.len(),
{
    if keys.len() == 0 {
        Seq::<Seq<char>>::empty()
    } else {
        let rest = qualified_keys(s, keys.drop_last());
        if group_items(s, contractor_key(), keys.last()).len() >= MIN_PROJECTS {
            rest.push(keys.last())
        } else {
            rest
        }
    }
}

/// The contractor table: one row per contractor with at least five
/// projects, in first-seen order.
pub open spec fn spec_contractor_stats(s: Seq<Proj>) -> Seq<ContractorRow> {
    qualified_keys(s, group_keys(s, contractor_key())).map_values(
        |k: Seq<char>| spec_contractor_group_row(group_items(s, contractor_key(), k), k),
    )
}

/// Report order: descending total contract cost, ties by name ascending.
pub open spec fn contractor_le() -> spec_fn(ContractorRow, ContractorRow) -> bool {
    |a: ContractorRow, b: ContractorRow|
        a.total_contract_cost > b.total_contract_cost || (a.total_contract_cost
            == b.total_contract_cost && str_le(a.contractor, b.contractor))
}

/// The ranked contractor report: sorted, then cut to the top fifteen.
pub open spec fn spec_contractor_report(s: Seq<Proj>) -> Seq<ContractorRow> {
    spec_truncate(
        spec_sort_by(contractor_le(), spec_contractor_stats(s)),
        TOP_CONTRACTORS as int,
    )
}

/// A key is qualified exactly when it is grouped and meets the threshold.
pub proof fn lemma_qualified_keys(s: Seq<Proj>, keys: Seq<Seq<char>>, k: Seq<char>)
    ensures
        qualified_keys(s, keys).contains(k) <==> keys.contains(k) && group_items(
            s,
            contractor_key(),
            k,
        ).len() >= MIN_PROJECTS,
    decreases keys.len(),
{
    if keys.len() > 0 {
        lemma_qualified_keys(s, keys.drop_last(), k);
        let rest = qualified_keys(s, keys.drop_last());
        if group_items(s, contractor_key(), keys.last()).len() >= MIN_PROJECTS {
            if rest.push(keys.last()).contains(k) {
                if k == keys.last() {
                    assert(keys.contains(k)) by {
                        assert(keys[keys.len() - 1] == k);
                    }
                } else {
                    let i = choose|i: int|
                        0 <= i < rest.push(keys.last()).len() && rest.push(keys.last())[i] == k;
                    assert(rest[i] == k);
                }
            }
            if keys.contains(k) && group_items(s, contractor_key(), k).len() >= MIN_PROJECTS {
                if k == keys.last() {
                    assert(rest.push(keys.last())[rest.len() as int] == k);
                } else {
                    let i = choose|i: int| 0 <= i < keys.len() && keys[i] == k;
                    assert(keys.drop_last()[i] == k);
                    let w = choose|w: int| 0 <= w < rest.len() && rest[w] == k;
                    assert(rest.push(keys.last())[w] == k);
                }
            }
        } else {
            if keys.contains(k) && group_items(s, contractor_key(), k).len() >= MIN_PROJECTS {
                let i = choose|i: int| 0 <= i < keys.len() && keys[i] == k;
                assert(i < keys.len() - 1);
                assert(keys.drop_last()[i] == k);
            }
            if rest.contains(k) {
                let w = choose|w: int| 0 <= w < keys.drop_last().len() && keys.drop_last()[w] == k;
                assert(keys[w] == k);
            }
        }
    }
}

/// Collects the distinct contractor names, in order of first occurrence.
pub(crate) fn collect_contractor_keys(projects: &Vec<Project>) -> (keys: Vec<String>)
    ensures
        keys.deep_view() == group_keys(projects.deep_view(), contractor_key()),
{
    let ghost models = projects.deep_view();
    let mut keys: Vec<String> = Vec::new();
    let mut i: usize = 0;
    while i < projects.len()
        invariant
            i <= projects@.len(),
            models == projects.deep_view(),
            keys.deep_view() == group_keys(models.take(i as int), contractor_key()),
        decreases projects@.len() - i,
    {
        proof {
            assert(models.take(i + 1).drop_last() =~= models.take(i as int));
            assert(models.take(i + 1).last() == models[i as int]);
            assert(models[i as int].contractor == projects@[i as int]@.contractor);
        }
        let ghost old_keys = keys.deep_view();
        if !contains_string(&keys, &projects[i].contractor) {
            keys.push(projects[i].contractor.clone());
            proof {
                assert(keys.deep_view() =~= old_keys.push(models[i as int].contractor));
            }
        }
        i = i + 1;
    }
    proof {
        assert(models.take(i as int) =~= models);
    }
    keys
}

/// Computes one contractor's row by a scan over the projects.
#[verifier::rlimit(60)]
#[verifier::loop_isolation(false)]
fn contractor_row_for_key(projects: &Vec<Project>, key: &String) -> (row: ContractorStats)
    requires
        valid_batch(projects.deep_view()),
    ensures
        row@ == spec_contractor_group_row(
            group_items(projects.deep_view(), contractor_key(), key@),
            key@,
        ),
{
    let ghost models = projects.deep_view();
    let mut cost: i128 = 0;
    let mut sav: i128 = 0;
    let mut dsum: i64 = 0;
    let mut n: usize = 0;
    let mut i: usize = 0;
    while i < projects.len()
        invariant
            i <= projects@.len(),
            ({
                let g = group_items(models.take(i as int), contractor_key(), key@);
                &&& n == g.len()
                &&& cost == sum_cost(g)
                &&& sav == sum_savings(g)
                &&& dsum == sum_delay(g)
                &&& 0 <= cost <= n * (MONEY_CAP as int)
                &&& -(n * (MONEY_CAP as int)) <= sav <= n * (MONEY_CAP as int)
                &&& -(n * 2 * (DAY_MAG_CAP as int)) <= dsum <= n * 2 * (DAY_MAG_CAP as int)
            }),
            n <= i,
        decreases projects@.len() - i,
    {
        let ghost g = group_items(models.take(i as int), contractor_key(), key@);
        proof {
            assert(models.take(i + 1).drop_last() =~= models.take(i as int));
            assert(models.take(i + 1).last() == models[i as int]);
            assert(valid_project(models[i as int]));
        }
        let p = &projects[i];
        assert(p@ == models[i as int]);
        if p.contractor == *key {
            let ghost g2 = group_items(models.take(i + 1), contractor_key(), key@);
            proof {
                assert(g2 == g.push(models[i as int]));
                assert(g2.drop_last() =~= g);
                assert(g2.last() == models[i as int]);
            }
            cost = cost + p.contract_cost as i128;
            sav = sav + p.cost_savings as i128;
            dsum = dsum + p.completion_delay_days;
            n = n + 1;
        }
        i = i + 1;
    }
    proof {
        assert(models.take(i as int) =~= models);
    }
    let ghost g = group_items(models, contractor_key(), key@);
    proof {
        lemma_group_items_valid(models, contractor_key(), key@);
        lemma_sum_bounds(g);
    }
    let avg: i64 = if n > 0 {
        let a = round_div_i128(100 * dsum as i128, n as i128);
        proof {
            lemma_round_div_abs_le(100 * (dsum as int), n as int, 200 * (DAY_MAG_CAP as int));
        }
        a as i64
    } else {
        0
    };
    let ratio: i128 = if cost > 0 {
        let r = round_div_i128(100 * sav, cost);
        proof {
            lemma_round_div_mag(100 * (sav as int), cost as int);
        }
        r
    } else {
        0
    };
    proof {
        assert(abs_int(ratio as int) <= 100 * (MAX_RECORDS as int) * (MONEY_CAP as int));
        assert(abs_int((9000 - avg as int) * (ratio as int)) <= 30_000_000_000
            * 100_000_000_000_000_000_000_000_000) by (nonlinear_arith)
            requires
                abs_int(ratio as int) <= 100_000_000_000_000_000_000_000_000,
                abs_int(9000 - avg as int) <= 30_000_000_000,
        ;
    }
    let rel = round_div_i128((9000 - avg as i128) * ratio, 90);
    ContractorStats {
        contractor: key.clone(),
        project_count: n,
        total_contract_cost: cost,
        avg_completion_delay_days: avg,
        total_cost_savings: sav,
        reliability_index: rel,
        risk_flag: if rel < 5000 {
            RiskFlag::High
        } else {
            RiskFlag::Low
        },
    }
}

/// Groups the validated projects by contractor and reports every group with
/// at least [`MIN_PROJECTS`] projects (smaller groups are dropped, not
/// merged), in first-seen order; ranking is [`rank_contractor_stats`]'s.
#[verifier::loop_isolation(false)]
pub fn aggregate_contractor_stats(projects: &Vec<Project>) -> (r: Vec<ContractorStats>)
    requires
        valid_batch(projects.deep_view()),
    ensures
        r.deep_view() == spec_contractor_stats(projects.deep_view()),
        forall|i: int| 0 <= i < r@.len() ==> #[trigger] r.deep_view()[i].project_count >= 5,
{
    let ghost models = projects.deep_view();
    let keys = collect_contractor_keys(projects);
    let ghost all_keys = keys.deep_view();
    let mut rows: Vec<ContractorStats> = Vec::new();
    let mut j: usize = 0;
    while j < keys.len()
        invariant
            j <= keys@.len(),
            all_keys == keys.deep_view(),
            rows.deep_view() =~= qualified_keys(models, all_keys.take(j as int)).map_values(
                |k: Seq<char>| spec_contractor_group_row(
                    group_items(models, contractor_key(), k),
                    k,
                ),
            ),
        decreases keys@.len() - j,
    {
        proof {
            assert(all_keys.take(j + 1).drop_last() =~= all_keys.take(j as int));
            assert(all_keys.take(j + 1).last() == all_keys[j as int]);
            assert(all_keys[j as int] == keys@[j as int]@);
        }
        let ghost old_rows = rows.deep_view();
        let row = contractor_row_for_key(projects, &keys[j]);
        if row.project_count >= MIN_PROJECTS {
            rows.push(row);
            proof {
                assert(rows.deep_view() =~= old_rows.push(row@));
            }
        }
        j = j + 1;
    }
    proof {
        assert(all_keys.take(j as int) =~= all_keys);
        assert(rows.deep_view() =~= spec_contractor_stats(models));
        assert forall|i: int| 0 <= i < rows@.len() implies #[trigger] rows.deep_view()[i].project_count
            >= 5 by {
            let q = qualified_keys(models, all_keys);
            assert(rows.deep_view()[i] == spec_contractor_group_row(
                group_items(models, contractor_key(), q[i]),
                q[i],
            ));
            assert(q.contains(q[i]));
            lemma_qualified_keys(models, all_keys, q[i]);
        }
    }
    rows
}

/// Whether `a` may stand before `b` in the contractor report.
fn contractor_le_exec(a: &ContractorStats, b: &ContractorStats) -> (r: bool)
    ensures
        r == contractor_le()(a@, b@),
{
    if a.total_contract_cost > b.total_contract_cost {
        true
    } else if a.total_contract_cost == b.total_contract_cost {
        str_le_exec(a.contractor.as_str(), b.contractor.as_str())
    } else {
        false
    }
}

fn insert_contractor(x: ContractorStats, s: Vec<ContractorStats>) -> (out: Vec<ContractorStats>)
    ensures
        out.deep_view() == spec_insert_by(contractor_le(), x@, s.deep_view()),
    decreases s@.len(),
{
    let mut s = s;
    let ghost s0 = s.deep_view();
    if s.len() == 0 {
        s.push(x);
        proof {
            assert(s.deep_view() =~= seq![x@]);
        }
        s
    } else if contractor_le_exec(&x, &s[0]) {
        s.insert(0, x);
        proof {
            assert(s.deep_view() =~= seq![x@] + s0);
        }
        s
    } else {
        let h = s.remove(0);
        proof {
            assert(s.deep_view() =~= s0.drop_first());
        }
        let rest = insert_contractor(x, s);
        let mut out = rest;
        out.insert(0, h);
        proof {
            assert(out.deep_view() =~= seq![h@] + spec_insert_by(
                contractor_le(),
                x@,
                s0.drop_first(),
            ));
        }
        out
    }
}

fn sort_contractor(stats: Vec<ContractorStats>) -> (out: Vec<ContractorStats>)
    ensures
        out.deep_view() == spec_sort_by(contractor_le(), stats.deep_view()),
    decreases stats@.len(),
{
    let mut stats = stats;
    let ghost s0 = stats.deep_view();
    if stats.len() == 0 {
        stats
    } else {
        let h = stats.remove(0);
        proof {
            assert(stats.deep_view() =~= s0.drop_first());
        }
        let rest = sort_contractor(stats);
        insert_contractor(h, rest)
    }
}

/// Ranks the contractor rows by descending total contract cost (ties by
/// name ascending) and truncates to the top [`TOP_CONTRACTORS`].
pub fn rank_contractor_stats(stats: Vec<ContractorStats>) -> (out: Vec<ContractorStats>)
    ensures
        out.deep_view() == spec_contractor_report_of(stats.deep_view()),
{
    let mut sorted = sort_contractor(stats);
    let ghost full = sorted.deep_view();
    sorted.truncate(TOP_CONTRACTORS);
    proof {
        assert(sorted.deep_view() =~= spec_truncate(full, TOP_CONTRACTORS as int));
    }
    sorted
}

/// The ranked report as a function of the unranked rows.
pub open spec fn spec_contractor_report_of(rows: Seq<ContractorRow>) -> Seq<ContractorRow> {
    spec_truncate(spec_sort_by(contractor_le(), rows), TOP_CONTRACTORS as int)
}

} // verus!
