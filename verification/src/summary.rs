//! The corpus-wide summary digest.
//!
//! A pure reduction over the validated set: project count, distinct
//! contractor/province/region counts, mean delay, total savings, and a total
//! taken over contract cost (named `total_budget` all the same),
//! with a fixed date-range label for the engine's 2021-2023 window.
use vstd::prelude::*;
use crate::arith::{lemma_round_div_abs_le, round_div, round_div_i128};
use crate::contractor::{collect_contractor_keys, contractor_key};
use crate::dates::DAY_MAG_CAP;
use crate::group::{group_keys, sum_cost, sum_delay, sum_savings};
use crate::model::{valid_batch, valid_project, Proj, Project, Summary, SummaryV};
use crate::parse::MONEY_CAP;
use crate::regional::{collect_region_keys, region_key};
use crate::text::contains_string;

verus! {

/// The grouping key of the province count.
pub open spec fn province_key() -> spec_fn(Proj) -> Seq<char> {
    |p: Proj| p.province
}

/// The digest of the validated set.
pub open spec fn spec_summary(s: Seq<Proj>) -> SummaryV {
    SummaryV {
        total_projects: s.len() as int,
        total_contractors: group_keys(s, contractor_key()).len() as int,
        total_provinces: group_keys(s, province_key()).len() as int,
        total_regions: group_keys(s, region_key()).len() as int,
        global_average_delay_days: if s.len() > 0 {
            round_div(100 * sum_delay(s), s.len() as int)
        } else {
            0
        },
        total_savings: sum_savings(s),
        total_budget: sum_cost(s),
        date_range: "2021-2023"@,
    }
}

/// Collects the distinct province names, in order of first occurrence.
fn collect_province_keys(projects: &Vec<Project>) -> (keys: Vec<String>)
    ensures
        keys.deep_view() == group_keys(projects.deep_view(), province_key()),
{
    let ghost models = projects.deep_view();
    let mut keys: Vec<String> = Vec::new();
    let mut i: usize = 0;
    while i < projects.len()
        invariant
            i <= projects@.len(),
            models == projects.deep_view(),
            keys.deep_view() == group_keys(models.take(i as int), province_key()),
        decreases projects@.len() - i,
    {
        proof {
            assert(models.take(i + 1).drop_last() =~= models.take(i as int));
            assert(models.take(i + 1).last() == models[i as int]);
            assert(models[i as int].province == projects@[i as int]@.province);
        }
        let ghost old_keys = keys.deep_view();
        if !contains_string(&keys, &projects[i].province) {
            keys.push(projects[i].province.clone());
            proof {
                assert(keys.deep_view() =~= old_keys.push(models[i as int].province));
            }
        }
        i = i + 1;
    }
    proof {
        assert(models.take(i as int) =~= models);
    }
    keys
}

/// Builds the summary digest over the validated set: counts, distinct
/// cardinalities, mean delay in hundredths of a day, total savings, and the
/// contract-cost total.
#[verifier::loop_isolation(false)]
pub fn build_summary(projects: &Vec<Project>) -> (r: Summary)
    requires
        valid_batch(projects.deep_view()),
    ensures
        r@ == spec_summary(projects.deep_view()),
{
    let ghost models = projects.deep_view();
    let contractors = collect_contractor_keys(projects);
    let provinces = collect_province_keys(projects);
    let regions = collect_region_keys(projects);
    let mut dsum: i64 = 0;
    let mut sav: i128 = 0;
    let mut cost: i128 = 0;
    let mut i: usize = 0;
    while i < projects.len()
        invariant
            i <= projects@.len(),
            dsum == sum_delay(models.take(i as int)),
            sav == sum_savings(models.take(i as int)),
            cost == sum_cost(models.take(i as int)),
            -(i * 2 * (DAY_MAG_CAP as int)) <= dsum <= i * 2 * (DAY_MAG_CAP as int),
            -(i * (MONEY_CAP as int)) <= sav <= i * (MONEY_CAP as int),
            0 <= cost <= i * (MONEY_CAP as int),
        decreases projects@.len() - i,
    {
        proof {
            assert(models.take(i + 1).drop_last() =~= models.take(i as int));
            assert(models.take(i + 1).last() == models[i as int]);
            assert(valid_project(models[i as int]));
        }
        let p = &projects[i];
        assert(p@ == models[i as int]);
        dsum = dsum + p.completion_delay_days;
        sav = sav + p.cost_savings as i128;
        cost = cost + p.contract_cost as i128;
        i = i + 1;
    }
    proof {
        assert(models.take(i as int) =~= models);
    }
    let avg: i64 = if projects.len() > 0 {
        let a = round_div_i128(100 * dsum as i128, projects.len() as i128);
        proof {
            lemma_round_div_abs_le(
                100 * (dsum as int),
                projects@.len() as int,
                200 * (DAY_MAG_CAP as int),
            );
        }
        a as i64
    } else {
        0
    };
    Summary {
        total_projects: projects.len(),
        total_contractors: contractors.len(),
        total_provinces: provinces.len(),
        total_regions: regions.len(),
        global_average_delay_days: avg,
        total_savings: sav,
        total_budget: cost,
        date_range: "2021-2023".to_owned(),
    }
}

} // verus!
