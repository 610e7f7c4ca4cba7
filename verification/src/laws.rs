//! Laws of the engine that span several functions, stated and proved once.
use vstd::prelude::*;
use crate::contractor::{
    contractor_key, lemma_qualified_keys, qualified_keys, spec_contractor_report,
    spec_contractor_stats, MIN_PROJECTS,
};
use crate::group::{group_items, group_keys};
use crate::model::Proj;
use crate::regional::{
    raw_scores, region_key, spec_regional_raw_rows, spec_regional_report, spec_regional_stats,
};
use crate::stats::{seq_max, seq_min, spec_normalize};
use crate::summary::spec_summary;
use crate::trend::spec_cost_report;
use crate::model::RawRec;
use crate::validate::spec_clean_projects;

verus! {

/// A region that is alone in its table scores 0: with a single row the raw
/// extrema coincide, and min-max normalization of a degenerate range maps
/// every score to 0.
pub proof fn lemma_single_region_zero_efficiency(s: Seq<Proj>)
    requires
        group_keys(s, region_key()).len() == 1,
    ensures
        spec_regional_stats(s).len() == 1,
        spec_regional_stats(s)[0].efficiency_score == 0,
{
    let rows = spec_regional_raw_rows(s);
    let scores = raw_scores(rows);
    assert(rows.len() == 1);
    assert(scores.len() == 1);
    assert(seq_min(scores) == scores[0]);
    assert(seq_max(scores) == scores[0]);
    assert(scores[0] == rows[0].efficiency_score);
    assert(spec_regional_stats(s)[0].efficiency_score == spec_normalize(
        rows[0].efficiency_score,
        scores[0],
        scores[0],
    ));
}

/// Contractors below the activity threshold never appear: every reported
/// row counts at least five projects, its count is exactly its group's
/// size, and every contractor whose group reaches five projects is
/// reported.
pub proof fn lemma_contractor_threshold(s: Seq<Proj>)
    ensures
        forall|i: int|
            0 <= i < spec_contractor_stats(s).len() ==> {
                let row = #[trigger] spec_contractor_stats(s)[i];
                row.project_count == group_items(s, contractor_key(), row.contractor).len()
                    && row.project_count >= MIN_PROJECTS
            },
        forall|k: Seq<char>|
            group_keys(s, contractor_key()).contains(k) && #[trigger] group_items(
                s,
                contractor_key(),
                k,
            ).len() >= MIN_PROJECTS ==> exists|i: int|
                0 <= i < spec_contractor_stats(s).len() && (#[trigger] spec_contractor_stats(
                    s,
                )[i]).contractor == k,
{
    let keys = group_keys(s, contractor_key());
    let q = qualified_keys(s, keys);
    assert forall|i: int| 0 <= i < spec_contractor_stats(s).len() implies {
        let row = #[trigger] spec_contractor_stats(s)[i];
        row.project_count == group_items(s, contractor_key(), row.contractor).len()
            && row.project_count >= MIN_PROJECTS
    } by {
        assert(q.contains(q[i]));
        lemma_qualified_keys(s, keys, q[i]);
        assert(spec_contractor_stats(s)[i].contractor == q[i]);
    }
    assert forall|k: Seq<char>|
        keys.contains(k) && #[trigger] group_items(s, contractor_key(), k).len()
            >= MIN_PROJECTS implies exists|i: int|
        0 <= i < spec_contractor_stats(s).len() && (#[trigger] spec_contractor_stats(
            s,
        )[i]).contractor == k by {
        lemma_qualified_keys(s, keys, k);
        let w = choose|w: int| 0 <= w < q.len() && q[w] == k;
        assert(spec_contractor_stats(s)[w].contractor == k);
    }
}

/// The whole derivation is a function of the raw rows alone: two runs over
/// equal inputs validate the same projects and produce identical regional,
/// contractor, trend and summary outputs (ranking included, thanks to the
/// explicit tie-breaks).
pub proof fn lemma_pipeline_deterministic(a: Seq<RawRec>, b: Seq<RawRec>)
    requires
        a == b,
    ensures
        spec_clean_projects(a) == spec_clean_projects(b),
        spec_regional_report(spec_clean_projects(a)) == spec_regional_report(
            spec_clean_projects(b),
        ),
        spec_contractor_report(spec_clean_projects(a)) == spec_contractor_report(
            spec_clean_projects(b),
        ),
        spec_cost_report(spec_clean_projects(a)) == spec_cost_report(spec_clean_projects(b)),
        spec_summary(spec_clean_projects(a)) == spec_summary(spec_clean_projects(b)),
{
}

} // verus!
