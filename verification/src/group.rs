//! Grouping of validated projects by a key, and the per-group folds the
//! aggregators compute.
//!
//! Keys are listed in order of first occurrence; a group holds its projects
//! in input order. Every aggregate table is a map over these groups.
use vstd::prelude::*;
use crate::dates::DAY_MAG_CAP;
use crate::model::{valid_project, Proj};
use crate::parse::MONEY_CAP;

verus! {

/// The distinct keys of `s`, in order of first occurrence.
pub open spec fn group_keys<K>(s: Seq<Proj>, key: spec_fn(Proj) -> K) -> Seq<K>
    decreases s.len(),
{
    if s.len() == 0 {
        Seq::<K>::empty()
    } else {
        let rest = group_keys(s.drop_last(), key);
        if rest.contains(key(s.last())) {
            rest
        } else {
            rest.push(key(s.last()))
        }
    }
}

/// The projects of `s` carrying key `k`, in input order.
pub open spec fn group_items<K>(s: Seq<Proj>, key: spec_fn(Proj) -> K, k: K) -> Seq<Proj>
    decreases s.len(),
{
    if s.len() == 0 {
        Seq::<Proj>::empty()
    } else {
        let rest = group_items(s.drop_last(), key, k);
        if key(s.last()) == k {
            rest.push(s.last())
        } else {
            rest
        }
    }
}

/// Every project of a group comes from the input collection.
pub proof fn lemma_group_items_from<K>(s: Seq<Proj>, key: spec_fn(Proj) -> K, k: K)
    ensures
        group_items(s, key, k).len() <= s.len(),
        forall|i: int|
            0 <= i < group_items(s, key, k).len() ==> s.contains(
                #[trigger] group_items(s, key, k)[i],
            ) && key(group_items(s, key, k)[i]) == k,
    decreases s.len(),
{
    if s.len() > 0 {
        lemma_group_items_from(s.drop_last(), key, k);
        let rest = group_items(s.drop_last(), key, k);
        let g = group_items(s, key, k);
        assert(s.last() == s[s.len() - 1]);
        assert forall|i: int| 0 <= i < g.len() implies s.contains(#[trigger] g[i]) && key(g[i])
            == k by {
            if i < rest.len() {
                assert(g[i] == rest[i]);
                assert(s.drop_last().contains(rest[i]));
                let w = choose|w: int|
                    0 <= w < s.drop_last().len() && s.drop_last()[w] == rest[i];
                assert(s[w] == rest[i]);
            } else {
                assert(g[i] == s.last());
            }
        }
    }
}

/// Validity carries from the input to every group.
pub proof fn lemma_group_items_valid<K>(s: Seq<Proj>, key: spec_fn(Proj) -> K, k: K)
    requires
        forall|i: int| 0 <= i < s.len() ==> valid_project(#[trigger] s[i]),
    ensures
        forall|i: int|
            0 <= i < group_items(s, key, k).len() ==> valid_project(
                #[trigger] group_items(s, key, k)[i],
            ),
{
    lemma_group_items_from(s, key, k);
    let g = group_items(s, key, k);
    assert forall|i: int| 0 <= i < g.len() implies valid_project(#[trigger] g[i]) by {
        let w = choose|w: int| 0 <= w < s.len() && s[w] == g[i];
        assert(valid_project(s[w]));
    }
}

/// Sum of approved budgets, in hundredths.
pub open spec fn sum_budget(g: Seq<Proj>) -> int
    decreases g.len(),
{
    if g.len() == 0 {
        0
    } else {
        sum_budget(g.drop_last()) + g.last().approved_budget
    }
}

/// Sum of contract costs, in hundredths.
pub open spec fn sum_cost(g: Seq<Proj>) -> int
    decreases g.len(),
{
    if g.len() == 0 {
        0
    } else {
        sum_cost(g.drop_last()) + g.last().contract_cost
    }
}

/// Sum of cost savings, in hundredths.
pub open spec fn sum_savings(g: Seq<Proj>) -> int
    decreases g.len(),
{
    if g.len() == 0 {
        0
    } else {
        sum_savings(g.drop_last()) + g.last().cost_savings
    }
}

/// Sum of completion delays, in days.
pub open spec fn sum_delay(g: Seq<Proj>) -> int
    decreases g.len(),
{
    if g.len() == 0 {
        0
    } else {
        sum_delay(g.drop_last()) + g.last().completion_delay_days
    }
}

/// How many projects are delayed beyond 30 days.
pub open spec fn count_high_delay(g: Seq<Proj>) -> int
    decreases g.len(),
{
    if g.len() == 0 {
        0
    } else {
        count_high_delay(g.drop_last()) + if g.last().completion_delay_days > 30 {
            1int
        } else {
            0int
        }
    }
}

/// How many projects overran (negative savings).
pub open spec fn count_overrun(g: Seq<Proj>) -> int
    decreases g.len(),
{
    if g.len() == 0 {
        0
    } else {
        count_overrun(g.drop_last()) + if g.last().cost_savings < 0 {
            1int
        } else {
            0int
        }
    }
}

/// The savings of each project, in group order.
pub open spec fn savings_of(g: Seq<Proj>) -> Seq<i64> {
    g.map_values(|p: Proj| p.cost_savings)
}

/// Bounds of every fold over a group of valid projects.
pub proof fn lemma_sum_bounds(g: Seq<Proj>)
    requires
        forall|i: int| 0 <= i < g.len() ==> valid_project(#[trigger] g[i]),
    ensures
        0 <= sum_budget(g) <= g.len() * (MONEY_CAP as int),
        g.len() <= sum_cost(g) <= g.len() * (MONEY_CAP as int),
        -(g.len() * (MONEY_CAP as int)) <= sum_savings(g) <= g.len() * (MONEY_CAP as int),
        -(g.len() * (2 * DAY_MAG_CAP as int)) <= sum_delay(g) <= g.len() * (2 * DAY_MAG_CAP as int),
        0 <= count_high_delay(g) <= g.len(),
        0 <= count_overrun(g) <= g.len(),
    decreases g.len(),
{
    if g.len() > 0 {
        assert forall|i: int| 0 <= i < g.drop_last().len() implies valid_project(
            #[trigger] g.drop_last()[i],
        ) by {
            assert(g.drop_last()[i] == g[i]);
        }
        lemma_sum_bounds(g.drop_last());
        assert(valid_project(g[g.len() - 1]));
    }
}

} // verus!
