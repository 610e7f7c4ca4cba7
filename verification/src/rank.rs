//! Deterministic ranking: insertion sort against a given "comes first or
//! equal" relation. Each report fixes its relation with an explicit
//! tie-break, so ranked output is a function of the rows alone.
use vstd::prelude::*;

verus! {

/// `x` inserted in front of the first element `x` may precede.
pub open spec fn spec_insert_by<T>(le: spec_fn(T, T) -> bool, x: T, s: Seq<T>) -> Seq<T>
    decreases s.len(),
{
    if s.len() == 0 {
        seq![x]
    } else if le(x, s[0]) {
        seq![x] + s
    } else {
        seq![s[0]] + spec_insert_by(le, x, s.drop_first())
    }
}

/// Insertion sort of `s` by `le`.
pub open spec fn spec_sort_by<T>(le: spec_fn(T, T) -> bool, s: Seq<T>) -> Seq<T>
    decreases s.len(),
{
    if s.len() == 0 {
        Seq::<T>::empty()
    } else {
        spec_insert_by(le, s[0], spec_sort_by(le, s.drop_first()))
    }
}

/// Insertion keeps any property that holds of every element.
pub proof fn lemma_insert_by_all<T>(
    le: spec_fn(T, T) -> bool,
    x: T,
    s: Seq<T>,
    pred: spec_fn(T) -> bool,
)
    requires
        pred(x),
        forall|i: int| 0 <= i < s.len() ==> #[trigger] pred(s[i]),
    ensures
        forall|i: int|
            0 <= i < spec_insert_by(le, x, s).len() ==> #[trigger] pred(spec_insert_by(le, x, s)[i]),
    decreases s.len(),
{
    if s.len() > 0 && !le(x, s[0]) {
        assert forall|i: int| 0 <= i < s.drop_first().len() implies #[trigger] pred(
            s.drop_first()[i],
        ) by {
            assert(s.drop_first()[i] == s[i + 1]);
        }
        lemma_insert_by_all(le, x, s.drop_first(), pred);
    }
    assert forall|i: int| 0 <= i < spec_insert_by(le, x, s).len() implies #[trigger] pred(
        spec_insert_by(le, x, s)[i],
    ) by {
        if s.len() == 0 {
            assert(spec_insert_by(le, x, s)[i] == x);
        } else if le(x, s[0]) {
            if i == 0 {
                assert(spec_insert_by(le, x, s)[i] == x);
            } else {
                assert(spec_insert_by(le, x, s)[i] == s[i - 1]);
            }
        } else {
            if i == 0 {
                assert(spec_insert_by(le, x, s)[i] == s[0]);
            } else {
                assert(spec_insert_by(le, x, s)[i] == spec_insert_by(le, x, s.drop_first())[i - 1]);
            }
        }
    }
}

/// Sorting keeps any property that holds of every element.
pub proof fn lemma_sort_by_all<T>(le: spec_fn(T, T) -> bool, s: Seq<T>, pred: spec_fn(T) -> bool)
    requires
        forall|i: int| 0 <= i < s.len() ==> #[trigger] pred(s[i]),
    ensures
        forall|i: int|
            0 <= i < spec_sort_by(le, s).len() ==> #[trigger] pred(spec_sort_by(le, s)[i]),
    decreases s.len(),
{
    if s.len() > 0 {
        assert forall|i: int| 0 <= i < s.drop_first().len() implies #[trigger] pred(
            s.drop_first()[i],
        ) by {
            assert(s.drop_first()[i] == s[i + 1]);
        }
        lemma_sort_by_all(le, s.drop_first(), pred);
        lemma_insert_by_all(le, s[0], spec_sort_by(le, s.drop_first()), pred);
    }
}

/// The first `n` rows, or all of them when fewer.
pub open spec fn spec_truncate<T>(s: Seq<T>, n: int) -> Seq<T> {
    if s.len() <= n {
        s
    } else {
        s.take(n)
    }
}

} // verus!
