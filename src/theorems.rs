//! Laws that relate the operations on an expense list to one another.
use vstd::prelude::*;
use crate::expense::Expense;
use crate::operations::{
    appends_one, category_count, category_is, category_total, is_first_max, is_first_min,
    sum_amounts,
};

verus! {

/// A run of appends keeps every record: after `n` calls of `add_expense`,
/// each of which takes `states[k]` to `states[k + 1]`, the list has grown
/// by exactly `n`, the records it held are still there, and the `k`-th added
/// record stands right after them, in the order of the calls.
pub proof fn lemma_adds_keep_every_record(states: Seq<Seq<Expense>>)
    requires
        states.len() >= 1,
        forall|k: int| 0 <= k < states.len() - 1 ==> appends_one(#[trigger] states[k], states[k + 1]),
    ensures
        states.last().len() == states[0].len() + states.len() - 1,
        states.last().subrange(0, states[0].len() as int) == states[0],
        forall|k: int|
            0 <= k < states.len() - 1 ==> states.last()[states[0].len() + k] == #[trigger] states[k + 1].last(),
    decreases states.len(),
{
    if states.len() > 1 {
        let prev = states.drop_last();
        assert forall|k: int| 0 <= k < prev.len() - 1 implies appends_one(#[trigger] prev[k], prev[k + 1]) by {
            assert(appends_one(states[k], states[k + 1]));
        }
        lemma_adds_keep_every_record(prev);
        let n = states.len() - 1;
        assert(appends_one(states[n - 1], states[n]));
        let before = states[n - 1];
        let after = states[n];
        assert(after.subrange(0, before.len() as int) == before.subrange(0, before.len() as int)) by {
            assert(after.drop_last() == before);
        }
        assert(before.subrange(0, states[0].len() as int) == states[0]);
        assert(after.subrange(0, states[0].len() as int) =~= states[0]) by {
            assert forall|j: int| 0 <= j < states[0].len() implies after[j] == states[0][j] by {
                assert(after[j] == after.drop_last()[j]);
                assert(before.subrange(0, states[0].len() as int)[j] == before[j]);
            }
        }
        assert forall|k: int| 0 <= k < states.len() - 1 implies after[states[0].len() + k]
            == #[trigger] states[k + 1].last() by {
            if k < n - 1 {
                assert(prev.last()[states[0].len() + k] == prev[k + 1].last());
                assert(after[states[0].len() + k] == after.drop_last()[states[0].len() + k]);
            }
        }
    }
}

proof fn lemma_sum_remove(s: Seq<Expense>, k: int)
    requires
        0 <= k < s.len(),
    ensures
        sum_amounts(s) == sum_amounts(s.remove(k)) + s[k].amount,
    decreases s.len(),
{
    if k < s.len() - 1 {
        assert(s.remove(k).drop_last() =~= s.drop_last().remove(k));
        assert(s.remove(k).last() == s.last());
        lemma_sum_remove(s.drop_last(), k);
    } else {
        assert(s.remove(k) =~= s.drop_last());
    }
}

/// The total does not depend on the order of the records: two lists that
/// hold the same records, each as many times, have the same sum of amounts.
pub proof fn lemma_total_ignores_order(s1: Seq<Expense>, s2: Seq<Expense>)
    requires
        s1.to_multiset() == s2.to_multiset(),
    ensures
        sum_amounts(s1) == sum_amounts(s2),
    decreases s1.len(),
{
    broadcast use vstd::seq_lib::group_to_multiset_ensures;

    if s1.len() == 0 {
        assert(s2.to_multiset().len() == 0);
        assert(s2.len() == 0);
    } else {
        let x = s1.last();
        let rest = s1.drop_last();
        assert(s1 =~= rest.push(x));
        assert(s1.to_multiset().count(x) > 0);
        assert(s2.contains(x));
        let k = choose|k: int| 0 <= k < s2.len() && s2[k] == x;
        let rest2 = s2.remove(k);
        assert(rest2.to_multiset() =~= rest.to_multiset()) by {
            assert(rest.push(x).to_multiset() =~= rest.to_multiset().insert(x));
            assert(s2.remove(k).to_multiset() =~= s2.to_multiset().remove(s2[k]));
        }
        lemma_total_ignores_order(rest, rest2);
        lemma_sum_remove(s2, k);
    }
}

/// The total of a category is the total of the records that the category
/// filter keeps.
pub proof fn lemma_category_total_is_total_of_filter(s: Seq<Expense>, c: Seq<char>)
    ensures
        category_total(s, c) == sum_amounts(s.filter(category_is(c))),
    decreases s.len(),
{
    reveal(Seq::filter);
    if s.len() > 0 {
        lemma_category_total_is_total_of_filter(s.drop_last(), c);
        let f = s.drop_last().filter(category_is(c));
        if s.last().category@ == c {
            assert(f.push(s.last()).drop_last() =~= f);
        }
    }
}

/// The count of a category is the length of what the category filter keeps.
pub proof fn lemma_category_count_is_filter_len(s: Seq<Expense>, c: Seq<char>)
    ensures
        category_count(s, c) == s.filter(category_is(c)).len(),
    decreases s.len(),
{
    reveal(Seq::filter);
    if s.len() > 0 {
        lemma_category_count_is_filter_len(s.drop_last(), c);
    }
}

/// The record that `find_max` picks is fixed by the list: at most one index
/// holds the first greatest amount, so calls on an unchanged list agree.
pub proof fn lemma_first_max_unique(s: Seq<Expense>, i: int, j: int)
    requires
        is_first_max(s, i),
        is_first_max(s, j),
    ensures
        i == j,
{
    if i < j {
        assert(s[i].amount < s[j].amount);
    } else if j < i {
        assert(s[j].amount < s[i].amount);
    }
}

/// The record that `find_min` picks is fixed by the list: at most one index
/// holds the first least amount, so calls on an unchanged list agree.
pub proof fn lemma_first_min_unique(s: Seq<Expense>, i: int, j: int)
    requires
        is_first_min(s, i),
        is_first_min(s, j),
    ensures
        i == j,
{
    if i < j {
        assert(s[i].amount > s[j].amount);
    } else if j < i {
        assert(s[j].amount > s[i].amount);
    }
}

} // verus!
