use vstd::prelude::*;
use crate::expense::Expense;

verus! {

/// The records that a list of references points to, in order.
pub open spec fn records(v: Seq<&Expense>) -> Seq<Expense> {
    v.map_values(|e: &Expense| *e)
}

/// `after` is `before` with one more record at its end.
pub open spec fn appends_one(before: Seq<Expense>, after: Seq<Expense>) -> bool {
    after.len() == before.len() + 1 && after.drop_last() == before
}

/// Holds of the expenses recorded on date `d`.
pub open spec fn date_is(d: Seq<char>) -> spec_fn(Expense) -> bool {
    |e: Expense| e.date@ == d
}

/// Holds of the expenses in category `c`.
pub open spec fn category_is(c: Seq<char>) -> spec_fn(Expense) -> bool {
    |e: Expense| e.category@ == c
}

/// The sum of the amounts of `s`.
pub open spec fn sum_amounts(s: Seq<Expense>) -> int
    decreases s.len(),
{
    if s.len() == 0 {
        0
    } else {
        sum_amounts(s.drop_last()) + s.last().amount
    }
}

/// The sum of the amounts of the expenses of `s` in category `c`.
pub open spec fn category_total(s: Seq<Expense>, c: Seq<char>) -> int
    decreases s.len(),
{
    if s.len() == 0 {
        0
    } else if s.last().category@ == c {
        category_total(s.drop_last(), c) + s.last().amount
    } else {
        category_total(s.drop_last(), c)
    }
}

/// How many expenses of `s` are in category `c`.
pub open spec fn category_count(s: Seq<Expense>, c: Seq<char>) -> nat
    decreases s.len(),
{
    if s.len() == 0 {
        0
    } else if s.last().category@ == c {
        category_count(s.drop_last(), c) + 1
    } else {
        category_count(s.drop_last(), c)
    }
}

/// `s[i]` has the greatest amount of `s`, and no earlier expense has it.
pub open spec fn is_first_max(s: Seq<Expense>, i: int) -> bool {
    &&& 0 <= i < s.len()
    &&& forall|j: int| 0 <= j < s.len() ==> #[trigger] s[j].amount <= s[i].amount
    &&& forall|j: int| 0 <= j < i ==> #[trigger] s[j].amount < s[i].amount
}

/// `s[i]` has the least amount of `s`, and no earlier expense has it.
pub open spec fn is_first_min(s: Seq<Expense>, i: int) -> bool {
    &&& 0 <= i < s.len()
    &&& forall|j: int| 0 <= j < s.len() ==> #[trigger] s[j].amount >= s[i].amount
    &&& forall|j: int| 0 <= j < i ==> #[trigger] s[j].amount > s[i].amount
}

/// 2^63: every `i64` amount `a` has `-amount_bound() <= a < amount_bound()`.
pub open spec fn amount_bound() -> int {
    0x8000_0000_0000_0000
}

proof fn lemma_sum_bounds(s: Seq<Expense>)
    ensures
        -(s.len() * amount_bound()) <= sum_amounts(s) <= s.len() * amount_bound(),
    decreases s.len(),
{
    if s.len() > 0 {
        lemma_sum_bounds(s.drop_last());
    }
}

proof fn lemma_category_total_bounds(s: Seq<Expense>, c: Seq<char>)
    ensures
        -(s.len() * amount_bound()) <= category_total(s, c) <= s.len() * amount_bound(),
    decreases s.len(),
{
    if s.len() > 0 {
        lemma_category_total_bounds(s.drop_last(), c);
    }
}

proof fn lemma_category_count_bound(s: Seq<Expense>, c: Seq<char>)
    ensures
        category_count(s, c) <= s.len(),
    decreases s.len(),
{
    if s.len() > 0 {
        lemma_category_count_bound(s.drop_last(), c);
    }
}

/// Appends a new expense built from the given parts; nothing else changes.
pub fn add_expense(expenses: &mut Vec<Expense>, amount: i64, category: &str, date: &str)
    ensures
        appends_one(old(expenses)@, final(expenses)@),
        final(expenses)@.last().amount == amount,
        final(expenses)@.last().category@ == category@,
        final(expenses)@.last().date@ == date@,
{
    let expense = Expense::new(amount, category, date);
    expenses.push(expense);
    assert(expenses@.drop_last() =~= old(expenses)@);
}

/// The expenses recorded on `date`, in the order of the list.
pub fn view_expenses_by_date<'a>(expenses: &'a Vec<Expense>, date: &str) -> (r: Vec<&'a Expense>)
    ensures
        records(r@) == expenses@.filter(date_is(date@)),
{
    let key = date.to_owned();
    let mut r: Vec<&'a Expense> = Vec::new();
    let mut i: usize = 0;
    while i < expenses.len()
        invariant
            i <= expenses@.len(),
            key@ == date@,
            records(r@) == expenses@.subrange(0, i as int).filter(date_is(date@)),
        decreases expenses@.len() - i,
    {
        let e = &expenses[i];
        proof {
            reveal(Seq::filter);
            assert(expenses@.subrange(0, i + 1).drop_last() == expenses@.subrange(0, i as int));
        }
        if e.date == key {
            r.push(e);
        }
        assert(records(r@) =~= expenses@.subrange(0, i + 1).filter(date_is(date@)));
        i += 1;
    }
    assert(expenses@.subrange(0, expenses@.len() as int) == expenses@);
    r
}

/// The sum of all amounts (0 for an empty list).
pub fn calculate_total(expenses: &Vec<Expense>) -> (r: i128)
    ensures
        r == sum_amounts(expenses@),
{
    let mut total: i128 = 0;
    let mut i: usize = 0;
    while i < expenses.len()
        invariant
            i <= expenses@.len(),
            total == sum_amounts(expenses@.subrange(0, i as int)),
        decreases expenses@.len() - i,
    {
        proof {
            let next = expenses@.subrange(0, i + 1);
            assert(next.drop_last() == expenses@.subrange(0, i as int));
            lemma_sum_bounds(next);
        }
        total = total + expenses[i].amount as i128;
        i += 1;
    }
    assert(expenses@.subrange(0, expenses@.len() as int) == expenses@);
    total
}

/// The expenses in `category`, in the order of the list.
pub fn get_by_category<'a>(expenses: &'a Vec<Expense>, category: &str) -> (r: Vec<&'a Expense>)
    ensures
        records(r@) == expenses@.filter(category_is(category@)),
{
    let key = category.to_owned();
    let mut r: Vec<&'a Expense> = Vec::new();
    let mut i: usize = 0;
    while i < expenses.len()
        invariant
            i <= expenses@.len(),
            key@ == category@,
            records(r@) == expenses@.subrange(0, i as int).filter(category_is(category@)),
        decreases expenses@.len() - i,
    {
        let e = &expenses[i];
        proof {
            reveal(Seq::filter);
            assert(expenses@.subrange(0, i + 1).drop_last() == expenses@.subrange(0, i as int));
        }
        if e.category == key {
            r.push(e);
        }
        assert(records(r@) =~= expenses@.subrange(0, i + 1).filter(category_is(category@)));
        i += 1;
    }
    assert(expenses@.subrange(0, expenses@.len() as int) == expenses@);
    r
}

/// How many expenses are in `category`.
pub fn count_by_category(expenses: &Vec<Expense>, category: &str) -> (r: usize)
    ensures
        r == category_count(expenses@, category@),
{
    let key = category.to_owned();
    let mut count: usize = 0;
    let mut i: usize = 0;
    while i < expenses.len()
        invariant
            i <= expenses@.len(),
            key@ == category@,
            count == category_count(expenses@.subrange(0, i as int), category@),
        decreases expenses@.len() - i,
    {
        proof {
            let next = expenses@.subrange(0, i + 1);
            assert(next.drop_last() == expenses@.subrange(0, i as int));
            lemma_category_count_bound(next, category@);
        }
        if expenses[i].category == key {
            count = count + 1;
        }
        i += 1;
    }
    assert(expenses@.subrange(0, expenses@.len() as int) == expenses@);
    count
}

/// The first expense with the greatest amount, or `None` for an empty list.
pub fn find_max(expenses: &Vec<Expense>) -> (r: Option<&Expense>)
    ensures
        r is None <==> expenses@.len() == 0,
        r matches Some(e) ==> exists|i: int| is_first_max(expenses@, i) && *e == expenses@[i],
{
    if expenses.len() == 0 {
        return None;
    }
    let mut best: usize = 0;
    let mut i: usize = 1;
    while i < expenses.len()
        invariant
            1 <= i <= expenses@.len(),
            is_first_max(expenses@.subrange(0, i as int), best as int),
        decreases expenses@.len() - i,
    {
        if expenses[i].amount > expenses[best].amount {
            best = i;
        }
        assert(is_first_max(expenses@.subrange(0, i + 1), best as int));
        i += 1;
    }
    assert(expenses@.subrange(0, expenses@.len() as int) == expenses@);
    Some(&expenses[best])
}

/// The first expense with the least amount, or `None` for an empty list.
pub fn find_min(expenses: &Vec<Expense>) -> (r: Option<&Expense>)
    ensures
        r is None <==> expenses@.len() == 0,
        r matches Some(e) ==> exists|i: int| is_first_min(expenses@, i) && *e == expenses@[i],
{
    if expenses.len() == 0 {
        return None;
    }
    let mut best: usize = 0;
    let mut i: usize = 1;
    while i < expenses.len()
        invariant
            1 <= i <= expenses@.len(),
            is_first_min(expenses@.subrange(0, i as int), best as int),
        decreases expenses@.len() - i,
    {
        if expenses[i].amount < expenses[best].amount {
            best = i;
        }
        assert(is_first_min(expenses@.subrange(0, i + 1), best as int));
        i += 1;
    }
    assert(expenses@.subrange(0, expenses@.len() as int) == expenses@);
    Some(&expenses[best])
}

/// The sum of the amounts of the expenses in `category` (0 if none).
pub fn total_by_category(expenses: &Vec<Expense>, category: &str) -> (r: i128)
    ensures
        r == category_total(expenses@, category@),
{
    let key = category.to_owned();
    let mut total: i128 = 0;
    let mut i: usize = 0;
    while i < expenses.len()
        invariant
            i <= expenses@.len(),
            key@ == category@,
            total == category_total(expenses@.subrange(0, i as int), category@),
        decreases expenses@.len() - i,
    {
        proof {
            let next = expenses@.subrange(0, i + 1);
            assert(next.drop_last() == expenses@.subrange(0, i as int));
            lemma_category_total_bounds(next, category@);
        }
        if expenses[i].category == key {
            total = total + expenses[i].amount as i128;
        }
        i += 1;
    }
    assert(expenses@.subrange(0, expenses@.len() as int) == expenses@);
    total
}

} // verus!
