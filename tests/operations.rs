use expense_tracker::expense::Expense;
use expense_tracker::operations::{
    add_expense, calculate_total, count_by_category, find_max, find_min, get_by_category,
    total_by_category, view_expenses_by_date,
};

// Amounts are written in cents: 2000 is 20.00.

fn sample() -> Vec<Expense> {
    let mut expenses = Vec::new();
    add_expense(&mut expenses, 4550, "food", "2026-01-08");
    add_expense(&mut expenses, 2000, "transport", "2026-01-08");
    add_expense(&mut expenses, 10000, "rent", "2026-01-08");
    add_expense(&mut expenses, 3000, "food", "2026-01-07");
    expenses
}

#[test]
fn test_add_expense() {
    let mut expenses = Vec::new();
    add_expense(&mut expenses, 2000, "food", "2024-06-01");
    assert_eq!(expenses.len(), 1);
    assert_eq!(expenses[0].amount, 2000);
    assert_eq!(expenses[0].category, "food");
}

#[test]
fn test_calculate_total() {
    let mut expenses = Vec::new();
    add_expense(&mut expenses, 1000, "food", "2024-06-01");
    add_expense(&mut expenses, 2000, "transport", "2024-06-01");
    assert_eq!(calculate_total(&expenses), 3000);
}

#[test]
fn test_find_max() {
    let mut expenses = Vec::new();
    add_expense(&mut expenses, 1000, "food", "2024-06-01");
    add_expense(&mut expenses, 5000, "rent", "2024-06-01");
    add_expense(&mut expenses, 2000, "transport", "2024-06-01");

    let max = find_max(&expenses).unwrap();
    assert_eq!(max.amount, 5000);
}

#[test]
fn length_after_adds_equals_number_of_adds() {
    let mut expenses = Vec::new();
    for k in 0..7 {
        add_expense(&mut expenses, 100, "same", "2026-01-01");
        assert_eq!(expenses.len(), k + 1);
    }
    assert!(expenses.iter().all(|e| e.amount == 100 && e.category == "same"));
}

#[test]
fn add_keeps_fields_verbatim() {
    let mut expenses = Vec::new();
    add_expense(&mut expenses, -250, "", "");
    add_expense(&mut expenses, 0, "Food", "8 Jan");
    assert_eq!(expenses[0].amount, -250);
    assert_eq!(expenses[0].category, "");
    assert_eq!(expenses[0].date, "");
    assert_eq!(expenses[1].amount, 0);
    assert_eq!(expenses[1].category, "Food");
    assert_eq!(expenses[1].date, "8 Jan");
}

#[test]
fn scenario_of_four_expenses() {
    let expenses = sample();
    assert_eq!(calculate_total(&expenses), 19550);

    let day = view_expenses_by_date(&expenses, "2026-01-08");
    assert_eq!(day.len(), 3);
    assert_eq!(day[0].category, "food");
    assert_eq!(day[1].category, "transport");
    assert_eq!(day[2].category, "rent");

    assert_eq!(total_by_category(&expenses, "food"), 7550);
    assert_eq!(count_by_category(&expenses, "food"), 2);

    let max = find_max(&expenses).unwrap();
    assert_eq!(max.amount, 10000);
    assert_eq!(max.category, "rent");
}

#[test]
fn total_ignores_insertion_order() {
    let forward = sample();
    let mut backward = Vec::new();
    for e in forward.iter().rev() {
        add_expense(&mut backward, e.amount, &e.category, &e.date);
    }
    assert_eq!(calculate_total(&forward), calculate_total(&backward));
    assert_eq!(calculate_total(&backward), 19550);
}

#[test]
fn total_of_empty_is_zero() {
    let expenses: Vec<Expense> = Vec::new();
    assert_eq!(calculate_total(&expenses), 0);
    assert_eq!(total_by_category(&expenses, "food"), 0);
    assert_eq!(count_by_category(&expenses, "food"), 0);
    assert!(view_expenses_by_date(&expenses, "2026-01-08").is_empty());
    assert!(get_by_category(&expenses, "food").is_empty());
}

#[test]
fn total_with_negative_and_extreme_amounts() {
    let mut expenses = Vec::new();
    add_expense(&mut expenses, i64::MAX, "a", "d");
    add_expense(&mut expenses, i64::MAX, "a", "d");
    add_expense(&mut expenses, -5, "b", "d");
    assert_eq!(calculate_total(&expenses), 2 * (i64::MAX as i128) - 5);
    assert_eq!(total_by_category(&expenses, "a"), 2 * (i64::MAX as i128));
}

#[test]
fn filter_by_category_keeps_order() {
    let expenses = sample();
    let food = get_by_category(&expenses, "food");
    assert_eq!(food.len(), 2);
    assert_eq!(food[0].amount, 4550);
    assert_eq!(food[1].amount, 3000);
    assert!(std::ptr::eq(food[0], &expenses[0]));
    assert!(std::ptr::eq(food[1], &expenses[3]));
}

#[test]
fn category_results_agree_with_filter() {
    let expenses = sample();
    for c in ["food", "rent", "transport", "none"] {
        let kept = get_by_category(&expenses, c);
        let sum: i128 = kept.iter().map(|e| e.amount as i128).sum();
        assert_eq!(total_by_category(&expenses, c), sum);
        assert_eq!(count_by_category(&expenses, c), kept.len());
    }
}

#[test]
fn category_match_is_case_sensitive() {
    let expenses = sample();
    assert_eq!(count_by_category(&expenses, "Food"), 0);
    assert_eq!(total_by_category(&expenses, "Food"), 0);
    assert!(get_by_category(&expenses, "foo").is_empty());
}

#[test]
fn filter_by_date_without_match_is_empty() {
    let expenses = sample();
    assert!(view_expenses_by_date(&expenses, "2026-01-09").is_empty());
    let day = view_expenses_by_date(&expenses, "2026-01-07");
    assert_eq!(day.len(), 1);
    assert_eq!(day[0].amount, 3000);
}

#[test]
fn extrema_of_empty_are_absent() {
    let expenses: Vec<Expense> = Vec::new();
    assert!(find_max(&expenses).is_none());
    assert!(find_min(&expenses).is_none());
}

#[test]
fn find_min_picks_least() {
    let expenses = sample();
    let min = find_min(&expenses).unwrap();
    assert_eq!(min.amount, 2000);
    assert_eq!(min.category, "transport");
}

#[test]
fn extrema_ties_go_to_first_inserted() {
    let mut expenses = Vec::new();
    add_expense(&mut expenses, 500, "first", "d");
    add_expense(&mut expenses, 100, "low1", "d");
    add_expense(&mut expenses, 500, "second", "d");
    add_expense(&mut expenses, 100, "low2", "d");
    assert!(std::ptr::eq(find_max(&expenses).unwrap(), &expenses[0]));
    assert!(std::ptr::eq(find_min(&expenses).unwrap(), &expenses[1]));
}

#[test]
fn extrema_bound_every_amount() {
    let mut expenses = Vec::new();
    for a in [30, -40, 75, 0, 75, -40, 12] {
        add_expense(&mut expenses, a, "c", "d");
    }
    let max = find_max(&expenses).unwrap();
    let min = find_min(&expenses).unwrap();
    assert!(expenses.iter().all(|e| min.amount <= e.amount && e.amount <= max.amount));
    assert!(std::ptr::eq(max, &expenses[2]));
    assert!(std::ptr::eq(min, &expenses[1]));
}

#[test]
fn repeated_queries_give_the_same_answer() {
    let expenses = sample();
    assert_eq!(calculate_total(&expenses), calculate_total(&expenses));
    assert_eq!(total_by_category(&expenses, "food"), total_by_category(&expenses, "food"));
    assert_eq!(count_by_category(&expenses, "food"), count_by_category(&expenses, "food"));
    let a = view_expenses_by_date(&expenses, "2026-01-08");
    let b = view_expenses_by_date(&expenses, "2026-01-08");
    assert!(a.iter().zip(b.iter()).all(|(x, y)| std::ptr::eq(*x, *y)) && a.len() == b.len());
    assert!(std::ptr::eq(find_max(&expenses).unwrap(), find_max(&expenses).unwrap()));
    assert!(std::ptr::eq(find_min(&expenses).unwrap(), find_min(&expenses).unwrap()));
    assert_eq!(expenses.len(), 4);
}
