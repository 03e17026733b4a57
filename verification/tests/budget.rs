use my_library::budget::MonthlyTotals;

fn entries(totals: &MonthlyTotals) -> Vec<(&str, i32)> {
    totals.as_entries().iter().map(|(month, sum)| (month.as_str(), *sum)).collect()
}

#[test]
fn new_totals_are_empty() {
    let totals = MonthlyTotals::new();
    assert!(totals.as_entries().is_empty());
}

#[test]
fn amounts_of_one_month_are_summed() {
    let mut totals = MonthlyTotals::new();
    assert_eq!(totals.add("2024-01", 1000), Some(1000));
    assert_eq!(totals.add("2024-01", -300), Some(700));
    assert_eq!(totals.add("2024-01", 25), Some(725));
    assert_eq!(entries(&totals), vec![("2024-01", 725)]);
}

#[test]
fn months_are_kept_apart_in_order_of_first_appearance() {
    let mut totals = MonthlyTotals::new();
    assert_eq!(totals.add("2024-02", 5), Some(5));
    assert_eq!(totals.add("2024-01", 7), Some(7));
    assert_eq!(totals.add("2024-02", -6), Some(-1));
    assert_eq!(totals.add("2023-12", 0), Some(0));
    assert_eq!(totals.add("2024-01", 1), Some(8));
    assert_eq!(entries(&totals), vec![("2024-02", -1), ("2024-01", 8), ("2023-12", 0)]);
}

#[test]
fn sum_that_does_not_fit_changes_nothing() {
    let mut totals = MonthlyTotals::new();
    assert_eq!(totals.add("2024-03", i32::MAX), Some(i32::MAX));
    assert_eq!(totals.add("2024-03", 1), None);
    assert_eq!(totals.add("2024-04", i32::MIN), Some(i32::MIN));
    assert_eq!(totals.add("2024-04", -1), None);
    assert_eq!(entries(&totals), vec![("2024-03", i32::MAX), ("2024-04", i32::MIN)]);
    assert_eq!(totals.add("2024-03", -1), Some(i32::MAX - 1));
    assert_eq!(totals.add("2024-04", 1), Some(i32::MIN + 1));
}
