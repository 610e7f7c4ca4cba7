use flood_stats::parse::{parse_budget, parse_coordinate};
use flood_stats::stats::{compute_median_doubled, normalize_score, percent_hundredths};

#[test]
fn median_of_odd_count_is_middle_element() {
    // median([3,1,2]) = 2, held doubled.
    assert_eq!(compute_median_doubled(vec![3, 1, 2]), 4);
}

#[test]
fn median_of_even_count_is_midpoint() {
    // median([4,1,3,2]) = 2.5, held doubled: 5.
    assert_eq!(compute_median_doubled(vec![4, 1, 3, 2]), 5);
}

#[test]
fn median_of_empty_input_is_zero() {
    assert_eq!(compute_median_doubled(vec![]), 0);
}

#[test]
fn median_handles_negative_values() {
    assert_eq!(compute_median_doubled(vec![-10, 30, -20]), -20);
}

#[test]
fn normalize_degenerate_range_is_zero_for_every_input() {
    assert_eq!(normalize_score(7, 7, 7), 0);
    assert_eq!(normalize_score(0, 5, 5), 0);
    assert_eq!(normalize_score(-100, 3, 3), 0);
    // An inverted range counts as degenerate too.
    assert_eq!(normalize_score(4, 9, 2), 0);
}

#[test]
fn normalize_maps_extrema_to_bounds() {
    assert_eq!(normalize_score(0, 0, 10), 0);
    assert_eq!(normalize_score(10, 0, 10), 10000);
    assert_eq!(normalize_score(5, 0, 10), 5000);
    assert_eq!(normalize_score(1, 0, 3), 3333);
}

#[test]
fn percent_guards_zero_denominator() {
    assert_eq!(percent_hundredths(0, 0), 0);
}

#[test]
fn percent_is_exact_in_hundredths() {
    assert_eq!(percent_hundredths(1, 3), 3333);
    assert_eq!(percent_hundredths(2, 4), 5000);
    assert_eq!(percent_hundredths(3, 3), 10000);
}

#[test]
fn budget_parses_to_hundredths() {
    assert_eq!(parse_budget("1234.56"), Some(123456));
    assert_eq!(parse_budget("1000"), Some(100000));
    assert_eq!(parse_budget("0.05"), Some(5));
    assert_eq!(parse_budget("0"), Some(0));
}

#[test]
fn budget_trims_whitespace_and_accepts_signs() {
    assert_eq!(parse_budget("  12.50  "), Some(1250));
    assert_eq!(parse_budget("+2.25"), Some(225));
    assert_eq!(parse_budget("-3.50"), Some(-350));
}

#[test]
fn budget_allows_bare_point_forms() {
    assert_eq!(parse_budget(".5"), Some(50));
    assert_eq!(parse_budget("5."), Some(500));
}

#[test]
fn budget_truncates_beyond_two_decimals() {
    assert_eq!(parse_budget("1.999"), Some(199));
}

#[test]
fn budget_rejects_malformed_text() {
    assert_eq!(parse_budget(""), None);
    assert_eq!(parse_budget("   "), None);
    assert_eq!(parse_budget("abc"), None);
    assert_eq!(parse_budget("1.2.3"), None);
    assert_eq!(parse_budget("1e5"), None);
    assert_eq!(parse_budget("12,000"), None);
    assert_eq!(parse_budget("-"), None);
    assert_eq!(parse_budget("."), None);
}

#[test]
fn budget_rejects_magnitudes_over_the_cap() {
    assert_eq!(parse_budget("99999999999999999999"), None);
    assert_eq!(parse_budget("10000000000000"), Some(1_000_000_000_000_000));
    assert_eq!(parse_budget("10000000000000.01"), None);
}

#[test]
fn coordinate_parses_to_millionths() {
    assert_eq!(parse_coordinate("14.5995"), Some(14_599_500));
    assert_eq!(parse_coordinate("-120.98"), Some(-120_980_000));
    assert_eq!(parse_coordinate("0"), Some(0));
    // Digits beyond the sixth decimal are truncated.
    assert_eq!(parse_coordinate("0.0000004"), Some(0));
}
