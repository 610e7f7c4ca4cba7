use flood_stats::contractor::{aggregate_contractor_stats, rank_contractor_stats};
use flood_stats::model::{Project, RawRecord, RiskFlag};
use flood_stats::regional::{aggregate_regional_stats, rank_regional_stats};
use flood_stats::summary::build_summary;
use flood_stats::trend::{aggregate_cost_stats, rank_cost_stats};
use flood_stats::validate::{clean_project, clean_projects, CoordIndex};

fn base_raw() -> RawRecord {
    RawRecord {
        main_island: "Luzon".to_string(),
        region: "Region III".to_string(),
        province: "Bulacan".to_string(),
        project_id: "P-001".to_string(),
        project_name: "Dike upgrade".to_string(),
        type_of_work: "Dike".to_string(),
        funding_year: Some(2021),
        contract_id: "C-001".to_string(),
        approved_budget_for_contract: "2000.00".to_string(),
        contract_cost: "1000.00".to_string(),
        actual_completion_date: "2021-01-31".to_string(),
        contractor: "Acme Builders".to_string(),
        start_date: "2021-01-01".to_string(),
        project_latitude: "14.5995".to_string(),
        project_longitude: "120.9842".to_string(),
        provincial_capital: "Malolos".to_string(),
        provincial_capital_latitude: "14.8443".to_string(),
        provincial_capital_longitude: "120.8114".to_string(),
    }
}

fn proj(
    region: &str,
    contractor: &str,
    work: &str,
    year: u32,
    budget_c: i64,
    cost_c: i64,
    delay_days: i64,
) -> Project {
    let start_day: i64 = 738000;
    Project {
        main_island: "Luzon".to_string(),
        region: region.to_string(),
        province: "Bulacan".to_string(),
        project_id: "P".to_string(),
        project_name: "N".to_string(),
        type_of_work: work.to_string(),
        funding_year: year,
        contract_id: "C".to_string(),
        approved_budget: budget_c,
        contract_cost: cost_c,
        completion_day: start_day + delay_days,
        start_day,
        contractor: contractor.to_string(),
        latitude: 14_599_500,
        longitude: 120_984_200,
        cost_savings: budget_c - cost_c,
        completion_delay_days: delay_days,
    }
}

#[test]
fn clean_project_accepts_a_valid_record() {
    let raw = base_raw();
    let index = CoordIndex::new();
    let p = clean_project(&raw, &index).expect("record should validate");
    assert_eq!(p.funding_year, 2021);
    assert_eq!(p.approved_budget, 200000);
    assert_eq!(p.contract_cost, 100000);
    // Savings are exactly budget minus cost.
    assert_eq!(p.cost_savings, 100000);
    // January 1 to January 31 is a signed difference of 30 days.
    assert_eq!(p.completion_delay_days, 30);
    assert_eq!(p.latitude, 14_599_500);
    assert_eq!(p.longitude, 120_984_200);
}

#[test]
fn clean_project_keeps_negative_delays() {
    let mut raw = base_raw();
    raw.start_date = "2021-02-10".to_string();
    raw.actual_completion_date = "2021-02-01".to_string();
    let p = clean_project(&raw, &CoordIndex::new()).expect("record should validate");
    assert_eq!(p.completion_delay_days, -9);
}

#[test]
fn clean_project_rejects_bad_years() {
    for year in [None, Some(2020), Some(2024)] {
        let mut raw = base_raw();
        raw.funding_year = year;
        assert!(clean_project(&raw, &CoordIndex::new()).is_none());
    }
}

#[test]
fn clean_project_rejects_bad_dates() {
    let mut raw = base_raw();
    raw.start_date = "2021-13-01".to_string();
    assert!(clean_project(&raw, &CoordIndex::new()).is_none());
    let mut raw = base_raw();
    raw.actual_completion_date = "31-01-2021".to_string();
    assert!(clean_project(&raw, &CoordIndex::new()).is_none());
}

#[test]
fn clean_project_rejects_nonpositive_money() {
    let mut raw = base_raw();
    raw.approved_budget_for_contract = "0".to_string();
    assert!(clean_project(&raw, &CoordIndex::new()).is_none());
    let mut raw = base_raw();
    raw.contract_cost = "-5.00".to_string();
    assert!(clean_project(&raw, &CoordIndex::new()).is_none());
    let mut raw = base_raw();
    raw.contract_cost = "n/a".to_string();
    assert!(clean_project(&raw, &CoordIndex::new()).is_none());
}

#[test]
fn clean_project_rejects_unresolvable_coordinates() {
    let mut raw = base_raw();
    raw.project_latitude = "0".to_string();
    raw.project_longitude = "0".to_string();
    // No fallback entry for the province: the pair stays (0, 0).
    assert!(clean_project(&raw, &CoordIndex::new()).is_none());
}

#[test]
fn clean_projects_uses_first_seen_capital_as_fallback() {
    let mut row1 = base_raw();
    row1.provincial_capital_latitude = "10.0".to_string();
    row1.provincial_capital_longitude = "11.0".to_string();
    // The second row of the same province carries other capital coordinates
    // and no coordinates of its own: the first-seen pair must win.
    let mut row2 = base_raw();
    row2.provincial_capital_latitude = "20.0".to_string();
    row2.provincial_capital_longitude = "21.0".to_string();
    row2.project_latitude = "0".to_string();
    row2.project_longitude = "".to_string();
    let (projects, seen, kept) = clean_projects(&vec![row1, row2]);
    assert_eq!(seen, 2);
    assert_eq!(kept, 2);
    assert_eq!(projects[1].latitude, 10_000_000);
    assert_eq!(projects[1].longitude, 11_000_000);
}

#[test]
fn clean_projects_counts_dropped_rows() {
    let good = base_raw();
    let mut bad = base_raw();
    bad.funding_year = Some(1999);
    let (projects, seen, kept) = clean_projects(&vec![good, bad]);
    assert_eq!(seen, 2);
    assert_eq!(kept, 1);
    assert_eq!(projects.len(), 1);
}

#[test]
fn regional_two_groups_normalize_to_extremes() {
    let projects = vec![
        proj("A", "X", "Dike", 2021, 20000, 10000, 10),
        proj("A", "X", "Dike", 2021, 40000, 20000, 30),
        proj("B", "Y", "Dike", 2021, 30000, 10000, 40),
    ];
    let rows = aggregate_regional_stats(&projects);
    assert_eq!(rows.len(), 2);
    let a = &rows[0];
    assert_eq!(a.region, "A");
    assert_eq!(a.total_budget, 60000);
    // Savings 10000 and 20000: median 15000, held doubled.
    assert_eq!(a.median_savings_doubled, 30000);
    assert_eq!(a.avg_delay, 2000);
    assert_eq!(a.high_delay_pct, 0);
    let b = &rows[1];
    assert_eq!(b.region, "B");
    assert_eq!(b.median_savings_doubled, 40000);
    assert_eq!(b.avg_delay, 4000);
    assert_eq!(b.high_delay_pct, 10000);
    // Raw scores: A = 5000*30000/2000 = 75000, B = 5000*40000/4000 = 50000;
    // min-max normalization maps them to the bounds.
    assert_eq!(a.efficiency_score, 10000);
    assert_eq!(b.efficiency_score, 0);
    let ranked = rank_regional_stats(rows);
    assert_eq!(ranked[0].region, "A");
    assert_eq!(ranked[1].region, "B");
}

#[test]
fn regional_single_region_scores_zero() {
    let projects = vec![proj("Solo", "X", "Dike", 2021, 20000, 10000, 10)];
    let rows = aggregate_regional_stats(&projects);
    assert_eq!(rows.len(), 1);
    assert_eq!(rows[0].efficiency_score, 0);
}

#[test]
fn regional_ties_break_by_region_name() {
    // Two regions with identical raw scores: both normalize to 0; the rank
    // must then order them by name.
    let projects = vec![
        proj("Zeta", "X", "Dike", 2021, 20000, 10000, 10),
        proj("Alpha", "Y", "Dike", 2021, 20000, 10000, 10),
    ];
    let ranked = rank_regional_stats(aggregate_regional_stats(&projects));
    assert_eq!(ranked[0].region, "Alpha");
    assert_eq!(ranked[1].region, "Zeta");
}

#[test]
fn contractor_threshold_drops_small_groups() {
    let mut projects = Vec::new();
    for _ in 0..5 {
        projects.push(proj("A", "Acme", "Dike", 2021, 15000, 10000, 9));
    }
    for _ in 0..4 {
        projects.push(proj("A", "Beta", "Dike", 2021, 15000, 10000, 9));
    }
    let rows = aggregate_contractor_stats(&projects);
    assert_eq!(rows.len(), 1);
    assert_eq!(rows[0].contractor, "Acme");
    assert_eq!(rows[0].project_count, 5);
}

#[test]
fn contractor_reliability_and_risk_flag() {
    // Five projects: delay 9 days each, cost 100.00 each, savings 50.00 each.
    // avg delay 9.00; ratio 0.5; reliability (1 - 9/90) * 0.5 * 100 = 45.00,
    // below 50: High risk.
    let mut projects = Vec::new();
    for _ in 0..5 {
        projects.push(proj("A", "Acme", "Dike", 2021, 15000, 10000, 9));
    }
    let rows = aggregate_contractor_stats(&projects);
    assert_eq!(rows[0].avg_completion_delay_days, 900);
    assert_eq!(rows[0].total_contract_cost, 50000);
    assert_eq!(rows[0].total_cost_savings, 25000);
    assert_eq!(rows[0].reliability_index, 4500);
    assert_eq!(rows[0].risk_flag, RiskFlag::High);
    // No delay and savings equal to cost: (1 - 0) * 1.0 * 100 = 100.00: Low.
    let mut projects = Vec::new();
    for _ in 0..5 {
        projects.push(proj("A", "Zen", "Dike", 2021, 20000, 10000, 0));
    }
    let rows = aggregate_contractor_stats(&projects);
    assert_eq!(rows[0].reliability_index, 10000);
    assert_eq!(rows[0].risk_flag, RiskFlag::Low);
}

#[test]
fn contractor_rank_truncates_to_top_fifteen() {
    let mut projects = Vec::new();
    for c in 0..16u32 {
        for _ in 0..5 {
            projects.push(proj(
                "A",
                &format!("Firm {:02}", c),
                "Dike",
                2021,
                20000,
                10000 + 100 * c as i64,
                0,
            ));
        }
    }
    let ranked = rank_contractor_stats(aggregate_contractor_stats(&projects));
    assert_eq!(ranked.len(), 15);
    // Descending by total contract cost: the cheapest firm (Firm 00) is cut.
    assert_eq!(ranked[0].contractor, "Firm 15");
    assert_eq!(ranked[14].contractor, "Firm 01");
}

#[test]
fn yoy_change_for_adjacent_years() {
    // Dike: mean savings 1000.00 in 2021 and 1100.00 in 2022: the 2022
    // year-over-year change is 10%, in hundredths of a percent.
    let projects = vec![
        proj("A", "X", "Dike", 2021, 200000, 100000, 10),
        proj("A", "X", "Dike", 2022, 210000, 100000, 10),
    ];
    let rows = aggregate_cost_stats(&projects);
    assert_eq!(rows.len(), 2);
    assert_eq!(rows[0].funding_year, 2021);
    assert_eq!(rows[0].avg_cost_savings, 100000);
    assert_eq!(rows[0].yoy_change, 0);
    assert_eq!(rows[1].funding_year, 2022);
    assert_eq!(rows[1].avg_cost_savings, 110000);
    assert_eq!(rows[1].yoy_change, 1000);
}

#[test]
fn yoy_change_guards_near_zero_prior() {
    // The 2021 mean savings are 0.00: whatever the 2022 delta, the change
    // must be 0 rather than an unstable ratio.
    let projects = vec![
        proj("A", "X", "Levee", 2021, 10000, 10000, 10),
        proj("A", "X", "Levee", 2022, 15000, 10000, 10),
    ];
    let rows = aggregate_cost_stats(&projects);
    assert_eq!(rows[1].funding_year, 2022);
    assert_eq!(rows[1].yoy_change, 0);
}

#[test]
fn yoy_change_needs_contiguous_prior_year() {
    // 2023 follows 2021 for the same type: no adjacent prior year, so 0.
    let projects = vec![
        proj("A", "X", "Wall", 2021, 20000, 10000, 10),
        proj("A", "X", "Wall", 2023, 30000, 10000, 10),
    ];
    let rows = aggregate_cost_stats(&projects);
    assert_eq!(rows[1].funding_year, 2023);
    assert_eq!(rows[1].yoy_change, 0);
}

#[test]
fn yoy_is_computed_on_adjacency_order_not_display_order() {
    // In display order (year-major) the row before Dike 2022 is a Levee
    // row; the year-over-year change must still come from Dike 2021.
    let projects = vec![
        proj("A", "X", "Dike", 2021, 200000, 100000, 10),
        proj("A", "X", "Dike", 2022, 210000, 100000, 10),
        proj("A", "X", "Levee", 2021, 500000, 100000, 10),
        proj("A", "X", "Levee", 2022, 500000, 100000, 10),
    ];
    let ranked = rank_cost_stats(aggregate_cost_stats(&projects));
    let dike_2022 = ranked
        .iter()
        .find(|r| r.type_of_work == "Dike" && r.funding_year == 2022)
        .expect("Dike 2022 row");
    assert_eq!(dike_2022.yoy_change, 1000);
}

#[test]
fn a_record_can_resolve_through_its_own_capital() {
    // The province is registered before the record is validated, so the
    // very first record of a province may fall back on its own capital.
    let mut raw = base_raw();
    raw.project_latitude = "0".to_string();
    raw.project_longitude = "0".to_string();
    let (projects, _, kept) = clean_projects(&vec![raw]);
    assert_eq!(kept, 1);
    assert_eq!(projects[0].latitude, 14_844_300);
    assert_eq!(projects[0].longitude, 120_811_400);
}

#[test]
fn cost_report_orders_by_year_then_savings() {
    let projects = vec![
        proj("A", "X", "Dike", 2022, 20000, 10000, 10),
        proj("A", "X", "Wall", 2021, 90000, 10000, 10),
        proj("A", "X", "Dike", 2021, 20000, 10000, 10),
    ];
    let ranked = rank_cost_stats(aggregate_cost_stats(&projects));
    assert_eq!(ranked.len(), 3);
    assert_eq!((ranked[0].funding_year, ranked[0].type_of_work.as_str()), (2021, "Wall"));
    assert_eq!((ranked[1].funding_year, ranked[1].type_of_work.as_str()), (2021, "Dike"));
    assert_eq!((ranked[2].funding_year, ranked[2].type_of_work.as_str()), (2022, "Dike"));
}

#[test]
fn summary_counts_and_totals() {
    let mut p1 = proj("A", "X", "Dike", 2021, 20000, 9000, 10);
    p1.province = "Bulacan".to_string();
    let mut p2 = proj("A", "Y", "Dike", 2022, 30000, 11000, 20);
    p2.province = "Bulacan".to_string();
    let mut p3 = proj("B", "X", "Wall", 2023, 40000, 15000, 40);
    p3.province = "Pampanga".to_string();
    let s = build_summary(&vec![p1, p2, p3]);
    assert_eq!(s.total_projects, 3);
    assert_eq!(s.total_contractors, 2);
    assert_eq!(s.total_provinces, 2);
    assert_eq!(s.total_regions, 2);
    // (10 + 20 + 40) / 3 = 23.33 days.
    assert_eq!(s.global_average_delay_days, 2333);
    assert_eq!(s.total_savings, 11000 + 19000 + 25000);
    // The digest's budget total is taken over contract cost.
    assert_eq!(s.total_budget, 9000 + 11000 + 15000);
    assert_eq!(s.date_range, "2021-2023");
}

#[test]
fn pipeline_is_deterministic_over_equal_input() {
    let mut records = Vec::new();
    for i in 0..6u32 {
        let mut raw = base_raw();
        raw.region = format!("Region {}", i % 3);
        raw.contractor = format!("Firm {}", i % 2);
        raw.funding_year = Some(2021 + i % 3);
        raw.approved_budget_for_contract = format!("{}.00", 1000 + 7 * i);
        records.push(raw);
    }
    let (projects_a, _, _) = clean_projects(&records);
    let (projects_b, _, _) = clean_projects(&records);
    assert_eq!(projects_a, projects_b);
    assert_eq!(
        rank_regional_stats(aggregate_regional_stats(&projects_a)),
        rank_regional_stats(aggregate_regional_stats(&projects_b))
    );
    assert_eq!(
        rank_contractor_stats(aggregate_contractor_stats(&projects_a)),
        rank_contractor_stats(aggregate_contractor_stats(&projects_b))
    );
    assert_eq!(
        rank_cost_stats(aggregate_cost_stats(&projects_a)),
        rank_cost_stats(aggregate_cost_stats(&projects_b))
    );
    assert_eq!(build_summary(&projects_a), build_summary(&projects_b));
}

#[test]
fn end_to_end_twenty_rows_three_regions() {
    let mut records = Vec::new();
    // Eight valid rows in region R1, with some delay so its score is positive.
    for i in 0..8u32 {
        let mut raw = base_raw();
        raw.region = "R1".to_string();
        raw.funding_year = Some(2021 + i % 3);
        raw.approved_budget_for_contract = format!("{}.00", 2000 + i);
        records.push(raw);
    }
    // Seven valid rows in region R2.
    for i in 0..7u32 {
        let mut raw = base_raw();
        raw.region = "R2".to_string();
        raw.funding_year = Some(2021 + i % 3);
        raw.approved_budget_for_contract = format!("{}.00", 3000 + i);
        records.push(raw);
    }
    // One valid row in region R3, completed the day it started: zero delay
    // gives it the raw-score minimum of 0.
    let mut solo = base_raw();
    solo.region = "R3".to_string();
    solo.actual_completion_date = "2021-01-01".to_string();
    records.push(solo);
    // Four malformed rows, one per validation rule.
    let mut bad_year = base_raw();
    bad_year.funding_year = Some(2019);
    records.push(bad_year);
    let mut bad_date = base_raw();
    bad_date.start_date = "soon".to_string();
    records.push(bad_date);
    let mut bad_budget = base_raw();
    bad_budget.approved_budget_for_contract = "free".to_string();
    records.push(bad_budget);
    let mut bad_coords = base_raw();
    bad_coords.province = "Nowhere".to_string();
    bad_coords.project_latitude = "0".to_string();
    bad_coords.project_longitude = "0".to_string();
    bad_coords.provincial_capital_latitude = "0".to_string();
    bad_coords.provincial_capital_longitude = "0".to_string();
    records.push(bad_coords);
    assert_eq!(records.len(), 20);

    let (projects, seen, kept) = clean_projects(&records);
    assert_eq!(seen, 20);
    assert_eq!(kept, 16);
    let regional = aggregate_regional_stats(&projects);
    assert_eq!(regional.len(), 3);
    // The single-project region holds the unique raw-score minimum, so
    // normalization sends it to 0.
    let r3 = regional.iter().find(|r| r.region == "R3").expect("R3 row");
    assert_eq!(r3.efficiency_score, 0);
    let summary = build_summary(&projects);
    assert_eq!(summary.total_projects, 16);
}
