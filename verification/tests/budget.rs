use pi_server::budget::{
    budget_status, budget_status_at, cycle_bounds, days_in_month, next_month, prev_month,
    tier_for_usage, Date, TIER_100, TIER_50, TIER_80,
};

fn d(year: i32, month: u32, day: u32) -> Date {
    Date { year, month, day }
}

#[test]
fn cycle_starts_this_month_after_reset_day() {
    let (start, end) = cycle_bounds(d(2026, 2, 15), 5);
    assert_eq!(start, d(2026, 2, 5));
    assert_eq!(end, d(2026, 3, 5));
}

#[test]
fn cycle_starts_last_month_before_reset_day() {
    let (start, end) = cycle_bounds(d(2026, 2, 3), 5);
    assert_eq!(start, d(2026, 1, 5));
    assert_eq!(end, d(2026, 2, 5));
}

#[test]
fn reset_day_clamps_to_month_length() {
    let (start, end) = cycle_bounds(d(2026, 2, 15), 31);
    assert_eq!(start, d(2026, 1, 31));
    assert_eq!(end, d(2026, 2, 28));
    let (start, end) = cycle_bounds(d(2026, 2, 28), 31);
    assert_eq!(start, d(2026, 2, 28));
    assert_eq!(end, d(2026, 3, 31));
}

#[test]
fn cycle_wraps_year_boundary() {
    let (start, end) = cycle_bounds(d(2026, 12, 10), 20);
    assert_eq!(start, d(2026, 11, 20));
    assert_eq!(end, d(2026, 12, 20));
    let (start, end) = cycle_bounds(d(2026, 12, 31), 1);
    assert_eq!(start, d(2026, 12, 1));
    assert_eq!(end, d(2027, 1, 1));
}

#[test]
fn leap_years_and_month_steps() {
    assert_eq!(days_in_month(2024, 2), 29);
    assert_eq!(days_in_month(1900, 2), 28);
    assert_eq!(days_in_month(2000, 2), 29);
    assert_eq!(days_in_month(2026, 4), 30);
    assert_eq!(prev_month(2026, 1), (2025, 12));
    assert_eq!(next_month(2026, 12), (2027, 1));
    let (start, end) = cycle_bounds(d(2024, 3, 10), 30);
    assert_eq!(start, d(2024, 2, 29));
    assert_eq!(end, d(2024, 3, 30));
}

#[test]
fn tier_boundaries_in_cents() {
    // percent 0, 49.9, 50, 79.9, 80, 99.9, 100, 150 of a 1000-cent budget
    assert_eq!(tier_for_usage(0, 1000), 0);
    assert_eq!(tier_for_usage(499, 1000), 0);
    assert_eq!(tier_for_usage(500, 1000), TIER_50);
    assert_eq!(tier_for_usage(799, 1000), TIER_50);
    assert_eq!(tier_for_usage(800, 1000), TIER_80);
    assert_eq!(tier_for_usage(999, 1000), TIER_80);
    assert_eq!(tier_for_usage(1000, 1000), TIER_100);
    assert_eq!(tier_for_usage(1500, 1000), TIER_100);
}

#[test]
fn status_for_cycle() {
    let s = budget_status_at(150, 10_000, 1, true, d(2026, 2, 15));
    assert_eq!(s.used, 150);
    assert_eq!(s.cycle_start, "2026-02-01");
    assert_eq!(s.cycle_end, "2026-03-01");
    assert_eq!(s.tier, 0);
    let s = budget_status_at(55, 100, 1, true, d(2026, 2, 15));
    assert_eq!(s.tier, TIER_50);
}

#[test]
fn disabled_or_zero_budget_returns_zero_percent() {
    let disabled = budget_status_at(999, 10_000, 1, false, d(2026, 2, 15));
    assert_eq!(disabled.used, 0);
    assert_eq!(disabled.tier, 0);
    let zero = budget_status_at(999, 0, 1, true, d(2026, 2, 15));
    assert_eq!(zero.used, 0);
    assert_eq!(zero.tier, 0);
    let neg = budget_status_at(999, -5, 0, true, d(2026, 2, 15));
    assert_eq!(neg.budget, 0);
    assert_eq!(neg.reset_day, 1);
    assert!(budget_status(1, 100, 40, true).unwrap().reset_day == 31);
}

#[test]
fn sums_cost_within_cycle_only() {
    // 1.00 + 0.50 spent in February's cycle (the January message lies
    // before the cycle and is not counted): 150 cents.
    let status = budget_status_at(150, 10_000, 1, true, d(2026, 2, 15));
    assert_eq!(status.used, 150);
    assert_eq!(status.cycle_start, "2026-02-01");
    assert_eq!(status.cycle_end, "2026-03-01");
    assert_eq!(status.tier, 0);
}

#[test]
fn tier_rises_and_used_is_percent_of_budget() {
    let status = budget_status_at(55, 100, 1, true, d(2026, 2, 15));
    assert_eq!(status.used, 55);
    assert!(((status.used as f64) * 100.0 / (status.budget as f64) - 55.0).abs() < 1e-9);
    assert_eq!(status.tier, TIER_50);
}
