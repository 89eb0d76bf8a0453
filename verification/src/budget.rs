//! Monthly budget cycles: where the billing cycle containing a day starts
//! and ends for a configured reset day, and the reminder tier of a usage.

use vstd::prelude::*;

verus! {

/// The smallest year `chrono::NaiveDate` represents.
pub const MIN_YEAR: i32 = -262143;
/// The largest year `chrono::NaiveDate` represents.
pub const MAX_YEAR: i32 = 262142;

/// Reminder tier at 50% of the budget.
pub const TIER_50: u32 = 1;
/// Reminder tier at 80% of the budget.
pub const TIER_80: u32 = 2;
/// Reminder tier at 100% of the budget.
pub const TIER_100: u32 = 3;

/// A calendar day of the proleptic Gregorian calendar.
#[derive(Debug, Clone, Copy, PartialEq, Eq, Structural)]
pub struct Date {
    pub year: i32,
    pub month: u32,
    pub day: u32,
}

/// Gregorian leap years.
pub open spec fn is_leap(y: int) -> bool {
    (y % 4 == 0 && y % 100 != 0) || y % 400 == 0
}

/// Length of a month.
pub open spec fn month_len(y: int, m: int) -> int {
    if m == 2 {
        if is_leap(y) { 29 } else { 28 }
    } else if m == 4 || m == 6 || m == 9 || m == 11 {
        30
    } else {
        31
    }
}

/// A day that exists and that `chrono::NaiveDate` can hold.
pub open spec fn valid_date(d: Date) -> bool {
    &&& MIN_YEAR <= d.year <= MAX_YEAR
    &&& 1 <= d.month <= 12
    &&& 1 <= d.day <= month_len(d.year as int, d.month as int)
}

/// Calendar order.
pub open spec fn date_lt(a: Date, b: Date) -> bool {
    a.year < b.year || (a.year == b.year && (a.month < b.month || (a.month == b.month && a.day < b.day)))
}

/// The month before `(y, m)`.
pub open spec fn spec_prev_month(y: int, m: int) -> (int, int) {
    if m == 1 { (y - 1, 12) } else { (y, m - 1) }
}

/// The month after `(y, m)`.
pub open spec fn spec_next_month(y: int, m: int) -> (int, int) {
    if m == 12 { (y + 1, 1) } else { (y, m + 1) }
}

/// The reset day within month `(y, m)`, clamped to the month's last day.
pub open spec fn anchor(y: int, m: int, reset_day: int) -> Date {
    Date {
        year: y as i32,
        month: m as u32,
        day: (if reset_day <= month_len(y, m) { reset_day } else { month_len(y, m) }) as u32,
    }
}

/// The cycle `[start, end)` containing `today`: it starts on this month's
/// anchor when today is on or after it, otherwise on the previous month's;
/// it ends on the following month's anchor.
pub open spec fn cycle_of(today: Date, reset_day: int) -> (Date, Date) {
    let this = anchor(today.year as int, today.month as int, reset_day);
    let start = if date_lt(today, this) {
        let pm = spec_prev_month(today.year as int, today.month as int);
        anchor(pm.0, pm.1, reset_day)
    } else {
        this
    };
    let nm = spec_next_month(start.year as int, start.month as int);
    (start, anchor(nm.0, nm.1, reset_day))
}

/// The month before `(year, month)`.
pub fn prev_month(year: i32, month: u32) -> (r: (i32, u32))
    requires
        month >= 1,
        month == 1 ==> year > i32::MIN,
    ensures
        (r.0 as int, r.1 as int) == spec_prev_month(year as int, month as int),
{
    if month == 1 { (year - 1, 12) } else { (year, month - 1) }
}

/// The month after `(year, month)`.
pub fn next_month(year: i32, month: u32) -> (r: (i32, u32))
    requires
        month == 12 ==> year < i32::MAX,
        month != 12 ==> month < u32::MAX,
    ensures
        (r.0 as int, r.1 as int) == spec_next_month(year as int, month as int),
{
    if month == 12 { (year + 1, 1) } else { (year, month + 1) }
}

/// Number of days in `month` of `year`.
pub fn days_in_month(year: i32, month: u32) -> (r: u32)
    requires
        1 <= month <= 12,
    ensures
        r as int == month_len(year as int, month as int),
{
    if month == 2 {
        let leap = (year % 4 == 0 && year % 100 != 0) || year % 400 == 0;
        if leap { 29 } else { 28 }
    } else if month == 4 || month == 6 || month == 9 || month == 11 {
        30
    } else {
        31
    }
}

/// The reset date within a month, clamped to the month's last day.
pub fn month_anchor(year: i32, month: u32, reset_day: u32) -> (d: Date)
    requires
        1 <= month <= 12,
        MIN_YEAR <= year <= MAX_YEAR,
        1 <= reset_day,
    ensures
        d == anchor(year as int, month as int, reset_day as int),
        valid_date(d),
{
    let dim = days_in_month(year, month);
    let day = if reset_day <= dim { reset_day } else { dim };
    Date { year, month, day }
}

/// Whether `a` comes before `b` in the calendar.
pub fn date_before(a: Date, b: Date) -> (r: bool)
    ensures
        r == date_lt(a, b),
{
    a.year < b.year || (a.year == b.year && (a.month < b.month || (a.month == b.month && a.day < b.day)))
}

/// The month the cycle containing `today` starts in.
pub open spec fn start_month(today: Date, reset_day: int) -> (int, int) {
    if date_lt(today, anchor(today.year as int, today.month as int, reset_day)) {
        spec_prev_month(today.year as int, today.month as int)
    } else {
        (today.year as int, today.month as int)
    }
}

/// Every month the cycle computation looks at, and the month after each
/// (whose first day gives a month's length), lies within the calendar
/// `chrono::NaiveDate` holds: today is not in the calendar's last December,
/// not before the reset day of its first January, and the cycle does not
/// start in its last November or December.
pub open spec fn cycle_in_range(today: Date, reset_day: int) -> bool {
    let sm = start_month(today, reset_day);
    &&& !(today.year == MAX_YEAR && today.month == 12)
    &&& !(today.year == MIN_YEAR && today.month == 1 && date_lt(
        today,
        anchor(today.year as int, today.month as int, reset_day),
    ))
    &&& !(sm.0 == MAX_YEAR && sm.1 >= 11)
}

/// Whether the cycle containing `today` can be computed (see
/// [`cycle_in_range`]).
pub fn cycle_computable(today: Date, reset_day: u32) -> (r: bool)
    requires
        valid_date(today),
        1 <= reset_day <= 31,
    ensures
        r == cycle_in_range(today, reset_day as int),
{
    if today.year == MAX_YEAR && today.month == 12 {
        return false;
    }
    let this_start = month_anchor(today.year, today.month, reset_day);
    let before = date_before(today, this_start);
    if today.year == MIN_YEAR && today.month == 1 && before {
        return false;
    }
    let (y, m) = if before { prev_month(today.year, today.month) } else { (today.year, today.month) };
    !(y == MAX_YEAR && m >= 11)
}

/// `(cycle_start, cycle_end)` of the budget cycle containing `today` for a
/// reset day in 1..=31; `cycle_end` is the next cycle's start.
pub fn cycle_bounds(today: Date, reset_day: u32) -> (r: (Date, Date))
    requires
        valid_date(today),
        1 <= reset_day <= 31,
        cycle_in_range(today, reset_day as int),
    ensures
        r == cycle_of(today, reset_day as int),
        valid_date(r.0),
        valid_date(r.1),
{
    let this_start = month_anchor(today.year, today.month, reset_day);
    let start = if date_before(today, this_start) {
        let (y, m) = prev_month(today.year, today.month);
        month_anchor(y, m, reset_day)
    } else {
        this_start
    };
    let (y, m) = next_month(start.year, start.month);
    let end = month_anchor(y, m, reset_day);
    (start, end)
}

/// The cycle containing a day really contains it: the start is on or
/// before the day and the end after it; the start falls on the reset day
/// (or the last day of a shorter month) and the end one month later.
pub proof fn lemma_cycle_contains_today(today: Date, reset_day: int)
    requires
        valid_date(today),
        1 <= reset_day <= 31,
        cycle_in_range(today, reset_day),
    ensures
        ({
            let (start, end) = cycle_of(today, reset_day);
            &&& !date_lt(today, start)
            &&& date_lt(today, end)
            &&& start.day as int == if reset_day <= month_len(start.year as int, start.month as int) { reset_day } else { month_len(start.year as int, start.month as int) }
            &&& (end.year as int, end.month as int) == spec_next_month(start.year as int, start.month as int)
            &&& end.day as int == if reset_day <= month_len(end.year as int, end.month as int) { reset_day } else { month_len(end.year as int, end.month as int) }
            &&& valid_date(start) && valid_date(end)
        }),
{
}

/// Reminder tier of a usage against a positive budget (both in cents):
/// 3 from 100%, 2 from 80%, 1 from 50%, else 0.
pub open spec fn usage_tier(used: int, budget: int) -> u32 {
    if used >= budget {
        TIER_100
    } else if 5 * used >= 4 * budget {
        TIER_80
    } else if 2 * used >= budget {
        TIER_50
    } else {
        0
    }
}

/// The reminder tier of `used` cents against a budget of `budget` cents.
pub fn tier_for_usage(used: i64, budget: i64) -> (t: u32)
    requires
        budget > 0,
    ensures
        t == usage_tier(used as int, budget as int),
{
    let u = used as i128;
    let b = budget as i128;
    if u >= b {
        TIER_100
    } else if 5 * u >= 4 * b {
        TIER_80
    } else if 2 * u >= b {
        TIER_50
    } else {
        0
    }
}

/// Tiers only rise with usage.
pub proof fn lemma_tier_monotonic(u1: int, u2: int, budget: int)
    requires
        budget > 0,
        u1 <= u2,
    ensures
        usage_tier(u1, budget) <= usage_tier(u2, budget),
{
}

} // verus!

verus! {

/// The decimal digit of `n % 10`.
pub open spec fn dec_digit(n: int) -> char {
    (48 + n % 10) as char
}

/// `YYYY-MM-DD` with zero padding, for years 0..=9999.
pub open spec fn iso_day_text(d: Date) -> Seq<char> {
    let y = d.year as int;
    seq![
        dec_digit(y / 1000), dec_digit(y / 100), dec_digit(y / 10), dec_digit(y),
        '-', dec_digit(d.month as int / 10), dec_digit(d.month as int),
        '-', dec_digit(d.day as int / 10), dec_digit(d.day as int),
    ]
}

/// What `NaiveDate::format("%Y-%m-%d")` writes for a day.
pub uninterp spec fn day_text(d: Date) -> Seq<char>;

/// `chrono::NaiveDate::format` with `%Y-%m-%d`: the day's text. For years
/// 0..=9999 chrono documents a zero-padded four-digit year (stated); other
/// years carry a sign and are only named.
#[verifier::external_body]
fn format_day(d: Date) -> (s: String)
    requires
        valid_date(d),
    ensures
        s@ == day_text(d),
        0 <= d.year <= 9999 ==> s@ == iso_day_text(d),
{
    chrono::NaiveDate::from_ymd_opt(d.year, d.month, d.day).unwrap().format("%Y-%m-%d").to_string()
}

/// `chrono::Utc::now().date_naive()`: today's date in UTC. Which day it is
/// depends on the clock and is not stated; it is a valid date.
#[verifier::external_body]
fn today_utc() -> (d: Date)
    ensures
        valid_date(d),
{
    let n = chrono::Utc::now().date_naive();
    Date { year: chrono::Datelike::year(&n), month: chrono::Datelike::month(&n), day: chrono::Datelike::day(&n) }
}

/// The budget gauge of the current cycle (the percentage is derived by the
/// caller from `used` and `budget`).
#[derive(Debug, Clone)]
pub struct BudgetStatus {
    /// Cost of the current cycle in cents (0 when tracking is off).
    pub used: i64,
    /// The configured budget in cents (never negative).
    pub budget: i64,
    /// Reminder tier 0..=3.
    pub tier: u32,
    /// The reset day as used (clamped to 1..=31).
    pub reset_day: u32,
    /// Cycle start date (`YYYY-MM-DD`).
    pub cycle_start: String,
    /// Next cycle's start date (`YYYY-MM-DD`), the exclusive end.
    pub cycle_end: String,
}

/// The reset day clamped to 1..=31.
pub open spec fn clamp_reset_day(r: u32) -> u32 {
    if r < 1 { 1 } else if r > 31 { 31 } else { r }
}

/// `s` is the status of the cycle containing `today` for `used_cents`
/// spent in it: with tracking disabled or a budget of 0 or less, nothing
/// is used and no reminder is due; otherwise the tier follows the ratio of
/// usage to budget.
pub open spec fn status_of(s: BudgetStatus, used_cents: i64, budget_cents: i64, reset_day: u32, enabled: bool, today: Date) -> bool {
    let rd = clamp_reset_day(reset_day);
    let (start, end) = cycle_of(today, rd as int);
    &&& s.reset_day == rd
    &&& s.cycle_start@ == day_text(start)
    &&& s.cycle_end@ == day_text(end)
    &&& (0 <= start.year <= 9999 ==> s.cycle_start@ == iso_day_text(start))
    &&& (0 <= end.year <= 9999 ==> s.cycle_end@ == iso_day_text(end))
    &&& if !enabled || budget_cents <= 0 {
        s.used == 0 && s.budget == (if budget_cents > 0 { budget_cents } else { 0 }) && s.tier == 0
    } else {
        s.used == used_cents && s.budget == budget_cents && s.tier == usage_tier(used_cents as int, budget_cents as int)
    }
}

/// The status of the cycle containing `today` for `used_cents` spent in it:
/// with tracking disabled or a budget of 0 or less, nothing is used and no
/// reminder is due; otherwise the tier follows the ratio of usage to budget.
pub fn budget_status_at(used_cents: i64, budget_cents: i64, reset_day: u32, enabled: bool, today: Date) -> (s: BudgetStatus)
    requires
        valid_date(today),
        cycle_in_range(today, clamp_reset_day(reset_day) as int),
    ensures
        status_of(s, used_cents, budget_cents, reset_day, enabled, today),
{
    let rd = if reset_day < 1 { 1 } else if reset_day > 31 { 31 } else { reset_day };
    let (start, end) = cycle_bounds(today, rd);
    let cycle_start = format_day(start);
    let cycle_end = format_day(end);
    if !enabled || budget_cents <= 0 {
        BudgetStatus {
            used: 0,
            budget: if budget_cents > 0 { budget_cents } else { 0 },
            tier: 0,
            reset_day: rd,
            cycle_start,
            cycle_end,
        }
    } else {
        BudgetStatus {
            used: used_cents,
            budget: budget_cents,
            tier: tier_for_usage(used_cents, budget_cents),
            reset_day: rd,
            cycle_start,
            cycle_end,
        }
    }
}

/// The status for `today` (see [`status_of`]); an error where the cycle
/// reaches past the calendar `chrono::NaiveDate` holds (see
/// [`cycle_in_range`]).
pub fn budget_status_for(used_cents: i64, budget_cents: i64, reset_day: u32, enabled: bool, today: Date) -> (r: Result<BudgetStatus, String>)
    requires
        valid_date(today),
    ensures
        r is Ok <==> cycle_in_range(today, clamp_reset_day(reset_day) as int),
        r matches Ok(s) ==> status_of(s, used_cents, budget_cents, reset_day, enabled, today),
        r matches Err(e) ==> e@ == "date out of range"@,
{
    let rd = if reset_day < 1 { 1 } else if reset_day > 31 { 31 } else { reset_day };
    if !cycle_computable(today, rd) {
        return Err("date out of range".to_string());
    }
    Ok(budget_status_at(used_cents, budget_cents, reset_day, enabled, today))
}

/// The status for today (UTC), read from the clock (see
/// [`budget_status_for`]).
pub fn budget_status(used_cents: i64, budget_cents: i64, reset_day: u32, enabled: bool) -> (r: Result<BudgetStatus, String>)
    ensures
        exists|today: Date| {
            &&& valid_date(today)
            &&& (r is Ok <==> cycle_in_range(today, clamp_reset_day(reset_day) as int))
            &&& (r matches Ok(s) ==> status_of(s, used_cents, budget_cents, reset_day, enabled, today))
            &&& (r matches Err(e) ==> e@ == "date out of range"@)
        },
{
    let today = today_utc();
    budget_status_for(used_cents, budget_cents, reset_day, enabled, today)
}

} // verus!

verus! {

/// The budget settings.
#[derive(Debug, Clone)]
pub struct BudgetConfig {
    /// The budget in cents (0 when not set).
    pub budget_cents: i64,
    /// The day of the month a cycle starts (1..=31).
    pub reset_day: i64,
    /// Whether tracking is on.
    pub enabled: bool,
}

impl BudgetConfig {
    /// The settings as stored: the reset day is clamped to 1..=31 (shorter
    /// months clamp it further when a cycle is computed).
    pub fn stored(budget_cents: i64, reset_day: i64, enabled: bool) -> (r: Self)
        ensures
            r.budget_cents == budget_cents,
            r.reset_day == if reset_day < 1 { 1 } else if reset_day > 31 { 31 } else { reset_day },
            r.enabled == enabled,
    {
        let day = if reset_day < 1 { 1 } else if reset_day > 31 { 31 } else { reset_day };
        BudgetConfig { budget_cents, reset_day: day, enabled }
    }

    /// The settings before any are stored: no budget, cycles start on the
    /// first, tracking off.
    pub fn unset() -> (r: Self)
        ensures
            r.budget_cents == 0,
            r.reset_day == 1,
            !r.enabled,
    {
        BudgetConfig { budget_cents: 0, reset_day: 1, enabled: false }
    }
}

// ─── Reuse of a recent status ──────────────────────────────────────────────

/// How long a computed status is reused, in milliseconds.
pub const STATUS_REUSE_MS: u128 = 60000;

/// What a computed status was computed for: the settings as used and the
/// cycle.
#[derive(Debug, Clone)]
pub struct StatusKey {
    pub budget_cents: i64,
    pub reset_day: u32,
    pub enabled: bool,
    pub cycle_start: String,
    pub cycle_end: String,
}

/// The key of a status computed with these settings.
pub fn status_key(s: &BudgetStatus, budget_cents: i64, enabled: bool) -> (k: StatusKey)
    ensures
        k.budget_cents == budget_cents,
        k.reset_day == s.reset_day,
        k.enabled == enabled,
        k.cycle_start@ == s.cycle_start@,
        k.cycle_end@ == s.cycle_end@,
{
    StatusKey {
        budget_cents,
        reset_day: s.reset_day,
        enabled,
        cycle_start: s.cycle_start.clone(),
        cycle_end: s.cycle_end.clone(),
    }
}

/// A status computed `age_ms` milliseconds ago under `stored` may be given
/// again for `key`: it is younger than [`STATUS_REUSE_MS`] and was
/// computed for the same settings and cycle.
pub fn status_reusable(stored: &StatusKey, age_ms: u128, key: &StatusKey) -> (r: bool)
    ensures
        r == (age_ms < STATUS_REUSE_MS
            && stored.budget_cents == key.budget_cents
            && stored.reset_day == key.reset_day
            && stored.enabled == key.enabled
            && stored.cycle_start@ == key.cycle_start@
            && stored.cycle_end@ == key.cycle_end@),
{
    age_ms < STATUS_REUSE_MS
        && stored.budget_cents == key.budget_cents
        && stored.reset_day == key.reset_day
        && stored.enabled == key.enabled
        && crate::text::same_text(stored.cycle_start.as_str(), key.cycle_start.as_str())
        && crate::text::same_text(stored.cycle_end.as_str(), key.cycle_end.as_str())
}

} // verus!
