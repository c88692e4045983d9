//! Calendar-aware arithmetic on UNIX timestamps.
//!
//! Two ways of moving a ledger clock exist side by side: fixed-second arithmetic
//! (a day is always 86,400 seconds) and calendar arithmetic, which follows the
//! Gregorian calendar's variable month lengths and leap years. The functions here
//! are the calendar half: [`add_months`] and [`add_years`] move a timestamp by
//! calendar units and clamp a day that does not exist in the target month (Jan 31
//! plus one month is the last day of February). Everything is UTC.
use vstd::prelude::*;
use vstd::arithmetic::div_mod::*;

verus! {

// ── The calendar, stated directly ───────────────────────────────────────────
/// Gregorian leap-year rule.
pub open spec fn is_leap(y: int) -> bool {
    y % 4 == 0 && (y % 100 != 0 || y % 400 == 0)
}

/// Number of days in year `y`.
pub open spec fn year_len(y: int) -> int {
    if is_leap(y) {
        366
    } else {
        365
    }
}

/// Number of days in month `m` (1 to 12) of year `y`.
pub open spec fn month_len(y: int, m: int) -> int {
    if m == 2 {
        if is_leap(y) {
            29
        } else {
            28
        }
    } else if m == 4 || m == 6 || m == 9 || m == 11 {
        30
    } else {
        31
    }
}

/// Days in the months of year `y` that come before month `m`.
pub open spec fn days_before_month(y: int, m: int) -> int
    decreases m,
{
    if m <= 1 {
        0
    } else {
        days_before_month(y, m - 1) + month_len(y, m - 1)
    }
}

/// Number of leap years among the years `1 ..= y - 1` (negative below year 1).
pub open spec fn leap_years_before(y: int) -> int {
    (y - 1) / 4 - (y - 1) / 100 + (y - 1) / 400
}

/// Days from 1970-01-01 to January 1 of year `y` (negative before 1970).
pub open spec fn days_before_year(y: int) -> int {
    365 * (y - 1970) + leap_years_before(y) - leap_years_before(1970)
}

/// Days from 1970-01-01 to the given date.
pub open spec fn epoch_day(y: int, m: int, d: int) -> int {
    days_before_year(y) + days_before_month(y, m) + d - 1
}

/// A calendar date and time of day: `(year, month, day, hour, minute, second)`.
pub type CivilTime = (int, int, int, int, int, int);

/// The tuple names an existing date with a time of day.
pub open spec fn valid_datetime(t: CivilTime) -> bool {
    &&& 1 <= t.1 <= 12
    &&& 1 <= t.2 <= month_len(t.0, t.1)
    &&& 0 <= t.3 < 24
    &&& 0 <= t.4 < 60
    &&& 0 <= t.5 < 60
}

/// Seconds since the UNIX epoch of a calendar time.
pub open spec fn unix_of(t: CivilTime) -> int {
    epoch_day(t.0, t.1, t.2) * 86400 + t.3 * 3600 + t.4 * 60 + t.5
}

/// The calendar time of a timestamp.
pub open spec fn datetime_of(ts: int) -> CivilTime {
    choose|t: CivilTime| valid_datetime(t) && unix_of(t) == ts
}

/// The first second of year 2^31, the first year an `i32` cannot hold.
pub open spec fn first_unrepresentable_ts() -> int {
    unix_of((0x8000_0000, 1, 1, 0, 0, 0))
}

/// Calendar time moved forward by `months` whole months, the day clamped to the
/// length of the target month.
pub open spec fn add_months_spec(t: CivilTime, months: int) -> CivilTime {
    let total = t.0 * 12 + (t.1 - 1) + months;
    let ny = total / 12;
    let nm = total % 12 + 1;
    let nd = if t.2 <= month_len(ny, nm) {
        t.2
    } else {
        month_len(ny, nm)
    };
    (ny, nm, nd, t.3, t.4, t.5)
}

/// Calendar time moved forward by `years` whole years, Feb 29 clamped to Feb 28.
pub open spec fn add_years_spec(t: CivilTime, years: int) -> CivilTime {
    let ny = t.0 + years;
    let nd = if t.2 <= month_len(ny, t.1) {
        t.2
    } else {
        month_len(ny, t.1)
    };
    (ny, t.1, nd, t.3, t.4, t.5)
}

/// The largest year that [`add_months`] and [`add_years`] accept as a target.
pub open spec fn max_target_year() -> int {
    584_554
}

// ── A March-based count of days, used by the conversions ───────────────────
/// Days from 0000-03-01 to March 1 of year `yp`.
pub open spec fn march_start(yp: int) -> int {
    365 * yp + yp / 4 - yp / 100 + yp / 400
}

/// Days from March 1 to the first of the `k`-th month counted from March.
pub open spec fn month_offset(k: int) -> int {
    (153 * k + 2) / 5
}

proof fn lemma_floor_step(y: int, k: int)
    requires
        k > 0,
    ensures
        y / k - (y - 1) / k == (if y % k == 0 {
            1int
        } else {
            0int
        }),
{
    lemma_fundamental_div_mod(y, k);
    lemma_mod_bound(y, k);
    let q = y / k;
    let r = y % k;
    if r == 0 {
        assert(y - 1 == (q - 1) * k + (k - 1)) by (nonlinear_arith)
            requires
                y == k * q + r,
                r == 0,
        ;
        lemma_fundamental_div_mod_converse(y - 1, k, q - 1, k - 1);
    } else {
        assert(y - 1 == q * k + (r - 1)) by (nonlinear_arith)
            requires
                y == k * q + r,
        ;
        lemma_fundamental_div_mod_converse(y - 1, k, q, r - 1);
    }
}

proof fn lemma_divisibility_chain(y: int)
    ensures
        y % 100 == 0 ==> y % 4 == 0,
        y % 400 == 0 ==> y % 100 == 0,
{
    if y % 100 == 0 {
        lemma_fundamental_div_mod(y, 100);
        let q = y / 100;
        assert(y == (25 * q) * 4 + 0) by (nonlinear_arith)
            requires
                y == 100 * q + 0,
        ;
        lemma_fundamental_div_mod_converse(y, 4, 25 * q, 0);
    }
    if y % 400 == 0 {
        lemma_fundamental_div_mod(y, 400);
        let q = y / 400;
        assert(y == (4 * q) * 100 + 0) by (nonlinear_arith)
            requires
                y == 400 * q + 0,
        ;
        lemma_fundamental_div_mod_converse(y, 100, 4 * q, 0);
    }
}

proof fn lemma_leap_step(y: int)
    ensures
        (y / 4 - (y - 1) / 4) - (y / 100 - (y - 1) / 100) + (y / 400 - (y - 1) / 400) == (
        if is_leap(y) {
            1int
        } else {
            0int
        }),
{
    lemma_floor_step(y, 4);
    lemma_floor_step(y, 100);
    lemma_floor_step(y, 400);
    lemma_divisibility_chain(y);
}

/// Each calendar year adds its own length to the day count.
pub proof fn lemma_days_before_year_step(y: int)
    ensures
        days_before_year(y + 1) == days_before_year(y) + year_len(y),
{
    lemma_leap_step(y);
}

proof fn lemma_march_start_step(yp: int)
    ensures
        march_start(yp + 1) == march_start(yp) + year_len(yp + 1),
{
    lemma_leap_step(yp + 1);
}

proof fn lemma_march_start_is_days_before_year(yp: int)
    ensures
        march_start(yp) == days_before_year(yp + 1) + 719_162,
{
}

proof fn lemma_march_start_monotone(a: int, b: int)
    requires
        a <= b,
    ensures
        march_start(a) + 365 * (b - a) <= march_start(b),
    decreases b - a,
{
    if a < b {
        lemma_march_start_monotone(a, b - 1);
        lemma_march_start_step(b - 1);
    }
}

/// The day count grows by at least 365 and at most 366 days a year.
pub proof fn lemma_days_before_year_bounds(a: int, b: int)
    requires
        a <= b,
    ensures
        days_before_year(a) + 365 * (b - a) <= days_before_year(b),
        days_before_year(b) <= days_before_year(a) + 366 * (b - a),
    decreases b - a,
{
    if a < b {
        lemma_days_before_year_bounds(a, b - 1);
        lemma_days_before_year_step(b - 1);
    }
}

proof fn lemma_march_start_era(era: int, k: int)
    ensures
        march_start(400 * era + k) == 146_097 * era + march_start(k),
{
    lemma_fundamental_div_mod(k, 4);
    lemma_fundamental_div_mod(k, 100);
    lemma_fundamental_div_mod(k, 400);
    lemma_mod_bound(k, 4);
    lemma_mod_bound(k, 100);
    lemma_mod_bound(k, 400);
    let x = 400 * era + k;
    assert(x == (100 * era + k / 4) * 4 + k % 4) by (nonlinear_arith)
        requires
            x == 400 * era + k,
            k == 4 * (k / 4) + k % 4,
    ;
    assert(x == (4 * era + k / 100) * 100 + k % 100) by (nonlinear_arith)
        requires
            x == 400 * era + k,
            k == 100 * (k / 100) + k % 100,
    ;
    assert(x == (era + k / 400) * 400 + k % 400) by (nonlinear_arith)
        requires
            x == 400 * era + k,
            k == 400 * (k / 400) + k % 400,
    ;
    lemma_fundamental_div_mod_converse(x, 4, 100 * era + k / 4, k % 4);
    lemma_fundamental_div_mod_converse(x, 100, 4 * era + k / 100, k % 100);
    lemma_fundamental_div_mod_converse(x, 400, era + k / 400, k % 400);
}

proof fn lemma_leap_period(y: int, era: int)
    ensures
        is_leap(y + 400 * era) == is_leap(y),
{
    lemma_fundamental_div_mod(y, 4);
    lemma_fundamental_div_mod(y, 100);
    lemma_fundamental_div_mod(y, 400);
    lemma_mod_bound(y, 4);
    lemma_mod_bound(y, 100);
    lemma_mod_bound(y, 400);
    let x = y + 400 * era;
    assert(x == (y / 4 + 100 * era) * 4 + y % 4) by (nonlinear_arith)
        requires
            x == y + 400 * era,
            y == 4 * (y / 4) + y % 4,
    ;
    assert(x == (y / 100 + 4 * era) * 100 + y % 100) by (nonlinear_arith)
        requires
            x == y + 400 * era,
            y == 100 * (y / 100) + y % 100,
    ;
    assert(x == (y / 400 + era) * 400 + y % 400) by (nonlinear_arith)
        requires
            x == y + 400 * era,
            y == 400 * (y / 400) + y % 400,
    ;
    lemma_fundamental_div_mod_converse(x, 4, y / 4 + 100 * era, y % 4);
    lemma_fundamental_div_mod_converse(x, 100, y / 100 + 4 * era, y % 100);
    lemma_fundamental_div_mod_converse(x, 400, y / 400 + era, y % 400);
}

proof fn lemma_days_before_month_values(y: int)
    ensures
        days_before_month(y, 1) == 0,
        days_before_month(y, 2) == 31,
        forall|m: int|
            3 <= m <= 12 ==> #[trigger] days_before_month(y, m) == 59 + (if is_leap(y) {
                1int
            } else {
                0int
            }) + month_offset(m - 3),
        days_before_month(y, 13) == year_len(y),
{
    reveal_with_fuel(days_before_month, 14);
    assert(month_offset(0) == 0);
    assert(month_offset(1) == 31);
    assert(month_offset(2) == 61);
    assert(month_offset(3) == 92);
    assert(month_offset(4) == 122);
    assert(month_offset(5) == 153);
    assert(month_offset(6) == 184);
    assert(month_offset(7) == 214);
    assert(month_offset(8) == 245);
    assert(month_offset(9) == 275);
}

proof fn lemma_month_offsets()
    ensures
        month_offset(0) == 0,
        month_offset(1) == 31,
        month_offset(2) == 61,
        month_offset(3) == 92,
        month_offset(4) == 122,
        month_offset(5) == 153,
        month_offset(6) == 184,
        month_offset(7) == 214,
        month_offset(8) == 245,
        month_offset(9) == 275,
        month_offset(10) == 306,
        month_offset(11) == 337,
        month_offset(12) == 367,
{
}

/// The March-based shift of a civil month: `(year offset, month index from March)`.
pub open spec fn march_shift(y: int, m: int) -> (int, int) {
    if m <= 2 {
        (y - 1, m + 9)
    } else {
        (y, m - 3)
    }
}

proof fn lemma_epoch_day_march(y: int, m: int, d: int)
    requires
        1 <= m <= 12,
    ensures
        epoch_day(y, m, d) == march_start(march_shift(y, m).0) + month_offset(march_shift(y, m).1)
            + d - 1 - 719_468,
{
    lemma_days_before_month_values(y);
    lemma_month_offsets();
    lemma_march_start_is_days_before_year(y);
    lemma_march_start_is_days_before_year(y - 1);
    lemma_days_before_year_step(y);
    if m >= 3 {
        assert(days_before_month(y, m) == 59 + (if is_leap(y) {
            1int
        } else {
            0int
        }) + month_offset(m - 3));
    }
}

/// A date lies between the start of its March-based year and the next one.
proof fn lemma_march_position(y: int, m: int, d: int)
    requires
        1 <= m <= 12,
        1 <= d <= month_len(y, m),
    ensures
        0 <= month_offset(march_shift(y, m).1) + d - 1,
        month_offset(march_shift(y, m).1) + d - 1 < year_len(march_shift(y, m).0 + 1),
        month_offset(march_shift(y, m).1) + d - 1 < month_offset(march_shift(y, m).1 + 1),
{
    lemma_month_offsets();
}

// ── Uniqueness of the calendar decomposition ────────────────────────────────
proof fn lemma_time_of_day_unique(h1: int, mi1: int, s1: int, h2: int, mi2: int, s2: int)
    requires
        0 <= h1 < 24,
        0 <= mi1 < 60,
        0 <= s1 < 60,
        0 <= h2 < 24,
        0 <= mi2 < 60,
        0 <= s2 < 60,
        h1 * 3600 + mi1 * 60 + s1 == h2 * 3600 + mi2 * 60 + s2,
    ensures
        h1 == h2 && mi1 == mi2 && s1 == s2,
{
    let x = h1 * 3600 + mi1 * 60 + s1;
    lemma_fundamental_div_mod_converse(x, 3600, h1, mi1 * 60 + s1);
    lemma_fundamental_div_mod_converse(x, 3600, h2, mi2 * 60 + s2);
    lemma_fundamental_div_mod_converse(mi1 * 60 + s1, 60, mi1, s1);
    lemma_fundamental_div_mod_converse(mi2 * 60 + s2, 60, mi2, s2);
}

proof fn lemma_month_offset_monotone(a: int, b: int)
    requires
        0 <= a < b <= 12,
    ensures
        month_offset(a + 1) <= month_offset(b),
{
    lemma_month_offsets();
}

proof fn lemma_epoch_day_unique(y1: int, m1: int, d1: int, y2: int, m2: int, d2: int)
    requires
        1 <= m1 <= 12,
        1 <= d1 <= month_len(y1, m1),
        1 <= m2 <= 12,
        1 <= d2 <= month_len(y2, m2),
        epoch_day(y1, m1, d1) == epoch_day(y2, m2, d2),
    ensures
        y1 == y2 && m1 == m2 && d1 == d2,
{
    lemma_epoch_day_march(y1, m1, d1);
    lemma_epoch_day_march(y2, m2, d2);
    lemma_march_position(y1, m1, d1);
    lemma_march_position(y2, m2, d2);
    let (p1, k1) = march_shift(y1, m1);
    let (p2, k2) = march_shift(y2, m2);
    if p1 < p2 {
        lemma_march_start_monotone(p1 + 1, p2);
        lemma_march_start_step(p1);
    } else if p2 < p1 {
        lemma_march_start_monotone(p2 + 1, p1);
        lemma_march_start_step(p2);
    }
    assert(p1 == p2);
    if k1 < k2 {
        lemma_month_offset_monotone(k1, k2);
    } else if k2 < k1 {
        lemma_month_offset_monotone(k2, k1);
    }
    assert(k1 == k2);
}

/// Two valid calendar times with the same timestamp are the same calendar time.
pub proof fn lemma_unix_of_injective(a: CivilTime, b: CivilTime)
    requires
        valid_datetime(a),
        valid_datetime(b),
        unix_of(a) == unix_of(b),
    ensures
        a == b,
{
    let x = unix_of(a);
    lemma_fundamental_div_mod_converse(x, 86400, epoch_day(a.0, a.1, a.2), a.3 * 3600 + a.4 * 60 + a.5);
    lemma_fundamental_div_mod_converse(x, 86400, epoch_day(b.0, b.1, b.2), b.3 * 3600 + b.4 * 60 + b.5);
    lemma_time_of_day_unique(a.3, a.4, a.5, b.3, b.4, b.5);
    lemma_epoch_day_unique(a.0, a.1, a.2, b.0, b.1, b.2);
}

/// A valid calendar time is the calendar time of its own timestamp.
pub proof fn lemma_datetime_of_unix(t: CivilTime)
    requires
        valid_datetime(t),
    ensures
        datetime_of(unix_of(t)) == t,
{
    let c = datetime_of(unix_of(t));
    assert(valid_datetime(c) && unix_of(c) == unix_of(t));
    lemma_unix_of_injective(c, t);
}

proof fn lemma_year_from_epoch_day(y: int, m: int, d: int)
    requires
        1 <= m <= 12,
        1 <= d <= month_len(y, m),
    ensures
        days_before_year(y) <= epoch_day(y, m, d) < days_before_year(y + 1),
{
    lemma_days_before_month_values(y);
    lemma_days_before_year_step(y);
    lemma_month_offsets();
    reveal_with_fuel(days_before_month, 14);
}

/// A date on or after the epoch lies in 1970 or later, and its year bounds its day.
pub proof fn lemma_epoch_day_year_bounds(y: int, m: int, d: int)
    requires
        1 <= m <= 12,
        1 <= d <= month_len(y, m),
    ensures
        epoch_day(y, m, d) >= 0 ==> y >= 1970,
        y >= 1970 ==> epoch_day(y, m, d) >= 0,
        forall|b: int| y < b ==> epoch_day(y, m, d) < #[trigger] days_before_year(b),
        forall|b: int| b <= y ==> #[trigger] days_before_year(b) <= epoch_day(y, m, d),
{
    lemma_year_from_epoch_day(y, m, d);
    if y < 1970 {
        lemma_days_before_year_bounds(y + 1, 1970);
    } else {
        lemma_days_before_year_bounds(1970, y);
    }
    assert forall|b: int| y < b implies epoch_day(y, m, d) < #[trigger] days_before_year(b) by {
        lemma_days_before_year_bounds(y + 1, b);
    }
    assert forall|b: int| b <= y implies #[trigger] days_before_year(b) <= epoch_day(y, m, d) by {
        lemma_days_before_year_bounds(b, y);
    }
}

/// Every non-negative timestamp names exactly one calendar time:
/// `datetime_of` gives a valid calendar time whose timestamp is the one given.
pub proof fn lemma_datetime_of_timestamp(ts: int)
    requires
        ts >= 0,
    ensures
        valid_datetime(datetime_of(ts)),
        unix_of(datetime_of(ts)) == ts,
{
    let second = ts % 60;
    let minute = (ts / 60) % 60;
    let hour = (ts / 60 / 60) % 24;
    let days = ts / 60 / 60 / 24;
    lemma_split_seconds(ts, second, minute, hour, days);
    let z = days + 719_468;
    let era = z / 146_097;
    lemma_fundamental_div_mod(z, 146_097);
    lemma_mod_bound(z, 146_097);
    let doe = z - era * 146_097;
    assert(doe == z % 146_097);
    let est = doe / 365;
    let yoe = if march_start(est) > doe {
        est - 1
    } else {
        est
    };
    lemma_year_of_era(doe, est, yoe);
    lemma_march_start_step(yoe);
    let doy = doe - march_start(yoe);
    let mp = (5 * doy + 2) / 153;
    lemma_month_of_day_of_year(doy, mp);
    lemma_march_start_era(era, yoe);
    lemma_assemble_date(era, yoe, doy, mp, days);
    let yp = 400 * era + yoe;
    let y = if mp < 10 {
        yp
    } else {
        yp + 1
    };
    let m = if mp < 10 {
        mp + 3
    } else {
        mp - 9
    };
    let d = doy - month_offset(mp) + 1;
    let t: CivilTime = (y, m, d, hour, minute, second);
    assert(valid_datetime(t) && unix_of(t) == ts);
}

/// Adding zero months leaves every timestamp unchanged.
pub proof fn lemma_add_zero_months(ts: int)
    requires
        ts >= 0,
    ensures
        unix_of(add_months_spec(datetime_of(ts), 0)) == ts,
{
    lemma_datetime_of_timestamp(ts);
    let t = datetime_of(ts);
    let total = t.0 * 12 + (t.1 - 1);
    lemma_fundamental_div_mod_converse(total, 12, t.0, t.1 - 1);
    assert(add_months_spec(t, 0) == t);
}

/// Adding zero years leaves every timestamp unchanged.
pub proof fn lemma_add_zero_years(ts: int)
    requires
        ts >= 0,
    ensures
        unix_of(add_years_spec(datetime_of(ts), 0)) == ts,
{
    lemma_datetime_of_timestamp(ts);
    let t = datetime_of(ts);
    assert(add_years_spec(t, 0) == t);
}

/// Adding months never moves a timestamp backwards.
pub proof fn lemma_add_months_monotone(ts: int, months: int)
    requires
        ts >= 0,
        months >= 0,
    ensures
        unix_of(add_months_spec(datetime_of(ts), months)) >= ts,
{
    lemma_datetime_of_timestamp(ts);
    let t = datetime_of(ts);
    let total = t.0 * 12 + (t.1 - 1) + months;
    lemma_fundamental_div_mod(total, 12);
    lemma_mod_bound(total, 12);
    let n = add_months_spec(t, months);
    lemma_fundamental_div_mod_converse(t.0 * 12 + (t.1 - 1), 12, t.0, t.1 - 1);
    lemma_div_is_ordered(t.0 * 12 + (t.1 - 1), total, 12);
    lemma_epoch_day_year_bounds(t.0, t.1, t.2);
    if n.0 == t.0 {
        lemma_days_before_month_values(t.0);
        lemma_month_offsets();
        reveal_with_fuel(days_before_month, 14);
    } else {
        lemma_epoch_day_year_bounds(n.0, n.1, n.2);
    }
}

// ── Executable functions ────────────────────────────────────────────────────
/// Returns `true` if `year` is a leap year in the Gregorian calendar.
pub fn is_leap_year(year: i32) -> (r: bool)
    ensures
        r == is_leap(year as int),
{
    year % 4 == 0 && (year % 100 != 0 || year % 400 == 0)
}

/// Returns the number of days in `month` (1 to 12) of `year`.
pub fn days_in_month(year: i32, month: u32) -> (r: u32)
    requires
        1 <= month <= 12,
    ensures
        r == month_len(year as int, month as int),
{
    match month {
        1 | 3 | 5 | 7 | 8 | 10 | 12 => 31,
        4 | 6 | 9 | 11 => 30,
        _ => {
            if is_leap_year(year) {
                29
            } else {
                28
            }
        },
    }
}


/// Composes a UNIX timestamp from UTC `(year, month, day, hour, minute, second)`.
///
/// The date must exist, the time of day must be in range, and the moment must lie
/// between the UNIX epoch and the largest `u64` timestamp.
pub fn datetime_to_unix(year: i32, month: u32, day: u32, hour: u32, minute: u32, second: u32) -> (r:
    u64)
    requires
        valid_datetime((year as int, month as int, day as int, hour as int, minute as int, second as int)),
        epoch_day(year as int, month as int, day as int) >= 0,
        unix_of((year as int, month as int, day as int, hour as int, minute as int, second as int))
            <= u64::MAX,
    ensures
        r == unix_of((year as int, month as int, day as int, hour as int, minute as int, second as int)),
{
    proof {
        lemma_epoch_day_year_bounds(year as int, month as int, day as int);
        lemma_epoch_day_march(year as int, month as int, day as int);
    }
    let y: i32 = if month <= 2 {
        year - 1
    } else {
        year
    };
    let m: u32 = if month <= 2 {
        month + 9
    } else {
        month - 3
    };
    let era: i32 = if y >= 0 {
        y / 400
    } else {
        (y - 399) / 400
    };
    let yoe: u32 = (y - era * 400) as u32;
    let doy: u32 = (153 * m + 2) / 5 + day - 1;
    let doe: u32 = yoe * 365 + yoe / 4 - yoe / 100 + doy;
    proof {
        lemma_fundamental_div_mod(y as int, 400);
        lemma_mod_bound(y as int, 400);
        lemma_march_start_era(era as int, yoe as int);
        assert(y as int == 400 * (era as int) + yoe as int);
        assert((yoe as int) / 400 == 0);
        assert(march_start(yoe as int) == yoe * 365 + yoe / 4 - yoe / 100);
    }
    let days: i64 = (era as i64) * 146_097 + (doe as i64) - 719_468;
    assert(days == epoch_day(year as int, month as int, day as int));
    let secs: u64 = (hour as u64) * 3_600 + (minute as u64) * 60 + (second as u64);
    (days as u64) * 86_400 + secs
}

proof fn lemma_split_seconds(ts: int, second: int, minute: int, hour: int, days: int)
    requires
        ts >= 0,
        second == ts % 60,
        minute == (ts / 60) % 60,
        hour == (ts / 60 / 60) % 24,
        days == ts / 60 / 60 / 24,
    ensures
        ts == days * 86400 + hour * 3600 + minute * 60 + second,
        0 <= second < 60,
        0 <= minute < 60,
        0 <= hour < 24,
        days == ts / 86400,
{
    lemma_fundamental_div_mod(ts, 60);
    lemma_fundamental_div_mod(ts / 60, 60);
    lemma_fundamental_div_mod(ts / 60 / 60, 24);
    lemma_mod_bound(ts, 60);
    lemma_mod_bound(ts / 60, 60);
    lemma_mod_bound(ts / 60 / 60, 24);
    assert(ts == days * 86400 + hour * 3600 + minute * 60 + second) by (nonlinear_arith)
        requires
            ts == 60 * (ts / 60) + second,
            ts / 60 == 60 * (ts / 60 / 60) + minute,
            ts / 60 / 60 == 24 * days + hour,
    ;
    lemma_fundamental_div_mod_converse(ts, 86400, days, hour * 3600 + minute * 60 + second);
}

proof fn lemma_year_of_era(doe: int, est: int, yoe: int)
    requires
        0 <= doe < 146_097,
        est == doe / 365,
        yoe == (if march_start(est) > doe {
            est - 1
        } else {
            est
        }),
    ensures
        0 <= yoe <= 399,
        march_start(yoe) <= doe < march_start(yoe + 1),
{
    lemma_fundamental_div_mod(doe, 365);
    lemma_mod_bound(doe, 365);
    assert(0 <= est <= 400) by (nonlinear_arith)
        requires
            doe == 365 * est + doe % 365,
            0 <= doe % 365 < 365,
            0 <= doe < 146_097,
    ;
    assert(march_start(400) == 146_097);
    lemma_div_is_ordered_by_denominator(est, 4, 100);
    if march_start(est) > doe {
        let k = est - 1;
        assert(k >= 0);
        lemma_div_is_ordered(k, 399, 4);
        lemma_div_is_ordered_by_denominator(k, 4, 100);
        assert(march_start(k) <= 365 * k + 99);
    } else {
        lemma_march_start_step(est);
        lemma_div_is_ordered_by_denominator(est + 1, 4, 100);
        assert(march_start(est + 1) >= 365 * (est + 1));
    }
}

proof fn lemma_month_of_day_of_year(doy: int, mp: int)
    requires
        0 <= doy <= 365,
        mp == (5 * doy + 2) / 153,
    ensures
        0 <= mp <= 11,
        month_offset(mp) <= doy < month_offset(mp + 1),
{
    lemma_fundamental_div_mod(5 * doy + 2, 153);
    lemma_mod_bound(5 * doy + 2, 153);
    assert(0 <= mp <= 11) by (nonlinear_arith)
        requires
            5 * doy + 2 == 153 * mp + (5 * doy + 2) % 153,
            0 <= (5 * doy + 2) % 153 < 153,
            0 <= doy <= 365,
    ;
    let q = mp;
    lemma_fundamental_div_mod(153 * q + 2, 5);
    lemma_mod_bound(153 * q + 2, 5);
    lemma_fundamental_div_mod(153 * (q + 1) + 2, 5);
    lemma_mod_bound(153 * (q + 1) + 2, 5);
    assert(month_offset(q) <= doy < month_offset(q + 1)) by (nonlinear_arith)
        requires
            5 * doy + 2 == 153 * q + (5 * doy + 2) % 153,
            0 <= (5 * doy + 2) % 153 < 153,
            153 * q + 2 == 5 * month_offset(q) + (153 * q + 2) % 5,
            0 <= (153 * q + 2) % 5 < 5,
            153 * (q + 1) + 2 == 5 * month_offset(q + 1) + (153 * (q + 1) + 2) % 5,
            0 <= (153 * (q + 1) + 2) % 5 < 5,
    ;
}

proof fn lemma_assemble_date(era: int, yoe: int, doy: int, mp: int, days: int)
    requires
        0 <= yoe <= 399,
        0 <= doy,
        march_start(yoe) + doy < march_start(yoe + 1),
        0 <= mp <= 11,
        month_offset(mp) <= doy < month_offset(mp + 1),
        146_097 * era + march_start(yoe) + doy == days + 719_468,
    ensures
        ({
            let yp = 400 * era + yoe;
            let y = if mp < 10 {
                yp
            } else {
                yp + 1
            };
            let m = if mp < 10 {
                mp + 3
            } else {
                mp - 9
            };
            let d = doy - month_offset(mp) + 1;
            &&& 1 <= m <= 12
            &&& 1 <= d <= month_len(y, m)
            &&& epoch_day(y, m, d) == days
        }),
{
    let yp = 400 * era + yoe;
    let y = if mp < 10 {
        yp
    } else {
        yp + 1
    };
    let m = if mp < 10 {
        mp + 3
    } else {
        mp - 9
    };
    let d = doy - month_offset(mp) + 1;
    lemma_march_start_era(era, yoe);
    lemma_march_start_step(yoe);
    lemma_leap_period(yoe + 1, era);
    lemma_month_offsets();
    assert(march_shift(y, m) == (yp, mp));
    lemma_epoch_day_march(y, m, d);
}

/// Decomposes a UNIX timestamp into UTC `(year, month, day, hour, minute, second)`.
///
/// The year must fit an `i32`.
pub fn unix_to_datetime(ts: u64) -> (r: (i32, u32, u32, u32, u32, u32))
    requires
        ts < first_unrepresentable_ts(),
    ensures
        valid_datetime((r.0 as int, r.1 as int, r.2 as int, r.3 as int, r.4 as int, r.5 as int)),
        unix_of((r.0 as int, r.1 as int, r.2 as int, r.3 as int, r.4 as int, r.5 as int)) == ts,
        (r.0 as int, r.1 as int, r.2 as int, r.3 as int, r.4 as int, r.5 as int) == datetime_of(
            ts as int,
        ),
{
    let mut remaining = ts;
    let second: u32 = (remaining % 60) as u32;
    remaining = remaining / 60;
    let minute: u32 = (remaining % 60) as u32;
    remaining = remaining / 60;
    let hour: u32 = (remaining % 24) as u32;
    let days: u64 = remaining / 24;
    proof {
        lemma_split_seconds(ts as int, second as int, minute as int, hour as int, days as int);
        lemma_days_before_year_bounds(1970, 0x8000_0000);
        assert(days < 0x1_0000_0000_0000);
    }
    let z: i64 = (days as i64) + 719_468;
    let era: i64 = z / 146_097;
    let doe: i64 = z - era * 146_097;
    proof {
        lemma_fundamental_div_mod(z as int, 146_097);
        lemma_mod_bound(z as int, 146_097);
    }
    // The estimate `doe / 365` is at most one year past the year of the era.
    let est: i64 = doe / 365;
    let est_start: i64 = est * 365 + est / 4 - est / 100 + est / 400;
    let yoe: i64 = if est_start > doe {
        est - 1
    } else {
        est
    };
    proof {
        lemma_year_of_era(doe as int, est as int, yoe as int);
        lemma_march_start_step(yoe as int);
    }
    let doy: i64 = doe - (yoe * 365 + yoe / 4 - yoe / 100 + yoe / 400);
    let mp: i64 = (5 * doy + 2) / 153;
    proof {
        lemma_month_of_day_of_year(doy as int, mp as int);
    }
    let d: i64 = doy - (153 * mp + 2) / 5 + 1;
    let m: i64 = if mp < 10 {
        mp + 3
    } else {
        mp - 9
    };
    let yp: i64 = yoe + era * 400;
    let year: i64 = if mp < 10 {
        yp
    } else {
        yp + 1
    };
    proof {
        lemma_assemble_date(era as int, yoe as int, doy as int, mp as int, days as int);
        lemma_epoch_day_year_bounds(year as int, m as int, d as int);
        assert(year < 0x8000_0000);
    }
    let r = (year as i32, m as u32, d as u32, hour, minute, second);
    proof {
        let t = (r.0 as int, r.1 as int, r.2 as int, r.3 as int, r.4 as int, r.5 as int);
        assert(unix_of(t) == ts);
        lemma_datetime_of_unix(t);
    }
    r
}

/// Advances a UNIX timestamp by `months` using calendar month arithmetic.
///
/// When the source day does not exist in the target month (Jan 31 to February),
/// the result is clamped to the last day of that month. The target year may be at
/// most 584,554.
pub fn add_months(ts: u64, months: u32) -> (r: u64)
    requires
        ts < first_unrepresentable_ts(),
        add_months_spec(datetime_of(ts as int), months as int).0 <= max_target_year(),
    ensures
        r == unix_of(add_months_spec(datetime_of(ts as int), months as int)),
{
    let (year, month, day, hour, minute, second) = unix_to_datetime(ts);
    proof {
        lemma_epoch_day_year_bounds(year as int, month as int, day as int);
        lemma_fundamental_div_mod(ts as int, 86400);
    }
    let total: i64 = (year as i64) * 12 + (month as i64 - 1) + (months as i64);
    let new_year: i64 = total / 12;
    let new_month: i64 = total % 12 + 1;
    proof {
        lemma_fundamental_div_mod(total as int, 12);
        lemma_mod_bound(total as int, 12);
        assert(new_year >= year);
    }
    let ny = new_year as i32;
    let nm = new_month as u32;
    let max_day = days_in_month(ny, nm);
    let new_day = if day <= max_day {
        day
    } else {
        max_day
    };
    proof {
        let t = (ny as int, nm as int, new_day as int, hour as int, minute as int, second as int);
        lemma_epoch_day_year_bounds(ny as int, nm as int, new_day as int);
        assert(epoch_day(ny as int, nm as int, new_day as int) < days_before_year(584_555));
        lemma_days_before_year_bounds(1970, 584_555);
        assert(unix_of(t) <= u64::MAX);
    }
    datetime_to_unix(ny, nm, new_day, hour, minute, second)
}

/// Advances a UNIX timestamp by `years` using calendar year arithmetic.
///
/// Feb 29 moved to a non-leap year is clamped to Feb 28. The target year may be at
/// most 584,554.
pub fn add_years(ts: u64, years: u32) -> (r: u64)
    requires
        ts < first_unrepresentable_ts(),
        add_years_spec(datetime_of(ts as int), years as int).0 <= max_target_year(),
    ensures
        r == unix_of(add_years_spec(datetime_of(ts as int), years as int)),
{
    let (year, month, day, hour, minute, second) = unix_to_datetime(ts);
    proof {
        lemma_epoch_day_year_bounds(year as int, month as int, day as int);
        lemma_fundamental_div_mod(ts as int, 86400);
    }
    let new_year: i32 = year + (years as i32);
    let max_day = days_in_month(new_year, month);
    let new_day = if day <= max_day {
        day
    } else {
        max_day
    };
    proof {
        let t = (new_year as int, month as int, new_day as int, hour as int, minute as int, second as int);
        lemma_epoch_day_year_bounds(new_year as int, month as int, new_day as int);
        assert(epoch_day(new_year as int, month as int, new_day as int) < days_before_year(584_555));
        lemma_days_before_year_bounds(1970, 584_555);
        assert(unix_of(t) <= u64::MAX);
    }
    datetime_to_unix(new_year, month, new_day, hour, minute, second)
}

/// The first timestamp in year 2^31, as a number.
pub const FIRST_UNREPRESENTABLE_TS: u64 = 67_767_976_233_532_800;

proof fn lemma_first_unrepresentable_value()
    ensures
        first_unrepresentable_ts() == FIRST_UNREPRESENTABLE_TS,
{
    assert(days_before_month(0x8000_0000, 1) == 0);
}

/// [`add_months`], or `None` where it is not defined: a timestamp past the
/// years an `i32` holds, or a target year past 584,554.
pub fn try_add_months(ts: u64, months: u32) -> (r: Option<u64>)
    ensures
        r is Some <==> (ts < first_unrepresentable_ts() && add_months_spec(
            datetime_of(ts as int),
            months as int,
        ).0 <= max_target_year()),
        r matches Some(v) ==> v == unix_of(add_months_spec(datetime_of(ts as int), months as int)),
{
    proof {
        lemma_first_unrepresentable_value();
    }
    if ts >= FIRST_UNREPRESENTABLE_TS {
        return None;
    }
    let (year, month, _day, _hour, _minute, _second) = unix_to_datetime(ts);
    let total: i64 = (year as i64) * 12 + (month as i64 - 1) + (months as i64);
    let new_year: i64 = total / 12;
    if new_year > 584_554 {
        None
    } else {
        Some(add_months(ts, months))
    }
}

/// [`add_years`], or `None` where it is not defined: a timestamp past the
/// years an `i32` holds, or a target year past 584,554.
pub fn try_add_years(ts: u64, years: u32) -> (r: Option<u64>)
    ensures
        r is Some <==> (ts < first_unrepresentable_ts() && add_years_spec(
            datetime_of(ts as int),
            years as int,
        ).0 <= max_target_year()),
        r matches Some(v) ==> v == unix_of(add_years_spec(datetime_of(ts as int), years as int)),
{
    proof {
        lemma_first_unrepresentable_value();
    }
    if ts >= FIRST_UNREPRESENTABLE_TS {
        return None;
    }
    let (year, _month, _day, _hour, _minute, _second) = unix_to_datetime(ts);
    if (year as i64) + (years as i64) > 584_554 {
        None
    } else {
        Some(add_years(ts, years))
    }
}

} // verus!
