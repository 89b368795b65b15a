//! A proleptic Gregorian calendar model: timestamps as plain fields, day
//! numbering, and truncation to a precision bucket.
use vstd::prelude::*;
use vstd::arithmetic::div_mod::{
    lemma_fundamental_div_mod, lemma_fundamental_div_mod_converse, lemma_mod_bound,
    lemma_mod_add_multiples_vanish, lemma_mod_multiples_basic, lemma_div_multiples_vanish,
    lemma_div_is_ordered, lemma_div_pos_is_pos,
};

verus! {

/// A calendar timestamp: a date of the proleptic Gregorian calendar
/// together with a time of day, all as plain fields.
#[derive(Clone, Copy, PartialEq, Eq, Structural, Debug)]
pub struct DateTime {
    pub year: u32,
    pub month: u32,
    pub day: u32,
    pub hour: u32,
    pub minute: u32,
    pub second: u32,
}

/// The truncation buckets that timestamp rounding recognises.
#[derive(Clone, Copy, PartialEq, Eq, Structural, Debug)]
pub enum Precision {
    /// Floor to the minute.
    Minute,
    /// Floor the minute to a multiple of five.
    FiveMinutes,
    /// Floor the minute to a multiple of fifteen.
    QuarterHour,
    /// Floor the minute to a multiple of thirty.
    HalfHour,
    /// Floor to the hour.
    Hour,
    /// Floor the hour to a multiple of four.
    FourHours,
    /// Floor to the start of the day.
    Day,
    /// Floor to the start of the week, a week beginning on Sunday.
    Week,
    /// Floor to the first day of the month.
    Month,
}

pub open spec fn is_leap_year(y: int) -> bool {
    y % 4 == 0 && (y % 100 != 0 || y % 400 == 0)
}

pub open spec fn days_in_month(y: int, m: int) -> int {
    if m == 2 {
        if is_leap_year(y) {
            29
        } else {
            28
        }
    } else if m == 4 || m == 6 || m == 9 || m == 11 {
        30
    } else {
        31
    }
}

/// A well-formed timestamp: every field lies in its calendar range, with
/// years limited to the four digits the wire format carries.
pub open spec fn wf(dt: DateTime) -> bool {
    &&& dt.year <= 9999
    &&& 1 <= dt.month <= 12
    &&& 1 <= dt.day <= days_in_month(dt.year as int, dt.month as int)
    &&& dt.hour < 24
    &&& dt.minute < 60
    &&& dt.second < 60
}

/// Days in year `y` before the first of month `m`.
pub open spec fn days_before_month(y: int, m: int) -> int
    decreases m,
{
    if m <= 1 {
        0
    } else {
        days_before_month(y, m - 1) + days_in_month(y, m - 1)
    }
}

/// The number of leap years among `0, 1, ..., y - 1` (year zero is leap).
pub open spec fn leap_years_before(y: int) -> int {
    (y + 3) / 4 - (y + 99) / 100 + (y + 399) / 400
}

/// Days between the first day of year zero and the date of `dt`.
pub open spec fn day_number(dt: DateTime) -> int {
    365 * dt.year + leap_years_before(dt.year as int) + days_before_month(
        dt.year as int,
        dt.month as int,
    ) + dt.day - 1
}

/// Days since the last Sunday: day zero of the calendar is a Saturday.
pub open spec fn week_day(dt: DateTime) -> int {
    (day_number(dt) + 6) % 7
}

/// The same instant one calendar day earlier (time of day untouched).
pub open spec fn spec_prev_day(dt: DateTime) -> DateTime {
    if dt.day > 1 {
        DateTime { day: (dt.day - 1) as u32, ..dt }
    } else if dt.month > 1 {
        DateTime {
            month: (dt.month - 1) as u32,
            day: days_in_month(dt.year as int, dt.month - 1) as u32,
            ..dt
        }
    } else {
        DateTime { year: (dt.year - 1) as u32, month: 12, day: 31, ..dt }
    }
}

/// The date moved back by `n` calendar days.
pub open spec fn spec_back_days(dt: DateTime, n: nat) -> DateTime
    decreases n,
{
    if n == 0 {
        dt
    } else {
        spec_back_days(spec_prev_day(dt), (n - 1) as nat)
    }
}

/// How far the week bucket steps back: to the last Sunday, but never past
/// the first day of the calendar.
pub open spec fn week_back_steps(dt: DateTime) -> nat {
    if week_day(dt) <= day_number(dt) {
        week_day(dt) as nat
    } else {
        day_number(dt) as nat
    }
}

/// What truncating a timestamp to a precision bucket yields.
pub open spec fn spec_truncate(dt: DateTime, p: Precision) -> DateTime {
    match p {
        Precision::Minute => DateTime { second: 0, ..dt },
        Precision::FiveMinutes => DateTime { minute: ((dt.minute / 5) * 5) as u32, second: 0, ..dt },
        Precision::QuarterHour => DateTime {
            minute: ((dt.minute / 15) * 15) as u32,
            second: 0,
            ..dt
        },
        Precision::HalfHour => DateTime { minute: ((dt.minute / 30) * 30) as u32, second: 0, ..dt },
        Precision::Hour => DateTime { minute: 0, second: 0, ..dt },
        Precision::FourHours => DateTime {
            hour: ((dt.hour / 4) * 4) as u32,
            minute: 0,
            second: 0,
            ..dt
        },
        Precision::Day => DateTime { hour: 0, minute: 0, second: 0, ..dt },
        Precision::Week => spec_back_days(
            DateTime { hour: 0, minute: 0, second: 0, ..dt },
            week_back_steps(DateTime { hour: 0, minute: 0, second: 0, ..dt }),
        ),
        Precision::Month => DateTime { day: 1, hour: 0, minute: 0, second: 0, ..dt },
    }
}

/// For positive `n`, the quotient `n / k` exceeds `(n - 1) / k` exactly
/// when `k` divides `n`.
proof fn lemma_div_step(n: int, k: int)
    requires
        n >= 1,
        k >= 1,
    ensures
        n / k - (n - 1) / k == if n % k == 0 {
            1int
        } else {
            0int
        },
{
    let q = (n - 1) / k;
    let r = (n - 1) % k;
    lemma_fundamental_div_mod(n - 1, k);
    lemma_mod_bound(n - 1, k);
    if r + 1 == k {
        assert((q + 1) * k == q * k + k) by (nonlinear_arith);
        lemma_fundamental_div_mod_converse(n, k, q + 1, 0);
    } else {
        lemma_fundamental_div_mod_converse(n, k, q, r + 1);
    }
}

/// A multiple of one hundred is a multiple of four, and a multiple of four
/// hundred is a multiple of one hundred.
proof fn lemma_divisibility_chain(n: int)
    requires
        n >= 0,
    ensures
        n % 100 == 0 ==> n % 4 == 0,
        n % 400 == 0 ==> n % 100 == 0,
{
    if n % 100 == 0 {
        lemma_fundamental_div_mod(n, 100);
        assert(n == 4 * (25 * (n / 100)));
        lemma_mod_multiples_basic(25 * (n / 100), 4);
    }
    if n % 400 == 0 {
        lemma_fundamental_div_mod(n, 400);
        assert(n == 100 * (4 * (n / 400)));
        lemma_mod_multiples_basic(4 * (n / 400), 100);
    }
}

/// Crossing from year `y` back to year `y - 1` changes the leap count by
/// one exactly when year `y - 1` is leap.
proof fn lemma_leap_years_step(y: int)
    requires
        y >= 1,
    ensures
        leap_years_before(y) - leap_years_before(y - 1) == if is_leap_year(y - 1) {
            1int
        } else {
            0int
        },
{
    lemma_div_step(y + 3, 4);
    lemma_div_step(y + 99, 100);
    lemma_div_step(y + 399, 400);
    lemma_mod_add_multiples_vanish(y - 1, 4);
    lemma_mod_add_multiples_vanish(y - 1, 100);
    lemma_mod_add_multiples_vanish(y - 1, 400);
    lemma_divisibility_chain(y - 1);
}

/// The days of the months of year `y` sum to the length of year `y`.
proof fn lemma_days_before_month_full(y: int)
    ensures
        days_before_month(y, 13) == 365 + if is_leap_year(y) {
            1int
        } else {
            0int
        },
{
    reveal_with_fuel(days_before_month, 14);
}

/// A well-formed timestamp's day number is non-negative and, with years of
/// at most four digits, comfortably below four million. The week bucket
/// therefore never steps back further than the day number allows.
pub proof fn lemma_day_number_bounds(dt: DateTime)
    requires
        wf(dt),
    ensures
        0 <= day_number(dt) < 4000000,
        week_back_steps(dt) <= day_number(dt),
        0 <= week_day(dt) < 7,
{
    let y = dt.year as int;
    lemma_days_before_month_values(y);
    if y == 0 {
        assert((y + 99) / 100 == 0);
    } else {
        lemma_fundamental_div_mod_converse(100 * y + 99, 100, y, 99);
        lemma_div_is_ordered(y + 99, 100 * y + 99, 100);
    }
    lemma_div_pos_is_pos(y + 3, 4);
    lemma_div_pos_is_pos(y + 399, 400);
    lemma_div_pos_is_pos(y + 99, 100);
    lemma_div_is_ordered(y + 3, 10002, 4);
    lemma_div_is_ordered(y + 399, 10398, 400);
    lemma_mod_bound(day_number(dt) + 6, 7);
}

/// Stepping one day back decreases the day number by exactly one and keeps
/// the timestamp well formed.
pub proof fn lemma_prev_day(dt: DateTime)
    requires
        wf(dt),
        day_number(dt) >= 1,
    ensures
        wf(spec_prev_day(dt)),
        day_number(spec_prev_day(dt)) == day_number(dt) - 1,
        spec_prev_day(dt).hour == dt.hour,
        spec_prev_day(dt).minute == dt.minute,
        spec_prev_day(dt).second == dt.second,
{
    let p = spec_prev_day(dt);
    if dt.day > 1 {
    } else if dt.month > 1 {
        assert(days_before_month(dt.year as int, dt.month as int) == days_before_month(
            dt.year as int,
            dt.month - 1,
        ) + days_in_month(dt.year as int, dt.month - 1));
    } else {
        assert(dt.year >= 1) by {
            if dt.year == 0 {
                assert(day_number(dt) == 0);
            }
        }
        let z = dt.year - 1;
        lemma_leap_years_step(dt.year as int);
        lemma_days_before_month_full(z);
        assert(days_before_month(z, 13) == days_before_month(z, 12) + 31);
        assert(day_number(p) == 365 * z + leap_years_before(z) + days_before_month(z, 12) + 30);
    }
}

/// Moving back `n` days, one day at a time, decreases the day number by
/// `n` and keeps the timestamp well formed; the time of day is untouched.
pub proof fn lemma_back_days(dt: DateTime, n: nat)
    requires
        wf(dt),
        n <= day_number(dt),
    ensures
        wf(spec_back_days(dt, n)),
        day_number(spec_back_days(dt, n)) == day_number(dt) - n,
        spec_back_days(dt, n).hour == dt.hour,
        spec_back_days(dt, n).minute == dt.minute,
        spec_back_days(dt, n).second == dt.second,
    decreases n,
{
    if n > 0 {
        lemma_prev_day(dt);
        lemma_back_days(spec_prev_day(dt), (n - 1) as nat);
    }
}

/// Truncation keeps a timestamp well formed.
pub proof fn lemma_truncate_wf(dt: DateTime, p: Precision)
    requires
        wf(dt),
    ensures
        wf(spec_truncate(dt, p)),
{
    match p {
        Precision::FiveMinutes => {
            lemma_fundamental_div_mod(dt.minute as int, 5);
            lemma_mod_bound(dt.minute as int, 5);
        },
        Precision::QuarterHour => {
            lemma_fundamental_div_mod(dt.minute as int, 15);
            lemma_mod_bound(dt.minute as int, 15);
        },
        Precision::HalfHour => {
            lemma_fundamental_div_mod(dt.minute as int, 30);
            lemma_mod_bound(dt.minute as int, 30);
        },
        Precision::FourHours => {
            lemma_fundamental_div_mod(dt.hour as int, 4);
            lemma_mod_bound(dt.hour as int, 4);
        },
        Precision::Week => {
            let base = DateTime { hour: 0, minute: 0, second: 0, ..dt };
            lemma_day_number_bounds(base);
            lemma_back_days(base, week_back_steps(base));
        },
        _ => {},
    }
}

/// Flooring a number to a multiple of `k` is idempotent.
proof fn lemma_floor_multiple_idempotent(x: int, k: int)
    requires
        x >= 0,
        k >= 1,
    ensures
        ((x / k) * k) / k * k == (x / k) * k,
        0 <= (x / k) * k <= x,
{
    lemma_div_multiples_vanish(x / k, k);
    lemma_fundamental_div_mod(x, k);
    lemma_mod_bound(x, k);
}

/// After the week bucket has moved a timestamp back, a second application
/// finds nothing left to move: either the result lands on a Sunday, or it
/// has reached the first day of the calendar.
proof fn lemma_week_steps_again(dt: DateTime)
    requires
        wf(dt),
        dt.hour == 0,
        dt.minute == 0,
        dt.second == 0,
    ensures
        week_back_steps(spec_back_days(dt, week_back_steps(dt))) == 0,
{
    let dn = day_number(dt);
    lemma_day_number_bounds(dt);
    lemma_back_days(dt, week_back_steps(dt));
    let moved = spec_back_days(dt, week_back_steps(dt));
    if week_day(dt) <= dn {
        let k = (dn + 6) % 7;
        assert(day_number(moved) == dn - k);
        lemma_fundamental_div_mod(dn + 6, 7);
        lemma_mod_multiples_basic((dn + 6) / 7, 7);
        assert(day_number(moved) + 6 == 7 * ((dn + 6) / 7));
        assert(week_day(moved) == 0);
    } else {
        assert(day_number(moved) == 0);
        lemma_day_number_bounds(moved);
    }
}

/// Truncation to any bucket is idempotent: rounding an already-rounded
/// timestamp at the same precision is a fixed point.
pub proof fn lemma_truncate_idempotent(dt: DateTime, p: Precision)
    requires
        wf(dt),
    ensures
        spec_truncate(spec_truncate(dt, p), p) == spec_truncate(dt, p),
{
    lemma_truncate_wf(dt, p);
    match p {
        Precision::FiveMinutes => {
            lemma_floor_multiple_idempotent(dt.minute as int, 5);
        },
        Precision::QuarterHour => {
            lemma_floor_multiple_idempotent(dt.minute as int, 15);
        },
        Precision::HalfHour => {
            lemma_floor_multiple_idempotent(dt.minute as int, 30);
        },
        Precision::FourHours => {
            lemma_floor_multiple_idempotent(dt.hour as int, 4);
        },
        Precision::Week => {
            let base = DateTime { hour: 0, minute: 0, second: 0, ..dt };
            lemma_day_number_bounds(base);
            lemma_back_days(base, week_back_steps(base));
            let moved = spec_back_days(base, week_back_steps(base));
            lemma_week_steps_again(base);
            assert(DateTime { hour: 0, minute: 0, second: 0, ..moved } == moved);
            assert(spec_back_days(moved, 0) == moved);
        },
        _ => {},
    }
}

pub fn days_in_month_exec(year: u32, month: u32) -> (d: u32)
    requires
        1 <= month <= 12,
    ensures
        d == days_in_month(year as int, month as int),
{
    if month == 2 {
        if (year % 4 == 0) && (year % 100 != 0 || year % 400 == 0) {
            29
        } else {
            28
        }
    } else if month == 4 || month == 6 || month == 9 || month == 11 {
        30
    } else {
        31
    }
}

/// The cumulative days before each month, proved against the recursive
/// definition.
proof fn lemma_days_before_month_values(y: int)
    ensures
        days_before_month(y, 1) == 0,
        days_before_month(y, 2) == 31,
        days_before_month(y, 3) == 59 + if is_leap_year(y) { 1int } else { 0int },
        days_before_month(y, 4) == 90 + if is_leap_year(y) { 1int } else { 0int },
        days_before_month(y, 5) == 120 + if is_leap_year(y) { 1int } else { 0int },
        days_before_month(y, 6) == 151 + if is_leap_year(y) { 1int } else { 0int },
        days_before_month(y, 7) == 181 + if is_leap_year(y) { 1int } else { 0int },
        days_before_month(y, 8) == 212 + if is_leap_year(y) { 1int } else { 0int },
        days_before_month(y, 9) == 243 + if is_leap_year(y) { 1int } else { 0int },
        days_before_month(y, 10) == 273 + if is_leap_year(y) { 1int } else { 0int },
        days_before_month(y, 11) == 304 + if is_leap_year(y) { 1int } else { 0int },
        days_before_month(y, 12) == 334 + if is_leap_year(y) { 1int } else { 0int },
{
    reveal_with_fuel(days_before_month, 13);
}

fn days_before_month_exec(year: u32, month: u32) -> (d: u32)
    requires
        1 <= month <= 12,
    ensures
        d == days_before_month(year as int, month as int),
{
    proof {
        lemma_days_before_month_values(year as int);
    }
    let leap: u32 = if (year % 4 == 0) && (year % 100 != 0 || year % 400 == 0) {
        1
    } else {
        0
    };
    match month {
        1 => 0,
        2 => 31,
        3 => 59 + leap,
        4 => 90 + leap,
        5 => 120 + leap,
        6 => 151 + leap,
        7 => 181 + leap,
        8 => 212 + leap,
        9 => 243 + leap,
        10 => 273 + leap,
        11 => 304 + leap,
        _ => 334 + leap,
    }
}

/// Computes the day number of a well-formed timestamp; it is at most
/// 3,652,424 for four-digit years, far inside `u64`.
pub fn day_number_exec(dt: &DateTime) -> (n: u64)
    requires
        wf(*dt),
    ensures
        n == day_number(*dt),
{
    let y: u64 = dt.year as u64;
    let dbm: u64 = days_before_month_exec(dt.year, dt.month) as u64;
    let a: u64 = 365 * y + (y + 3) / 4 + (y + 399) / 400 + dbm + (dt.day as u64 - 1);
    a - (y + 99) / 100
}

fn prev_day_exec(dt: DateTime) -> (r: DateTime)
    requires
        wf(dt),
        day_number(dt) >= 1,
    ensures
        r == spec_prev_day(dt),
        wf(r),
        day_number(r) == day_number(dt) - 1,
{
    proof {
        lemma_prev_day(dt);
    }
    if dt.day > 1 {
        DateTime { day: dt.day - 1, ..dt }
    } else if dt.month > 1 {
        DateTime { month: dt.month - 1, day: days_in_month_exec(dt.year, dt.month - 1), ..dt }
    } else {
        DateTime { year: dt.year - 1, month: 12, day: 31, ..dt }
    }
}

/// Peeling a day off the front of a walk or off its back is the same.
proof fn lemma_back_days_commute(dt: DateTime, n: nat)
    ensures
        spec_back_days(spec_prev_day(dt), n) == spec_prev_day(spec_back_days(dt, n)),
    decreases n,
{
    if n > 0 {
        lemma_back_days_commute(spec_prev_day(dt), (n - 1) as nat);
    }
}

fn back_days_exec(dt: DateTime, n: u64) -> (r: DateTime)
    requires
        wf(dt),
        n <= day_number(dt),
    ensures
        r == spec_back_days(dt, n as nat),
{
    let mut cur = dt;
    let mut i: u64 = 0;
    while i < n
        invariant
            0 <= i <= n,
            n <= day_number(dt),
            wf(cur),
            cur == spec_back_days(dt, i as nat),
            day_number(cur) == day_number(dt) - i,
        decreases n - i,
    {
        proof {
            lemma_back_days_commute(cur, 0);
            lemma_back_days_commute(dt, i as nat);
        }
        cur = prev_day_exec(cur);
        assert(cur == spec_back_days(dt, (i + 1) as nat)) by {
            assert(spec_back_days(dt, (i + 1) as nat) == spec_back_days(
                spec_prev_day(dt),
                i as nat,
            ));
            lemma_back_days_commute(dt, i as nat);
        }
        i += 1;
    }
    cur
}

/// Truncates a timestamp to a precision bucket; exact with respect to
/// `spec_truncate`, and the result is again well formed.
pub fn round_datetime_to_precision(dt: DateTime, p: Precision) -> (r: DateTime)
    requires
        wf(dt),
    ensures
        r == spec_truncate(dt, p),
        wf(r),
{
    proof {
        lemma_truncate_wf(dt, p);
    }
    match p {
        Precision::Minute => DateTime { second: 0, ..dt },
        Precision::FiveMinutes => DateTime { minute: (dt.minute / 5) * 5, second: 0, ..dt },
        Precision::QuarterHour => DateTime { minute: (dt.minute / 15) * 15, second: 0, ..dt },
        Precision::HalfHour => DateTime { minute: (dt.minute / 30) * 30, second: 0, ..dt },
        Precision::Hour => DateTime { minute: 0, second: 0, ..dt },
        Precision::FourHours => DateTime { hour: (dt.hour / 4) * 4, minute: 0, second: 0, ..dt },
        Precision::Day => DateTime { hour: 0, minute: 0, second: 0, ..dt },
        Precision::Week => {
            let base = DateTime { hour: 0, minute: 0, second: 0, ..dt };
            let dn = day_number_exec(&base);
            proof {
                lemma_day_number_bounds(base);
            }
            let wd = (dn + 6) % 7;
            let steps: u64 = if wd <= dn {
                wd
            } else {
                dn
            };
            back_days_exec(base, steps)
        },
        Precision::Month => DateTime { day: 1, hour: 0, minute: 0, second: 0, ..dt },
    }
}

} // verus!
