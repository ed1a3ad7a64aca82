use vstd::prelude::*;

verus! {

/// Earliest year of a date that chrono can represent.
pub const MIN_YEAR: i32 = -262143;

/// Latest year of a date that chrono can represent.
pub const MAX_YEAR: i32 = 262142;

/// Korea Standard Time is UTC+9, without daylight saving.
pub const KST_OFFSET_SECS: i32 = 32400;

/// Earliest epoch second whose UTC date chrono can represent (-262143-01-01 00:00:00).
pub const MIN_UTC_TS: i64 = -8334601228800;

/// Latest epoch second whose UTC date chrono can represent (262142-12-31 23:59:59).
pub const MAX_UTC_TS: i64 = 8210266876799;

pub open spec fn in_utc_range(ts: int) -> bool {
    MIN_UTC_TS <= ts <= MAX_UTC_TS
}

pub open spec fn is_leap(y: int) -> bool {
    y % 4 == 0 && (y % 100 != 0 || y % 400 == 0)
}

pub open spec fn days_in_month(y: int, m: int) -> int {
    if m == 2 {
        if is_leap(y) { 29 } else { 28 }
    } else if m == 4 || m == 6 || m == 9 || m == 11 {
        30
    } else {
        31
    }
}

/// A calendar date that chrono's `NaiveDate` can hold.
pub open spec fn valid_ymd(y: int, m: int, d: int) -> bool {
    &&& MIN_YEAR <= y <= MAX_YEAR
    &&& 1 <= m <= 12
    &&& 1 <= d <= days_in_month(y, m)
}

/// Number of the day `y-m-d` in the proleptic Gregorian calendar, 1970-01-01 being day 0.
/// Years are counted from March, so that the leap day closes each counted year;
/// a 400-year era holds 146097 days.
pub open spec fn epoch_day(y: int, m: int, d: int) -> int {
    let yy = if m <= 2 { y - 1 } else { y };
    let era = yy / 400;
    let yoe = yy - era * 400;
    let mp = if m > 2 { m - 3 } else { m + 9 };
    let doy = (153 * mp + 2) / 5 + d - 1;
    let doe = yoe * 365 + yoe / 4 - yoe / 100 + doy;
    era * 146097 + doe - 719468
}

/// Epoch second of the wall-clock time `y-m-d` plus `secs` seconds after midnight, on a clock
/// `offset` seconds ahead of UTC.
pub open spec fn local_instant(y: int, m: int, d: int, secs: int, offset: int) -> int {
    epoch_day(y, m, d) * 86400 + secs - offset
}

/// Epoch second of the KST wall-clock time `y-m-d` plus `secs` seconds after midnight.
pub open spec fn kst_instant(y: int, m: int, d: int, secs: int) -> int {
    local_instant(y, m, d, secs, KST_OFFSET_SECS as int)
}

/// Day number of the local calendar day of epoch second `ts`, `offset` seconds ahead of UTC.
pub open spec fn local_day(ts: int, offset: int) -> int {
    (ts + offset) / 86400
}

/// Hour of the day (0..=23) on the local clock.
pub open spec fn local_hour(ts: int, offset: int) -> int {
    ((ts + offset) % 86400) / 3600
}

/// Minute of the hour on the local clock.
pub open spec fn local_minute(ts: int, offset: int) -> int {
    ((ts + offset) % 3600) / 60
}

/// ISO weekday on the local calendar: 1 is Monday, 7 is Sunday (1970-01-01 was a Thursday).
pub open spec fn local_weekday(ts: int, offset: int) -> int {
    (local_day(ts, offset) + 3) % 7 + 1
}

/// Hour of the day (0..=23) on the KST clock at epoch second `ts`.
pub open spec fn kst_hour(ts: int) -> int {
    local_hour(ts, KST_OFFSET_SECS as int)
}

/// ISO weekday on the KST calendar at epoch second `ts` (1 = Monday).
pub open spec fn kst_weekday(ts: int) -> int {
    local_weekday(ts, KST_OFFSET_SECS as int)
}

/// The day after the last day of a month is the first of the next one.
pub proof fn lemma_month_length(y: int, m: int)
    requires
        1 <= m <= 12,
    ensures
        m < 12 ==> epoch_day(y, m + 1, 1) - epoch_day(y, m, 1) == days_in_month(y, m),
        m == 12 ==> epoch_day(y + 1, 1, 1) - epoch_day(y, 12, 1) == 31,
{
    if m == 2 {
        lemma_year_from_march(y - 1);
    }
}

/// Months begin in order: a later month starts no earlier than the end of an earlier one.
proof fn lemma_month_starts_increase(y1: int, m1: int, y2: int, m2: int)
    requires
        1 <= m1 <= 12,
        1 <= m2 <= 12,
        12 * y1 + m1 < 12 * y2 + m2,
    ensures
        epoch_day(y1, m1, 1) + days_in_month(y1, m1) <= epoch_day(y2, m2, 1),
    decreases 12 * y2 + m2 - 12 * y1 - m1,
{
    let (py, pm) = if m2 == 1 {
        (y2 - 1, 12)
    } else {
        (y2, m2 - 1)
    };
    lemma_month_length(py, pm);
    if 12 * py + pm != 12 * y1 + m1 {
        lemma_month_starts_increase(y1, m1, py, pm);
    }
}

/// Distinct calendar dates have distinct day numbers.
pub proof fn lemma_epoch_day_injective(y1: int, m1: int, d1: int, y2: int, m2: int, d2: int)
    requires
        1 <= m1 <= 12 && 1 <= d1 <= days_in_month(y1, m1),
        1 <= m2 <= 12 && 1 <= d2 <= days_in_month(y2, m2),
        epoch_day(y1, m1, d1) == epoch_day(y2, m2, d2),
    ensures
        y1 == y2 && m1 == m2 && d1 == d2,
{
    if 12 * y1 + m1 < 12 * y2 + m2 {
        lemma_month_starts_increase(y1, m1, y2, m2);
    } else if 12 * y2 + m2 < 12 * y1 + m1 {
        lemma_month_starts_increase(y2, m2, y1, m1);
    }
}

/// The days of the years 0 to 9999 are numbered from -719528 (0000-01-01) up to, but not
/// including, 2932897 (10000-01-01).
pub proof fn lemma_four_digit_years(y: int, m: int, d: int)
    requires
        0 <= y <= 9999,
        1 <= m <= 12 && 1 <= d <= days_in_month(y, m),
    ensures
        -719528 <= epoch_day(y, m, d) < 2932897,
{
    assert(epoch_day(0, 1, 1) == -719528);
    assert(epoch_day(10000, 1, 1) == 2932897);
    if y != 0 || m != 1 {
        lemma_month_starts_increase(0, 1, y, m);
    }
    lemma_month_starts_increase(y, m, 10000, 1);
}

/// From February of `yy + 1` to its March there are 28 days, 29 when `yy + 1` is a leap year.
proof fn lemma_year_from_march(yy: int)
    ensures
        epoch_day(yy + 1, 3, 1) - epoch_day(yy + 1, 2, 1) == days_in_month(yy + 1, 2),
{
    let era = yy / 400;
    let yoe = yy % 400;
    assert(yy == 400 * era + yoe && 0 <= yoe < 400) by {
        vstd::arithmetic::div_mod::lemma_fundamental_div_mod(yy, 400);
    }
    assert((153 * 11 + 2) / 5 == 337);
    assert((153 * 0 + 2) / 5 == 0);
    let feb = yoe * 365 + yoe / 4 - yoe / 100 + 337;
    assert(epoch_day(yy + 1, 2, 1) == era * 146097 + feb - 719468);
    if yoe == 399 {
        assert((yy + 1) / 400 == era + 1 && (yy + 1) % 400 == 0) by (nonlinear_arith)
            requires
                yy == 400 * era + 399,
        ;
        assert(epoch_day(yy + 1, 3, 1) == (era + 1) * 146097 - 719468);
        assert(feb == 146068);
        assert(is_leap(yy + 1)) by (nonlinear_arith)
            requires
                (yy + 1) % 400 == 0,
        ;
    } else {
        assert((yy + 1) / 400 == era && (yy + 1) % 400 == yoe + 1) by (nonlinear_arith)
            requires
                yy == 400 * era + yoe,
                0 <= yoe < 399,
        ;
        let mar = (yoe + 1) * 365 + (yoe + 1) / 4 - (yoe + 1) / 100;
        assert(epoch_day(yy + 1, 3, 1) == era * 146097 + mar - 719468);
        assert(is_leap(yy + 1) == ((yoe + 1) % 4 == 0 && ((yoe + 1) % 100 != 0))) by (nonlinear_arith)
            requires
                yy + 1 == 400 * era + (yoe + 1),
                1 <= yoe + 1 < 400,
        ;
        assert(mar - feb == 28 + (if (yoe + 1) % 4 == 0 { 1int } else { 0 }) - (if (yoe + 1) % 100
            == 0 { 1int } else { 0 })) by (nonlinear_arith)
            requires
                0 <= yoe < 399,
                feb == yoe * 365 + yoe / 4 - yoe / 100 + 337,
                mar == (yoe + 1) * 365 + (yoe + 1) / 4 - (yoe + 1) / 100,
        ;
    }
}

} // verus!
