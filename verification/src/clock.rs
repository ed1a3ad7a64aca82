use vstd::prelude::*;
use chrono::{Datelike, FixedOffset, NaiveDate, TimeZone, Timelike, Utc};
use crate::calendar::{
    days_in_month, epoch_day, in_utc_range, kst_hour, kst_instant, kst_weekday, lemma_epoch_day_injective,
    lemma_four_digit_years, lemma_month_length,
    local_day, local_hour, local_instant, local_minute, local_weekday, valid_ymd, KST_OFFSET_SECS,
    MAX_YEAR, MIN_YEAR,
};
use crate::error::Error;
use crate::text::{digit_char, int_string, int_text, nat_text};

verus! {

/// Two decimal digits of `n` (0..=99), as `%m`, `%d`, `%H`, `%M` print it.
pub open spec fn two_digits(n: int) -> Seq<char> {
    seq![digit_char(n / 10), digit_char(n % 10)]
}

/// `t` left-padded with zeros to `w` characters.
pub open spec fn zero_pad(t: Seq<char>, w: int) -> Seq<char> {
    Seq::new(if w > t.len() { (w - t.len()) as nat } else { 0 }, |i: int| '0') + t
}

/// `%Y`: the year zero-padded to four digits; outside 0..=9999 it always carries a sign.
pub open spec fn year_text(y: int) -> Seq<char> {
    if 0 <= y <= 9999 {
        zero_pad(nat_text(y as nat), 4)
    } else if y < 0 {
        seq!['-'] + zero_pad(nat_text((-y) as nat), 4)
    } else {
        seq!['+'] + zero_pad(nat_text(y as nat), 4)
    }
}

/// A day of the proleptic Gregorian calendar (of any year).
pub open spec fn is_civil(y: int, m: int, d: int) -> bool {
    1 <= m <= 12 && 1 <= d <= days_in_month(y, m)
}

/// The calendar date of day number `day` (1970-01-01 being day 0).
pub open spec fn civil_date(day: int) -> (int, int, int) {
    choose|y: int, m: int, d: int| is_civil(y, m, d) && epoch_day(y, m, d) == day
}

/// `%Y-%m-%d` of a calendar date: for the years 0 to 9999 the canonical `YYYY-MM-DD`.
pub open spec fn date_text(y: int, m: int, d: int) -> Seq<char> {
    year_text(y) + seq!['-'] + two_digits(m) + seq!['-'] + two_digits(d)
}

/// `%Y-%m-%d %H:%M` of epoch second `ts` on a clock `offset` seconds ahead of UTC.
pub open spec fn local_minute_text(ts: int, offset: int) -> Seq<char> {
    let (y, m, d) = civil_date(local_day(ts, offset));
    date_text(y, m, d) + seq![' '] + two_digits(local_hour(ts, offset)) + seq![':'] + two_digits(
        local_minute(ts, offset),
    )
}

/// A calendar date is the date of its own day number.
pub proof fn lemma_civil_date_of_day(y: int, m: int, d: int)
    requires
        is_civil(y, m, d),
    ensures
        civil_date(epoch_day(y, m, d)) == (y, m, d),
{
    let day = epoch_day(y, m, d);
    assert(is_civil(y, m, d) && epoch_day(y, m, d) == day);
    let (a, b, c) = civil_date(day);
    lemma_epoch_day_injective(a, b, c, y, m, d);
}

/// What chrono's `NaiveDate::parse_from_str(text, "%Y-%m-%d")` reads from `text`, as
/// (year, month, day), or `None` where it refuses the text.
pub uninterp spec fn ymd_parsed(text: Seq<char>) -> Option<(i32, u32, u32)>;

/// A UTC offset chrono's `FixedOffset::east_opt` accepts.
pub open spec fn valid_offset(offset: int) -> bool {
    -86400 < offset < 86400
}

/// chrono's `Utc.timestamp_opt(ts, 0)` viewed at a fixed offset east of UTC, giving
/// `weekday().number_from_monday()` and `hour()`. chrono counts seconds from 1970-01-01 00:00
/// UTC in the proleptic Gregorian calendar without leap seconds, so both are plain arithmetic on
/// `ts`; it refuses seconds whose UTC date lies outside its years.
#[verifier::external_body]
fn weekday_hour_at(ts: i64, offset: i32) -> (r: Option<(u32, u32)>)
    requires
        valid_offset(offset as int),
    ensures
        r is Some <==> in_utc_range(ts as int),
        r matches Some((day, hour)) ==> day == local_weekday(ts as int, offset as int) && hour
            == local_hour(ts as int, offset as int),
{
    let zone = FixedOffset::east_opt(offset).unwrap();
    let t = Utc.timestamp_opt(ts, 0).single()?.with_timezone(&zone);
    Some((t.weekday().number_from_monday(), t.hour()))
}

/// chrono's `Utc.timestamp_opt(ts, 0)` viewed at a fixed offset east of UTC and formatted with
/// `"%Y-%m-%d %H:%M"`, which chrono documents as the zero-padded fields of the local date and
/// time (the year signed outside 0..=9999); `None` where chrono refuses the second.
#[verifier::external_body]
fn minute_text_at(ts: i64, offset: i32) -> (r: Option<String>)
    requires
        valid_offset(offset as int),
    ensures
        r is Some <==> in_utc_range(ts as int),
        r matches Some(s) ==> s@ == local_minute_text(ts as int, offset as int),
{
    let zone = FixedOffset::east_opt(offset).unwrap();
    let t = Utc.timestamp_opt(ts, 0).single()?.with_timezone(&zone);
    Some(t.format("%Y-%m-%d %H:%M").to_string())
}

/// The text ends in `-01`.
pub open spec fn ends_with_first_day(t: Seq<char>) -> bool {
    t.len() >= 3 && t.subrange(t.len() - 3, t.len() as int) == seq!['-', '0', '1']
}

/// chrono's `NaiveDate::parse_from_str(s, "%Y-%m-%d")`, as (year, month, day). Which texts it
/// accepts in general is left to the name; a date it returns is always a valid date within its
/// years, and the canonical text of a date of the years 0 to 9999 (four-digit year, two-digit
/// month and day, joined by `-`) is read as exactly that date: chrono reads up to four digits
/// for an unsigned `%Y`, up to two for `%m` and `%d`, and requires the literal `-` between them.
/// A text it accepts that ends in `-01` has day 1: `%d` is the last item, reads at most two
/// digits after the literal `-` (and any blank), and nothing may follow it.
#[verifier::external_body]
fn parse_ymd(s: &str) -> (r: Option<(i32, u32, u32)>)
    ensures
        r == ymd_parsed(s@),
        r matches Some((y, m, d)) ==> valid_ymd(y as int, m as int, d as int),
        (forall|y: int, m: int, d: int|
            valid_ymd(y, m, d) && 0 <= y <= 9999 && s@ == #[trigger] date_text(y, m, d) ==> (r
                == Some((y as i32, m as u32, d as u32)))),
        r matches Some((y, m, d)) ==> (ends_with_first_day(s@) ==> d == 1),
{
    let d = NaiveDate::parse_from_str(s, "%Y-%m-%d").ok()?;
    Some((d.year(), d.month(), d.day()))
}

/// chrono's `from_local_datetime(date.and_hms(h, mi, sec)).single().timestamp()` at a fixed
/// offset east of UTC: the epoch second of a local wall-clock time. chrono refuses only a UTC
/// instant before its first date, which the precondition leaves out for offsets of 0..24 hours.
#[verifier::external_body]
fn local_timestamp(y: i32, m: u32, d: u32, h: u32, mi: u32, sec: u32, offset: i32) -> (r: i64)
    requires
        valid_ymd(y as int, m as int, d as int),
        h < 24 && mi < 60 && sec < 60,
        0 <= offset < 86400,
        !(y == MIN_YEAR && m == 1 && d == 1 && h * 3600 + mi * 60 + sec < offset),
    ensures
        r == local_instant(y as int, m as int, d as int, h * 3600 + mi * 60 + sec, offset as int),
{
    let zone = FixedOffset::east_opt(offset).unwrap();
    let t = NaiveDate::from_ymd_opt(y, m, d).unwrap().and_hms_opt(h, mi, sec).unwrap();
    zone.from_local_datetime(&t).single().unwrap().timestamp()
}

/// ISO weekday (1 = Monday) and hour of epoch second `ts` on the KST clock.
pub fn kst_day_hour(ts: i64) -> (r: (u32, u32))
    requires
        in_utc_range(ts as int),
    ensures
        r.0 == kst_weekday(ts as int),
        r.1 == kst_hour(ts as int),
{
    match weekday_hour_at(ts, KST_OFFSET_SECS) {
        Some(p) => p,
        None => (0, 0),
    }
}

/// What `fmt_kst` shows: the KST minute chrono formats, or the plain number where chrono
/// cannot represent the second.
pub open spec fn fmt_kst_spec(ts: i64) -> Seq<char> {
    if in_utc_range(ts as int) {
        local_minute_text(ts as int, KST_OFFSET_SECS as int)
    } else {
        int_text(ts as int)
    }
}

/// `YYYY-MM-DD HH:MM` of epoch second `ts` in KST.
pub fn fmt_kst(ts: i64) -> (r: String)
    ensures
        r@ == fmt_kst_spec(ts),
{
    match minute_text_at(ts, KST_OFFSET_SECS) {
        Some(text) => text,
        None => int_string(ts),
    }
}

/// Seconds after midnight that `parse_date` reads a day as: its first or its last second.
pub open spec fn day_offset(end_of_day: bool) -> int {
    if end_of_day {
        86399
    } else {
        0
    }
}

/// How reading a date or month text turns out.
pub enum Outcome<T> {
    /// chrono refuses the text.
    Refused,
    /// The date is valid but its KST instant lies outside chrono's range.
    Unrepresentable,
    /// The epoch second(s) the text stands for.
    Value(T),
}

/// What `parse_date` gives for a text that chrono reads as `parsed`.
pub open spec fn day_outcome(parsed: Option<(i32, u32, u32)>, end_of_day: bool) -> Outcome<int> {
    match parsed {
        None => Outcome::Refused,
        Some((y, m, d)) => if y == MIN_YEAR && m == 1 && d == 1 && !end_of_day {
            Outcome::Unrepresentable
        } else {
            Outcome::Value(kst_instant(y as int, m as int, d as int, day_offset(end_of_day)))
        },
    }
}

/// What `parse_date` gives for `text`.
pub open spec fn date_outcome(text: Seq<char>, end_of_day: bool) -> Outcome<int> {
    day_outcome(ymd_parsed(text), end_of_day)
}

/// `r` reports outcome `o` of reading the date `text`.
pub open spec fn date_result(o: Outcome<int>, text: Seq<char>, r: Result<i64, Error>) -> bool {
    match o {
        Outcome::Refused => r matches Err(Error::BadDate(t)) && t@ == text,
        Outcome::Unrepresentable => r matches Err(Error::OutOfRange),
        Outcome::Value(v) => r matches Ok(x) && x == v,
    }
}

/// The first (or last) second of a parsed KST day.
pub fn day_bound(parsed: Option<(i32, u32, u32)>, text: &str, end_of_day: bool) -> (r: Result<
    i64,
    Error,
>)
    requires
        parsed matches Some((y, m, d)) ==> valid_ymd(y as int, m as int, d as int),
    ensures
        date_result(day_outcome(parsed, end_of_day), text@, r),
{
    match parsed {
        None => Err(Error::BadDate(text.to_owned())),
        Some((y, m, d)) => {
            if end_of_day {
                Ok(local_timestamp(y, m, d, 23, 59, 59, KST_OFFSET_SECS))
            } else if y == MIN_YEAR && m == 1 && d == 1 {
                Err(Error::OutOfRange)
            } else {
                Ok(local_timestamp(y, m, d, 0, 0, 0, KST_OFFSET_SECS))
            }
        },
    }
}

/// What `parse_date` promises of `r`, read from `text`: the outcome of chrono's reading, and,
/// for the canonical text of a date of the years 0 to 9999, that date's first (or last) second.
pub open spec fn parse_date_post(text: Seq<char>, end_of_day: bool, r: Result<i64, Error>) -> bool {
    &&& date_result(date_outcome(text, end_of_day), text, r)
    &&& forall|y: int, m: int, d: int|
        valid_ymd(y, m, d) && 0 <= y <= 9999 && text == #[trigger] date_text(y, m, d) ==> (r matches Ok(
            t,
        ) && t == kst_instant(y, m, d, day_offset(end_of_day)))
}

/// `YYYY-MM-DD` read as a KST day: the epoch second of its midnight, or of 23:59:59 when
/// `end_of_day`.
pub fn parse_date(s: &str, end_of_day: bool) -> (r: Result<i64, Error>)
    ensures
        parse_date_post(s@, end_of_day, r),
{
    let parsed = parse_ymd(s);
    day_bound(parsed, s, end_of_day)
}

/// Reading the canonical text of a date of the years 0 to 9999 as a day and showing the
/// result with `fmt_kst` gives the text back, followed by ` 00:00` for the day's start or
/// ` 23:59` for its end.
pub proof fn law_date_text_round_trip(
    text: Seq<char>,
    end_of_day: bool,
    r: Result<i64, Error>,
    y: i32,
    m: u32,
    d: u32,
)
    requires
        parse_date_post(text, end_of_day, r),
        valid_ymd(y as int, m as int, d as int),
        0 <= y <= 9999,
        text == date_text(y as int, m as int, d as int),
    ensures
        r matches Ok(t) && fmt_kst_spec(t) == text + day_edge_text(end_of_day),
{
    law_day_bound_formats_back(y, m, d, end_of_day);
}

/// The first day of the month after `y-m`.
pub open spec fn next_month(y: int, m: int) -> (int, int) {
    if m == 12 {
        (y + 1, 1)
    } else {
        (y, m + 1)
    }
}

/// What `month_range` gives for a month whose `-01` completion chrono reads as `parsed`.
pub open spec fn month_outcome_of(parsed: Option<(i32, u32, u32)>) -> Outcome<(int, int)> {
    match parsed {
        None => Outcome::Refused,
        Some((y, m, d)) => if (y == MAX_YEAR && m == 12) || (y == MIN_YEAR && m == 1 && d == 1) {
            Outcome::Unrepresentable
        } else {
            let (ny, nm) = next_month(y as int, m as int);
            Outcome::Value(
                (kst_instant(y as int, m as int, d as int, 0), kst_instant(ny, nm, 1, 0) - 1),
            )
        },
    }
}

/// What `month_range` gives for `text`.
pub open spec fn month_outcome(text: Seq<char>) -> Outcome<(int, int)> {
    month_outcome_of(ymd_parsed(text + "-01"@))
}

/// `r` reports outcome `o` of reading the month `text`.
pub open spec fn month_result(o: Outcome<(int, int)>, text: Seq<char>, r: Result<(i64, i64), Error>) -> bool {
    match o {
        Outcome::Refused => r matches Err(Error::BadMonth(t)) && t@ == text,
        Outcome::Unrepresentable => r matches Err(Error::OutOfRange),
        Outcome::Value((a, b)) => r matches Ok((x, y)) && x == a && y == b,
    }
}

/// From the parsed first day of a month to the last second before the next month, in KST.
pub fn month_bounds(parsed: Option<(i32, u32, u32)>, text: &str) -> (r: Result<(i64, i64), Error>)
    requires
        parsed matches Some((y, m, d)) ==> valid_ymd(y as int, m as int, d as int),
    ensures
        month_result(month_outcome_of(parsed), text@, r),
{
    match parsed {
        None => Err(Error::BadMonth(text.to_owned())),
        Some((y, m, d)) => {
            if (y == MAX_YEAR && m == 12) || (y == MIN_YEAR && m == 1 && d == 1) {
                return Err(Error::OutOfRange);
            }
            let (ny, nm): (i32, u32) = if m == 12 {
                (y + 1, 1)
            } else {
                (y, m + 1)
            };
            let start = local_timestamp(y, m, d, 0, 0, 0, KST_OFFSET_SECS);
            let next = local_timestamp(ny, nm, 1, 0, 0, 0, KST_OFFSET_SECS);
            Ok((start, next - 1))
        },
    }
}

/// `YYYY-MM` of a month: for the years 0 to 9999 the canonical text.
pub open spec fn month_text(y: int, m: int) -> Seq<char> {
    year_text(y) + seq!['-'] + two_digits(m)
}

/// What `month_range` promises of `r`, read from `text`: the outcome of chrono's reading of
/// `text` + `-01`, that what chrono reads there is a valid first day of a month, and, for the
/// canonical text of a month of the years 0 to 9999, that month's first and last seconds.
pub open spec fn month_range_post(text: Seq<char>, r: Result<(i64, i64), Error>) -> bool {
    &&& month_result(month_outcome(text), text, r)
    &&& ymd_parsed(text + "-01"@) matches Some((y, m, d)) ==> valid_ymd(y as int, m as int, d as int)
        && d == 1
    &&& forall|y: int, m: int|
        0 <= y <= 9999 && 1 <= m <= 12 && text == #[trigger] month_text(y, m) ==> (r matches Ok(
            (a, b),
        ) && a == kst_instant(y, m, 1, 0) && b == kst_instant(next_month(y, m).0, next_month(y, m).1, 1, 0) - 1)
}

/// `YYYY-MM` read as the whole KST month: its first and last epoch seconds.
pub fn month_range(s: &str) -> (r: Result<(i64, i64), Error>)
    ensures
        month_range_post(s@, r),
{
    let mut text: String = s.to_owned();
    text.append("-01");
    proof {
        reveal_strlit("-01");
        assert(text@ == s@ + "-01"@);
        assert(text@.subrange(text@.len() - 3, text@.len() as int) =~= seq!['-', '0', '1']);
        assert forall|y: int, m: int|
            0 <= y <= 9999 && 1 <= m <= 12 && s@ == #[trigger] month_text(y, m) implies text@
            == date_text(y, m, 1) by {
            assert(text@ =~= date_text(y, m, 1));
        }
    }
    let parsed = parse_ymd(text.as_str());
    proof {
        assert forall|y: int, m: int|
            0 <= y <= 9999 && 1 <= m <= 12 && s@ == #[trigger] month_text(y, m) implies parsed
            == Some((y as i32, m as u32, 1u32)) by {
            assert(text@ == date_text(y, m, 1));
            assert(valid_ymd(y, m, 1));
        }
    }
    month_bounds(parsed, s)
}

/// A day read with `end_of_day` ends 86399 seconds after the same day read without it.
pub proof fn law_day_is_86400_seconds(text: Seq<char>)
    requires
        date_outcome(text, false) is Value,
    ensures
        date_outcome(text, true) matches Outcome::Value(b) && date_outcome(text, false) matches Outcome::Value(
            a,
        ) && b == a + 86399,
{
}

/// What `fmt_kst` shows after the date for the first (` 00:00`) or the last (` 23:59`) minute
/// of a day.
pub open spec fn day_edge_text(end_of_day: bool) -> Seq<char> {
    if end_of_day {
        seq![' ', '2', '3', ':', '5', '9']
    } else {
        seq![' ', '0', '0', ':', '0', '0']
    }
}

/// A day of the years 0 to 9999, read as its first (or last) KST second, is shown by
/// `fmt_kst` as its own date at 00:00 (or 23:59).
pub proof fn law_day_bound_formats_back(y: i32, m: u32, d: u32, end_of_day: bool)
    requires
        valid_ymd(y as int, m as int, d as int),
        0 <= y <= 9999,
    ensures
        day_outcome(Some((y, m, d)), end_of_day) matches Outcome::Value(t) && in_utc_range(t)
            && fmt_kst_spec(t as i64) == date_text(y as int, m as int, d as int) + day_edge_text(
            end_of_day,
        ),
{
    let e = epoch_day(y as int, m as int, d as int);
    lemma_four_digit_years(y as int, m as int, d as int);
    lemma_civil_date_of_day(y as int, m as int, d as int);
    let s = day_offset(end_of_day);
    let t = e * 86400 + s - 32400;
    assert(day_outcome(Some((y, m, d)), end_of_day) == Outcome::<int>::Value(t));
    let x = t + 32400;
    if end_of_day {
        vstd::arithmetic::div_mod::lemma_fundamental_div_mod_converse(x, 86400, e, 86399);
        vstd::arithmetic::div_mod::lemma_fundamental_div_mod_converse(x, 3600, 24 * e + 23, 3599);
    } else {
        vstd::arithmetic::div_mod::lemma_fundamental_div_mod_converse(x, 86400, e, 0);
        vstd::arithmetic::div_mod::lemma_fundamental_div_mod_converse(x, 3600, 24 * e, 0);
    }
    assert(fmt_kst_spec(t as i64) =~= date_text(y as int, m as int, d as int) + day_edge_text(
        end_of_day,
    ));
}

/// A month's range starts at the parsed day's midnight and ends one second before the next
/// month begins: it spans the rest of the month, `86400` seconds per day.
pub proof fn law_month_range_spans_month(text: Seq<char>)
    requires
        month_outcome(text) is Value,
        ymd_parsed(text + "-01"@) matches Some((y, m, d)) && valid_ymd(y as int, m as int, d as int),
    ensures
        month_outcome(text) matches Outcome::Value((a, b)) && ymd_parsed(text + "-01"@) matches Some(
            (y, m, d),
        ) && b + 1 - a == (days_in_month(y as int, m as int) - d + 1) * 86400,
{
    let (y, m, d) = ymd_parsed(text + "-01"@).unwrap();
    lemma_month_length(y as int, m as int);
    assert(epoch_day(y as int, m as int, d as int) == epoch_day(y as int, m as int, 1) + d - 1);
}

/// Months tile time: the range of the canonical text of a month of the years 0 to 9999
/// starts at the first second of its first day, holds its whole length of 28 to 31 days, and
/// ends one second before the range of the next month begins.
pub proof fn law_months_tile_time(
    y: int,
    m: int,
    r: Result<(i64, i64), Error>,
    r_next: Result<(i64, i64), Error>,
    r_day: Result<i64, Error>,
)
    requires
        0 <= y <= 9999,
        1 <= m <= 12,
        next_month(y, m).0 <= 9999,
        month_range_post(month_text(y, m), r),
        month_range_post(month_text(next_month(y, m).0, next_month(y, m).1), r_next),
        parse_date_post(month_text(y, m) + "-01"@, false, r_day),
    ensures
        r matches Ok((a, b)) && r_next matches Ok((c, e)) && r_day matches Ok(s) && s == a && a < b
            && b + 1 - a == days_in_month(y, m) * 86400 && 28 * 86400 <= b + 1 - a <= 31 * 86400 && c
            == b + 1,
{
    reveal_strlit("-01");
    let (ny, nm) = next_month(y, m);
    assert(1 <= nm <= 12);
    assert(month_text(y, m) == month_text(y, m));
    assert(month_text(ny, nm) == month_text(ny, nm));
    assert(month_text(y, m) + "-01"@ =~= date_text(y, m, 1));
    assert(valid_ymd(y, m, 1));
    lemma_month_length(y, m);
}

/// A month starts where its first day, read as a date, starts.
pub proof fn law_month_starts_with_first_day(text: Seq<char>)
    requires
        month_outcome(text) is Value,
        date_outcome(text + "-01"@, false) is Value,
    ensures
        month_outcome(text) matches Outcome::Value((a, b)) && date_outcome(text + "-01"@, false) matches Outcome::Value(
            s,
        ) && a == s,
{
}

} // verus!
