use chrono::{Datelike, FixedOffset, NaiveDateTime, TimeZone, Timelike, Utc};
use kmq::calendar::{MAX_UTC_TS, MIN_UTC_TS};
use kmq::clock::{fmt_kst, kst_day_hour, month_range, parse_date};
use kmq::commands::{export_plan, fetch_window, last_of_symbol, supported_symbols, trend_window};
use kmq::config::{bearer, normalize_config, quotes_url, trim_end_slashes, Config};
use kmq::deltas::previous_same_symbol;
use kmq::error::Error;
use kmq::quote::Quote;
use kmq::ranges::{cache_upto, covered, put_span, uncovered, Span};
use kmq::schedule::{expected, is_stale, missing_slots, slot_of};
use kmq::status::{assess, fmt_age, status_row, LogEntry};
use kmq::symbol::{known_symbol, norm_symbol};
use kmq::table::render_table;
use kmq::text::{count_string, int_string};

fn kts(s: &str) -> i64 {
    let n = NaiveDateTime::parse_from_str(s, "%Y-%m-%d %H:%M:%S").unwrap();
    FixedOffset::east_opt(9 * 3600).unwrap().from_local_datetime(&n).single().unwrap().timestamp()
}

fn q(symbol: &str, ts: i64) -> Quote {
    Quote { symbol: symbol.to_string(), ts }
}

#[test]
fn decimal_text_matches_to_string() {
    for n in [0i64, 7, 10, 42, -1, -42, 1234567890, i64::MAX, i64::MIN] {
        assert_eq!(int_string(n), n.to_string());
    }
    for n in [0usize, 5, 99, 100, usize::MAX] {
        assert_eq!(count_string(n), n.to_string());
    }
}

#[test]
fn norm_symbol_upper_cases_known_symbols() {
    assert_eq!(norm_symbol("kospi").unwrap(), "KOSPI");
    assert_eq!(norm_symbol("KosDaq").unwrap(), "KOSDAQ");
    assert_eq!(norm_symbol("usdkrw").unwrap(), "USDKRW");
    assert_eq!(norm_symbol("KOSPI").unwrap(), "KOSPI");
}

#[test]
fn norm_symbol_refuses_other_symbols() {
    assert!(matches!(norm_symbol("BTC"), Err(Error::UnsupportedSymbol(s)) if s == "BTC"));
    assert!(matches!(norm_symbol(""), Err(Error::UnsupportedSymbol(s)) if s.is_empty()));
    assert!(matches!(norm_symbol(" kospi"), Err(Error::UnsupportedSymbol(_))));
    assert!(!known_symbol("kospi"));
    assert!(known_symbol("USDKRW"));
}

#[test]
fn norm_symbol_follows_unicode_upper_casing() {
    // U+017F LATIN SMALL LETTER LONG S upper-cases to 'S'.
    assert_eq!(norm_symbol("ko\u{17f}pi").unwrap(), "KOSPI");
}

#[test]
fn kst_clock_of_epoch() {
    // 1970-01-01 00:00 UTC is Thursday 09:00 in Korea.
    assert_eq!(kst_day_hour(0), (4, 9));
    assert_eq!(kst_day_hour(kts("2026-08-03 00:00:00")), (1, 0)); // a Monday
    assert_eq!(kst_day_hour(kts("2026-08-09 23:59:59")), (7, 23)); // a Sunday
    assert_eq!(kst_day_hour(-1), (4, 8));
}

#[test]
fn fmt_kst_formats_kst_minutes() {
    assert_eq!(fmt_kst(0), "1970-01-01 09:00");
    assert_eq!(fmt_kst(kts("2026-08-04 09:00:11")), "2026-08-04 09:00");
    assert_eq!(fmt_kst(i64::MAX), i64::MAX.to_string());
    assert_eq!(fmt_kst(i64::MIN), i64::MIN.to_string());
}

fn kst_at(y: i32, m: u32, d: u32, h: u32, mi: u32) -> i64 {
    let n = chrono::NaiveDate::from_ymd_opt(y, m, d).unwrap().and_hms_opt(h, mi, 0).unwrap();
    FixedOffset::east_opt(9 * 3600).unwrap().from_local_datetime(&n).single().unwrap().timestamp()
}

#[test]
fn fmt_kst_pads_and_signs_years() {
    assert_eq!(fmt_kst(kst_at(5, 3, 7, 4, 5)), "0005-03-07 04:05");
    assert_eq!(fmt_kst(kst_at(9999, 12, 31, 23, 59)), "9999-12-31 23:59");
    assert_eq!(fmt_kst(kst_at(10000, 1, 1, 0, 0)), "+10000-01-01 00:00");
    assert_eq!(fmt_kst(kst_at(-4, 2, 29, 12, 30)), "-0004-02-29 12:30");
    assert_eq!(fmt_kst(kst_at(-1, 12, 31, 0, 0)), "-0001-12-31 00:00");
    assert_eq!(fmt_kst(MIN_UTC_TS), "-262143-01-01 09:00");
    assert_eq!(fmt_kst(MAX_UTC_TS), "+262143-01-01 08:59");
    assert_eq!(fmt_kst(MIN_UTC_TS - 1), (MIN_UTC_TS - 1).to_string());
    assert_eq!(fmt_kst(MAX_UTC_TS + 1), (MAX_UTC_TS + 1).to_string());
}

/// Day number of a proleptic Gregorian date, counted from March with floor division, the way
/// the library's calendar states it.
fn epoch_day(y: i64, m: i64, d: i64) -> i64 {
    let yy = if m <= 2 { y - 1 } else { y };
    let era = yy.div_euclid(400);
    let yoe = yy - era * 400;
    let mp = if m > 2 { m - 3 } else { m + 9 };
    let doy = (153 * mp + 2) / 5 + d - 1;
    let doe = yoe * 365 + yoe / 4 - yoe / 100 + doy;
    era * 146097 + doe - 719468
}

#[test]
fn chrono_instants_match_the_stated_calendar() {
    let dates = [
        "1970-01-01", "1969-12-31", "2000-02-29", "2026-08-04", "1900-03-01", "0000-01-01",
        "-0004-02-29", "-0001-12-31", "-0400-03-01", "9999-12-31", "+10000-01-01",
        "-262143-01-02", "+262142-12-31", "1600-02-29", "2100-03-01",
    ];
    for s in dates {
        let sign = if s.starts_with('-') { -1 } else { 1 };
        let body = s.trim_start_matches(['-', '+']);
        let parts: Vec<i64> = body.split('-').map(|p| p.parse().unwrap()).collect();
        let (y, m, d) = (sign * parts[0], parts[1], parts[2]);
        let want = epoch_day(y, m, d) * 86400 - 32400;
        assert_eq!(parse_date(s, false).unwrap(), want, "{s}");
        assert_eq!(parse_date(s, true).unwrap(), want + 86399, "{s}");
    }
    assert_eq!(MIN_UTC_TS, epoch_day(-262143, 1, 1) * 86400);
    assert_eq!(MAX_UTC_TS, epoch_day(262142, 12, 31) * 86400 + 86399);
}

#[test]
fn the_first_representable_midnight_is_refused() {
    assert!(matches!(parse_date("-262143-01-01", false), Err(Error::OutOfRange)));
    assert_eq!(parse_date("-262143-01-01", true).unwrap(), MIN_UTC_TS + 86399 - 32400);
    assert!(matches!(month_range("-262143-01"), Err(Error::OutOfRange)));
    assert!(matches!(month_range("+262142-12"), Err(Error::OutOfRange)));
    assert!(month_range("+262142-11").is_ok());
}

#[test]
fn kst_clock_agrees_with_chrono() {
    let stamps = [0i64, -1, 86399, 86400, -32400, -32401, 1_785_000_000, -5_000_000_000, MIN_UTC_TS, MAX_UTC_TS];
    for ts in stamps {
        let k = Utc.timestamp_opt(ts, 0).single().unwrap().with_timezone(&FixedOffset::east_opt(9 * 3600).unwrap());
        assert_eq!(kst_day_hour(ts), (k.weekday().number_from_monday(), k.hour()), "{ts}");
        let local = (ts + 32400).div_euclid(86400);
        assert_eq!(kst_day_hour(ts).0 as i64, (local + 3).rem_euclid(7) + 1);
        assert_eq!(kst_day_hour(ts).1 as i64, (ts + 32400).rem_euclid(86400) / 3600);
    }
}

#[test]
fn parse_date_reads_kst_days() {
    assert_eq!(parse_date("2026-08-04", false).unwrap(), kts("2026-08-04 00:00:00"));
    assert_eq!(parse_date("2026-08-04", true).unwrap(), kts("2026-08-04 23:59:59"));
    assert_eq!(parse_date("1970-01-01", false).unwrap(), -32400);
    assert!(matches!(parse_date("2026-13-01", false), Err(Error::BadDate(s)) if s == "2026-13-01"));
    assert!(matches!(parse_date("2026-02-30", true), Err(Error::BadDate(_))));
    assert!(matches!(parse_date("yesterday", false), Err(Error::BadDate(_))));
}

#[test]
fn month_range_covers_the_month() {
    assert_eq!(
        month_range("2026-07").unwrap(),
        (kts("2026-07-01 00:00:00"), kts("2026-07-31 23:59:59"))
    );
    assert_eq!(
        month_range("2026-12").unwrap(),
        (kts("2026-12-01 00:00:00"), kts("2026-12-31 23:59:59"))
    );
    let (a, b) = month_range("2024-02").unwrap();
    assert_eq!(b + 1 - a, 29 * 86400);
    let (a, b) = month_range("2026-02").unwrap();
    assert_eq!(b + 1 - a, 28 * 86400);
    assert!(matches!(month_range("2026-13"), Err(Error::BadMonth(s)) if s == "2026-13"));
    assert!(matches!(month_range("2026-07-01"), Err(Error::BadMonth(_))));
}

#[test]
fn expected_follows_the_collection_schedule() {
    let mon9 = kts("2026-08-03 09:00:00");
    assert!(expected("KOSPI", mon9));
    assert!(expected("KOSDAQ", kts("2026-08-07 16:00:00")));
    assert!(!expected("KOSPI", kts("2026-08-07 17:00:00")));
    assert!(!expected("KOSPI", kts("2026-08-03 08:00:00")));
    assert!(!expected("KOSPI", kts("2026-08-08 10:00:00"))); // Saturday
    assert!(!expected("USDKRW", kts("2026-08-03 05:00:00")));
    assert!(expected("USDKRW", kts("2026-08-03 06:00:00")));
    assert!(expected("USDKRW", kts("2026-08-05 02:00:00")));
    assert!(expected("USDKRW", kts("2026-08-08 05:00:00")));
    assert!(!expected("USDKRW", kts("2026-08-08 06:00:00")));
    assert!(!expected("USDKRW", kts("2026-08-09 12:00:00"))); // Sunday
    assert!(!expected("kospi", mon9));
    assert!(!expected("BTC", mon9));
}

#[test]
fn missing_slots_lists_due_hours_without_quotes() {
    let day = "2026-08-04";
    let rows = vec![
        q("KOSPI", kts(&format!("{day} 09:00:11"))),
        q("KOSDAQ", kts(&format!("{day} 09:59:03"))),
        q("KOSPI", kts(&format!("{day} 12:59:03"))),
    ];
    let from = kts(&format!("{day} 00:00:00"));
    let to = kts(&format!("{day} 23:59:59"));
    let want: Vec<i64> = [10, 11, 12, 14, 15, 16]
        .iter()
        .map(|h| kts(&format!("{day} {h:02}:00:00")))
        .collect();
    assert_eq!(missing_slots("KOSPI", &rows, from, to), want);
    assert_eq!(missing_slots("KOSPI", &rows, to, from), Vec::<i64>::new());
}

#[test]
fn previous_quote_of_the_same_symbol() {
    let rows = vec![q("KOSPI", 1), q("KOSPI", 2), q("USDKRW", 3), q("KOSPI", 4), q("USDKRW", 5)];
    assert_eq!(previous_same_symbol(&rows), vec![None, Some(0), None, Some(1), Some(2)]);
    assert_eq!(previous_same_symbol(&[]), Vec::<Option<usize>>::new());
}

#[test]
fn last_of_symbol_picks_the_latest_row() {
    let rows = vec![q("KOSPI", 1), q("USDKRW", 2), q("KOSPI", 3)];
    assert_eq!(last_of_symbol(&rows, "KOSPI"), Some(2));
    assert_eq!(last_of_symbol(&rows, "USDKRW"), Some(1));
    assert_eq!(last_of_symbol(&rows, "KOSDAQ"), None);
}

fn span(symbol: &str, from_ts: i64, to_ts: i64) -> Span {
    Span { symbol: symbol.to_string(), from_ts, to_ts }
}

fn spans_of(v: &[Span]) -> Vec<(String, i64, i64)> {
    v.iter().map(|s| (s.symbol.clone(), s.from_ts, s.to_ts)).collect()
}

#[test]
fn covered_needs_one_span_holding_the_whole_range() {
    let spans = vec![span("KOSPI", 100, 200), span("KOSPI", 300, 400), span("KOSDAQ", 0, 1000)];
    assert!(covered(&spans, "KOSPI", 120, 200));
    assert!(!covered(&spans, "KOSPI", 150, 350));
    assert!(!covered(&spans, "USDKRW", 150, 160));
    assert!(covered(&spans, "KOSDAQ", 150, 350));
}

#[test]
fn put_span_merges_overlapping_and_adjacent_spans() {
    let mut spans = vec![
        span("KOSPI", 100, 200),
        span("KOSPI", 300, 400),
        span("KOSDAQ", 150, 250),
        span("KOSPI", 600, 700),
    ];
    put_span(&mut spans, "KOSPI", 201, 299);
    assert_eq!(
        spans_of(&spans),
        vec![("KOSDAQ".to_string(), 150, 250), ("KOSPI".to_string(), 600, 700), ("KOSPI".to_string(), 100, 400)]
    );
    assert!(covered(&spans, "KOSPI", 100, 400));
    put_span(&mut spans, "USDKRW", 5, 9);
    assert_eq!(spans.len(), 4);
    assert!(covered(&spans, "USDKRW", 5, 9));
    assert!(covered(&spans, "KOSPI", 650, 700));
}

#[test]
fn cache_records_only_up_to_an_hour_ago() {
    assert_eq!(cache_upto(0, 10_000, 20_000), Some(10_000));
    assert_eq!(cache_upto(0, 30_000, 20_000), Some(16_400));
    assert_eq!(cache_upto(16_400, 30_000, 20_000), None);
    assert_eq!(cache_upto(17_000, 30_000, 20_000), None);
}

#[test]
fn render_table_aligns_columns() {
    let rows = vec![
        vec!["KOSPI".to_string(), "3.5".to_string()],
        vec!["USDKRW".to_string(), "1380.25".to_string()],
    ];
    let lines = render_table(&["symbol", "value"], &rows);
    assert_eq!(lines, vec!["symbol    value", "KOSPI       3.5", "USDKRW  1380.25"]);
}

#[test]
fn render_table_widths_count_bytes_padding_counts_chars() {
    // "상태" is 6 bytes but 2 characters: the column is 6 wide and padding counts characters.
    let rows = vec![vec!["a".to_string(), "OK".to_string()]];
    let lines = render_table(&["x", "상태"], &rows);
    assert_eq!(lines, vec![format!("x  {:>6}", "상태"), format!("a  {:>6}", "OK")]);
    assert_eq!(render_table(&[], &[]), vec![String::new()]);
}

#[test]
fn fmt_age_drops_the_year_and_rounds_hours() {
    let now = kts("2026-08-06 14:00:00");
    assert_eq!(fmt_age(kts("2026-08-05 15:59:00"), now), "08-05 15:59 (22h 전)");
    assert_eq!(fmt_age(now, now), "08-06 14:00 (0h 전)");
}

#[test]
fn fmt_age_hours_agree_with_float_formatting() {
    let now = kts("2026-08-06 14:00:00");
    let mut ds: Vec<i64> = vec![0, 1, 1799, 1800, 1801, 5399, 5400, 5401, 9000, 12600, 86400 * 7];
    for d in ds.clone() {
        ds.push(-d);
    }
    for d in ds {
        let ts = now - d;
        let short_time = {
            let t = fmt_kst(ts);
            t.get(5..).unwrap_or(&t).to_string()
        };
        let want = format!("{short_time} ({:.0}h 전)", (now - ts) as f64 / 3600.0);
        assert_eq!(fmt_age(ts, now), want, "age of {d} seconds");
    }
}

#[test]
fn fmt_age_keeps_out_of_range_stamps_whole() {
    let ts = i64::MAX - 10;
    let now = i64::MAX;
    assert_eq!(fmt_age(ts, now), format!("{} (0h 전)", &ts.to_string()[5..]));
}

#[test]
fn assess_reports_a_healthy_day() {
    let day = "2026-08-04";
    let mut rows = vec![q("KOSPI", kts(&format!("{day} 09:00:11")))];
    for h in 9..16 {
        rows.push(q("KOSPI", kts(&format!("{day} {h:02}:59:03"))));
    }
    let from = kts(&format!("{day} 00:00:00"));
    let now = kts(&format!("{day} 17:30:00"));
    let a = assess("KOSPI", &rows, &[], from, now);
    assert_eq!(a.last_ts, Some(kts(&format!("{day} 15:59:03"))));
    assert_eq!(a.last_run, None);
    assert!(a.missing.is_empty());
    assert_eq!((a.fails, a.unexplained), (0, 0));
    assert!(!a.stale);
    assert!(!a.warn());
}

#[test]
fn assess_separates_failures_unchanged_values_and_gaps() {
    let day = "2026-08-04";
    let rows = vec![q("KOSPI", kts(&format!("{day} 09:00:11")))];
    let log = vec![
        LogEntry { symbol: "KOSPI".into(), run_ts: kts(&format!("{day} 10:00:02")), outcome: "unchanged".into() },
        LogEntry { symbol: "KOSPI".into(), run_ts: kts(&format!("{day} 11:00:02")), outcome: "failed".into() },
        LogEntry { symbol: "KOSDAQ".into(), run_ts: kts(&format!("{day} 12:00:02")), outcome: "failed".into() },
    ];
    let from = kts(&format!("{day} 00:00:00"));
    let now = kts(&format!("{day} 13:30:00"));
    let a = assess("KOSPI", &rows, &log, from, now);
    let hours: Vec<i64> = [10, 11, 12, 13].iter().map(|h| kts(&format!("{day} {h:02}:00:00"))).collect();
    assert_eq!(a.missing, hours);
    assert_eq!(a.fails, 1);
    assert_eq!(a.unexplained, 3);
    assert_eq!(a.last_run, Some(kts(&format!("{day} 10:00:02"))));
    // The last run that went through is three and a half hours old at 13:30.
    assert!(a.stale);
    assert!(a.warn());
    let row = status_row("KOSPI", &a, now, true);
    assert_eq!(
        row,
        vec!["KOSPI", "08-04 09:00 (4h 전)", "08-04 10:00 (3h 전)", "3", "1", "⚠"]
    );
    let row = status_row("KOSPI", &a, now, false);
    assert_eq!(row[4], "?");
}

#[test]
fn status_row_without_data() {
    let now = kts("2026-08-07 14:00:00");
    let a = assess("USDKRW", &[], &[], now - 7 * 86400, now);
    assert!(a.stale);
    assert_eq!(status_row("USDKRW", &a, now, false), vec!["USDKRW", "no data (7d)", "-", "-", "?", "⚠"]);
}

#[test]
fn config_and_request_text() {
    assert_eq!(trim_end_slashes("https://x.dev///"), "https://x.dev");
    assert_eq!(trim_end_slashes("///"), "");
    assert_eq!(trim_end_slashes("https://x.dev"), "https://x.dev");
    let cfg = normalize_config(Config { api_url: "https://w.example/".into(), api_key: "k".into() });
    assert_eq!(cfg.api_url, "https://w.example");
    assert_eq!(cfg.api_key, "k");
    assert_eq!(quotes_url("https://w.example", None, 1, -2), "https://w.example/quotes?from=1&to=-2");
    assert_eq!(
        quotes_url("https://w.example", Some("KOSPI"), 0, 10),
        "https://w.example/quotes?from=0&to=10&symbol=KOSPI"
    );
    assert_eq!(bearer("abc"), "Bearer abc");
}

#[test]
fn trend_window_by_month_or_dates() {
    let now = 1_900_000_000;
    let (f, t, label) = trend_window(Some("2026-07"), Some("2026-01-01"), None, now).unwrap();
    assert_eq!((f, t), month_range("2026-07").unwrap());
    assert_eq!(label, "2026-07");
    let (f, t, label) = trend_window(None, Some("2026-07-01"), None, now).unwrap();
    assert_eq!((f, t), (kts("2026-07-01 00:00:00"), now));
    assert_eq!(label, "2026-07-01 ~ 현재");
    let (f, t, label) = trend_window(None, Some("2026-01-01"), Some("2026-06-30"), now).unwrap();
    assert_eq!((f, t), (kts("2026-01-01 00:00:00"), kts("2026-06-30 23:59:59")));
    assert_eq!(label, "2026-01-01 ~ 2026-06-30");
    assert!(matches!(trend_window(None, None, Some("2026-06-30"), now), Err(Error::NoRange)));
    assert!(matches!(trend_window(Some("July"), None, None, now), Err(Error::BadMonth(_))));
    assert!(matches!(trend_window(None, Some("2026-07-01"), Some("x"), now), Err(Error::BadDate(s)) if s == "x"));
}

#[test]
fn fetch_and_export_windows() {
    let now = 1_900_000_000;
    assert_eq!(fetch_window("2026-07-01", None, now).unwrap(), (kts("2026-07-01 00:00:00"), now));
    assert_eq!(
        fetch_window("2026-07-01", Some("2026-07-14"), now).unwrap(),
        (kts("2026-07-01 00:00:00"), kts("2026-07-14 23:59:59"))
    );
    assert!(matches!(fetch_window("07-01", None, now), Err(Error::BadDate(_))));
    let (f, t, syms) = export_plan(None, None, None, now).unwrap();
    assert_eq!((f, t), (0, now));
    assert_eq!(syms, supported_symbols());
    assert_eq!(syms, vec!["KOSPI", "KOSDAQ", "USDKRW"]);
    let (_, _, syms) = export_plan(Some("usdkrw"), Some("2026-07-01"), None, now).unwrap();
    assert_eq!(syms, vec!["USDKRW"]);
    assert!(matches!(export_plan(Some("btc"), None, None, now), Err(Error::UnsupportedSymbol(_))));
    assert!(matches!(export_plan(Some("btc"), Some("bad"), None, now), Err(Error::BadDate(_))));
}

#[test]
fn slot_of_is_the_collection_hour() {
    assert_eq!(slot_of(3600 + 120), 3600);
    assert_eq!(slot_of(3600 + 121), 7200);
    assert_eq!(slot_of(1), 0);
    assert_eq!(slot_of(121), 3600);
    assert_eq!(slot_of(0), 0);
}

#[test]
fn normalizing_twice_changes_nothing() {
    for s in ["kospi", "Kosdaq", "USDKRW", "usdKRW"] {
        let once = norm_symbol(s).unwrap();
        assert_eq!(norm_symbol(&once).unwrap(), once);
    }
}

#[test]
fn a_month_starts_with_its_first_day() {
    for m in ["2026-01", "2024-02", "1999-12", "0001-03"] {
        let (start, _) = month_range(m).unwrap();
        assert_eq!(start, parse_date(&format!("{m}-01"), false).unwrap());
    }
}

#[test]
fn a_logged_run_decides_staleness() {
    let now = kts("2026-08-06 14:00:00");
    let run = kts("2026-08-06 13:00:02");
    for last_ts in [None, Some(now - 86400), Some(now)] {
        assert!(!is_stale(Some(run), last_ts, true, now));
        assert!(is_stale(Some(run), last_ts, true, now + 3 * 3600));
    }
    // Stale stays stale as time goes on.
    let old = kts("2026-08-06 10:00:00");
    for later in [now, now + 1, now + 86400] {
        assert!(is_stale(None, Some(old), true, later));
    }
    assert!(is_stale(None, None, false, now));
}

#[test]
fn recording_adds_exactly_the_range_and_keeps_spans_apart() {
    let mut spans = vec![span("KOSPI", 0, 9), span("KOSPI", 20, 29), span("KOSPI", 40, 49), span("USDKRW", 10, 15)];
    put_span(&mut spans, "KOSPI", 11, 18);
    for p in -2..60 {
        let before = (0..=9).contains(&p) || (20..=29).contains(&p) || (40..=49).contains(&p);
        let now_held = spans.iter().any(|s| s.symbol == "KOSPI" && s.from_ts <= p && p <= s.to_ts);
        assert_eq!(now_held, before || (11..=18).contains(&p), "second {p}");
    }
    // [11, 18] touches neither [0, 9] nor [20, 29] (a gap of one second on each side).
    assert_eq!(spans.iter().filter(|s| s.symbol == "KOSPI").count(), 4);
    put_span(&mut spans, "KOSPI", 10, 19);
    let kospi: Vec<(i64, i64)> =
        spans.iter().filter(|s| s.symbol == "KOSPI").map(|s| (s.from_ts, s.to_ts)).collect();
    assert_eq!(kospi, vec![(40, 49), (0, 29)]);
    assert!(covered(&spans, "USDKRW", 10, 15));
}

#[test]
fn trimming_twice_is_trimming_once() {
    for s in ["a//", "//", "", "a/b/", "a"] {
        let once = trim_end_slashes(s);
        assert_eq!(trim_end_slashes(&once), once);
        assert!(!once.ends_with('/'));
    }
}

#[test]
fn logged_runs_explain_gaps() {
    let day = "2026-08-04";
    let from = kts(&format!("{day} 00:00:00"));
    let now = kts(&format!("{day} 12:30:00"));
    let rows = vec![q("KOSPI", kts(&format!("{day} 09:00:11")))];
    let a = assess("KOSPI", &rows, &[], from, now);
    assert_eq!(a.missing.len(), 3);
    assert_eq!(a.unexplained, a.missing.len());
    let log: Vec<LogEntry> = [10, 11, 12]
        .iter()
        .map(|h| LogEntry {
            symbol: "KOSPI".into(),
            run_ts: kts(&format!("{day} {h:02}:00:02")),
            outcome: "unchanged".into(),
        })
        .collect();
    let a = assess("KOSPI", &rows, &log, from, now);
    assert_eq!(a.missing.len(), 3);
    assert_eq!(a.unexplained, 0);
    assert!(!a.warn());
}

#[test]
fn table_lines_have_equal_length() {
    let rows = vec![
        vec!["가나".to_string(), "x".to_string(), "OK".to_string()],
        vec!["b".to_string(), "⚠".to_string(), "1380.25".to_string()],
    ];
    let lines = render_table(&["symbol", "상태", "v"], &rows);
    let n = lines[0].chars().count();
    assert!(lines.iter().all(|l| l.chars().count() == n));
}

#[test]
fn canonical_dates_format_back_at_day_edges() {
    for s in ["2026-08-04", "1970-01-01", "0000-01-01", "9999-12-31", "2024-02-29", "0005-03-07", "1969-12-31"] {
        assert_eq!(fmt_kst(parse_date(s, false).unwrap()), format!("{s} 00:00"), "{s}");
        assert_eq!(fmt_kst(parse_date(s, true).unwrap()), format!("{s} 23:59"), "{s}");
    }
}

#[test]
fn added_quotes_only_remove_missing_hours() {
    // Monday 2026-08-03, 09:00 to 16:00 KST: one quote at 10:00 only.
    let from = kts("2026-08-03 09:00:00");
    let to = kts("2026-08-03 16:00:00");
    let base = vec![q("KOSPI", kts("2026-08-03 10:00:05"))];
    let before = missing_slots("KOSPI", &base, from, to);
    assert_eq!(before.len(), 7);

    let more = vec![
        q("KOSPI", kts("2026-08-03 12:59:00")),
        q("KOSPI", kts("2026-08-03 10:00:05")),
        q("KOSPI", kts("2026-08-03 15:01:00")),
        q("USDKRW", kts("2026-08-03 09:00:00")),
    ];
    let after = missing_slots("KOSPI", &more, from, to);
    let kept: Vec<i64> = before.iter().copied().filter(|t| after.contains(t)).collect();
    assert_eq!(after, kept);
    assert_eq!(after.len(), 5);
    assert!(!after.contains(&kts("2026-08-03 13:00:00")));
    assert!(!after.contains(&kts("2026-08-03 15:00:00")));

    let other = vec![
        q("KOSDAQ", kts("2026-08-03 11:00:00")),
        q("KOSPI", kts("2026-08-03 10:00:05")),
        q("USDKRW", kts("2026-08-03 12:00:00")),
    ];
    assert_eq!(missing_slots("KOSPI", &other, from, to), before);
}

#[test]
fn months_tile_time() {
    let months = ["2023-12", "2024-01", "2024-02", "2024-03", "2025-02", "0000-01", "9999-11", "9999-12"];
    let days = [31i64, 31, 29, 31, 28, 31, 30, 31];
    for (i, m) in months.iter().enumerate() {
        let (a, b) = month_range(m).unwrap();
        assert_eq!(a, parse_date(&format!("{m}-01"), false).unwrap(), "{m}");
        assert_eq!(b + 1 - a, days[i] * 86400, "{m}");
    }
    for pair in [("2023-12", "2024-01"), ("2024-01", "2024-02"), ("2024-02", "2024-03"), ("9999-11", "9999-12")] {
        assert_eq!(month_range(pair.0).unwrap().1 + 1, month_range(pair.1).unwrap().0, "{pair:?}");
    }
}

fn sp(symbol: &str, from_ts: i64, to_ts: i64) -> Span {
    Span { symbol: symbol.to_string(), from_ts, to_ts }
}

#[test]
fn uncovered_lists_only_the_gaps() {
    let spans = vec![sp("KOSPI", 300, 400), sp("KOSDAQ", 0, 1000), sp("KOSPI", 100, 199), sp("KOSPI", 700, 650)];
    assert_eq!(uncovered(&spans, "KOSPI", 0, 1000), vec![(0, 99), (200, 299), (401, 1000)]);
    assert_eq!(uncovered(&spans, "KOSPI", 150, 350), vec![(200, 299)]);
    assert_eq!(uncovered(&spans, "KOSPI", 120, 180), Vec::<(i64, i64)>::new());
    assert_eq!(uncovered(&spans, "KOSDAQ", 0, 1000), Vec::<(i64, i64)>::new());
    assert_eq!(uncovered(&spans, "USDKRW", 5, 9), vec![(5, 9)]);
    assert_eq!(uncovered(&spans, "USDKRW", 9, 5), Vec::<(i64, i64)>::new());
    assert_eq!(uncovered(&[], "KOSPI", i64::MIN, i64::MAX), vec![(i64::MIN, i64::MAX)]);
}

#[test]
fn recorded_range_leaves_nothing_to_fetch() {
    let mut spans = vec![sp("KOSPI", 0, 50), sp("KOSPI", 500, 600)];
    assert_eq!(uncovered(&spans, "KOSPI", 40, 520), vec![(51, 499)]);
    put_span(&mut spans, "KOSPI", 40, 520);
    assert!(uncovered(&spans, "KOSPI", 40, 520).is_empty());
    assert!(uncovered(&spans, "KOSPI", 0, 600).is_empty());
}
