use chrono::{FixedOffset, NaiveDateTime, TimeZone};
use kmq::quote::Quote;
use kmq::schedule::{is_stale, missing_slots, slot_of};

/// KST "YYYY-MM-DD HH:MM:SS" → epoch seconds
fn kts(s: &str) -> i64 {
    let n = NaiveDateTime::parse_from_str(s, "%Y-%m-%d %H:%M:%S").unwrap();
    FixedOffset::east_opt(9 * 3600)
        .unwrap()
        .from_local_datetime(&n)
        .single()
        .unwrap()
        .timestamp()
}

#[test]
fn open_tick_stays_in_0900_slot() {
    // The opening tick is stamped a few seconds to tens of seconds after 09:00.
    for t in ["09:00:00", "09:00:05", "09:00:11", "09:00:28", "09:01:59"] {
        let ts = kts(&format!("2026-08-04 {t}"));
        assert_eq!(slot_of(ts), kts("2026-08-04 09:00:00"), "{t} belongs to the 09:00 slot");
    }
}

#[test]
fn normal_tick_rounds_up_to_next_slot() {
    assert_eq!(slot_of(kts("2026-08-04 09:59:03")), kts("2026-08-04 10:00:00"));
    assert_eq!(slot_of(kts("2026-08-04 14:58:00")), kts("2026-08-04 15:00:00"));
    assert_eq!(slot_of(kts("2026-08-04 12:00:00")), kts("2026-08-04 12:00:00"));
    // Quiet USDKRW hours bring stamps well behind the collection (05:28 -> the 06:00 run).
    assert_eq!(slot_of(kts("2026-07-22 05:28:12")), kts("2026-07-22 06:00:00"));
}

#[test]
fn open_tick_does_not_collide_with_1000_slot() {
    let open = kts("2026-08-04 09:00:11");
    let ten = kts("2026-08-04 09:59:03");
    assert_ne!(slot_of(open), slot_of(ten));
}

#[test]
fn unchanged_value_during_session_is_not_stale() {
    let now = kts("2026-08-06 14:00:00");
    let last_run = Some(kts("2026-08-06 14:00:02"));
    let last_ts = Some(kts("2026-08-06 04:59:00"));
    assert!(!is_stale(last_run, last_ts, true, now));
}

#[test]
fn collection_stopped_during_session_is_stale() {
    let now = kts("2026-08-07 14:00:00");
    let last_run = Some(kts("2026-08-06 16:00:02"));
    let last_ts = Some(kts("2026-08-06 15:59:00"));
    assert!(is_stale(last_run, last_ts, true, now));
}

#[test]
fn all_runs_failed_is_stale() {
    let now = kts("2026-08-07 14:00:00");
    assert!(is_stale(None, Some(kts("2026-08-06 15:59:00")), true, now));
    assert!(is_stale(None, None, true, now));
}

#[test]
fn legacy_worker_falls_back_to_quotes() {
    let now = kts("2026-08-06 14:00:00");
    assert!(!is_stale(None, Some(kts("2026-08-06 13:59:00")), true, now));
    assert!(is_stale(None, Some(kts("2026-08-06 10:00:00")), true, now));
}

#[test]
fn outside_collection_window_is_never_stale() {
    let now = kts("2026-08-08 16:00:00");
    assert!(!is_stale(Some(kts("2026-08-06 16:00:02")), None, false, now));
}

#[test]
fn missing_slots_reports_nothing_for_a_full_trading_day() {
    let day = "2026-08-04";
    // The 09:00 opening tick, then the 10:00 to 16:00 runs, each stamped a minute early.
    let mut rows = vec![Quote { symbol: "KOSPI".into(), ts: kts(&format!("{day} 09:00:11")) }];
    for h in 9..16 {
        rows.push(Quote { symbol: "KOSPI".into(), ts: kts(&format!("{day} {h:02}:59:03")) });
    }
    let from = kts(&format!("{day} 00:00:00"));
    let to = kts(&format!("{day} 23:59:59"));
    assert_eq!(missing_slots("KOSPI", &rows, from, to), Vec::<i64>::new());
}
