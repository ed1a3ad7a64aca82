use vstd::prelude::*;
use vstd::utf8::{
    decode_utf8, encode_utf8, encode_utf8_decode_utf8, encode_utf8_valid_utf8, is_ascii_chars,
    is_ascii_chars_encode_utf8, is_char_boundary, is_char_boundary_iff_is_leading_byte,
};
use crate::calendar::{in_utc_range, local_day, local_hour, local_minute, KST_OFFSET_SECS};
use crate::clock::{civil_date, fmt_kst, fmt_kst_spec, two_digits, year_text};
use crate::quote::Quote;
use std::collections::HashSet;
use crate::schedule::{
    lemma_hour_start_bounds, slot_filled, div_trunc, expected, expected_spec, is_stale, missing_post, missing_slots, missing_slots_defined,
    slot_defined, slot_of, slot_spec, stale_spec,
};
use crate::text::{
    count_string, digit_char, nat_text, push_char, push_nat, push_text, same_text,
};

verus! {

broadcast use vstd::std_specs::hash::group_hash_axioms;

/// One run of the collector for one symbol, as the collection log records it.
pub struct LogEntry {
    pub symbol: String,
    pub run_ts: i64,
    /// `"failed"` for a failed run; any other outcome means the run went through.
    pub outcome: String,
}

pub open spec fn is_failed(e: LogEntry) -> bool {
    e.outcome@ == "failed"@
}

/// A run of `symbol` that went through (stored a value or found it unchanged).
pub open spec fn ok_run(e: LogEntry, symbol: Seq<char>) -> bool {
    e.symbol@ == symbol && !is_failed(e)
}

/// Latest stamp among the quotes of `symbol`.
pub open spec fn last_ts_of(rows: Seq<Quote>, symbol: Seq<char>) -> Option<i64>
    decreases rows.len(),
{
    if rows.len() == 0 {
        None
    } else {
        let p = last_ts_of(rows.drop_last(), symbol);
        let q = rows.last();
        if q.symbol@ == symbol {
            match p {
                Some(m) => Some(if q.ts > m { q.ts } else { m }),
                None => Some(q.ts),
            }
        } else {
            p
        }
    }
}

/// Earliest stamp among the quotes of `symbol`.
pub open spec fn first_ts_of(rows: Seq<Quote>, symbol: Seq<char>) -> Option<i64>
    decreases rows.len(),
{
    if rows.len() == 0 {
        None
    } else {
        let p = first_ts_of(rows.drop_last(), symbol);
        let q = rows.last();
        if q.symbol@ == symbol {
            match p {
                Some(m) => Some(if q.ts < m { q.ts } else { m }),
                None => Some(q.ts),
            }
        } else {
            p
        }
    }
}

/// Latest run of `symbol` that went through.
pub open spec fn last_run_of(log: Seq<LogEntry>, symbol: Seq<char>) -> Option<i64>
    decreases log.len(),
{
    if log.len() == 0 {
        None
    } else {
        let p = last_run_of(log.drop_last(), symbol);
        let e = log.last();
        if ok_run(e, symbol) {
            match p {
                Some(m) => Some(if e.run_ts > m { e.run_ts } else { m }),
                None => Some(e.run_ts),
            }
        } else {
            p
        }
    }
}

/// Number of failed runs of `symbol`.
pub open spec fn failed_count(log: Seq<LogEntry>, symbol: Seq<char>) -> nat
    decreases log.len(),
{
    if log.len() == 0 {
        0
    } else {
        failed_count(log.drop_last(), symbol) + if log.last().symbol@ == symbol && is_failed(
            log.last(),
        ) {
            1nat
        } else {
            0nat
        }
    }
}

/// A run of `symbol` that went through was logged in slot `t`.
pub open spec fn logged_ok(log: Seq<LogEntry>, symbol: Seq<char>, t: int) -> bool {
    exists|i: int| 0 <= i < log.len() && ok_run(log[i], symbol) && slot_spec(log[i].run_ts as int) == t
}

/// Number of missing hours that no run that went through explains.
pub open spec fn unexplained_count(missing: Seq<i64>, log: Seq<LogEntry>, symbol: Seq<char>) -> nat
    decreases missing.len(),
{
    if missing.len() == 0 {
        0
    } else {
        unexplained_count(missing.drop_last(), log, symbol) + if logged_ok(
            log,
            symbol,
            missing.last() as int,
        ) {
            0nat
        } else {
            1nat
        }
    }
}

/// Start of the gap search: not before the first stored quote, so that a history that began
/// inside the window is not reported as gaps.
pub open spec fn effective_from(rows: Seq<Quote>, symbol: Seq<char>, from: int) -> int {
    match first_ts_of(rows, symbol) {
        Some(first) => if first > from { first as int } else { from },
        None => from,
    }
}

/// The KST hour that `now` falls in (Rust's truncating division).
pub open spec fn hour_of(now: int) -> int {
    div_trunc(now, 3600) * 3600
}

/// Health of one symbol's collection over the window `[from, now]`.
pub struct Assessment {
    /// Latest stored quote.
    pub last_ts: Option<i64>,
    /// Latest run that went through.
    pub last_run: Option<i64>,
    /// Hours due for collection whose slot holds no quote, in increasing order.
    pub missing: Vec<i64>,
    /// Failed runs in the log.
    pub fails: usize,
    /// Missing hours that no logged run explains.
    pub unexplained: usize,
    /// Collection has stopped during the collection window.
    pub stale: bool,
}

impl Assessment {
    /// The symbol is flagged: stopped, a run failed, or more than five hours are unexplained.
    pub open spec fn flagged(self) -> bool {
        self.stale || self.fails > 0 || self.unexplained > 5
    }

    pub fn warn(&self) -> (r: bool)
        ensures
            r == self.flagged(),
    {
        self.stale || self.fails > 0 || self.unexplained > 5
    }
}

/// Inputs on which `assess` stays within `i64` and chrono's range: the hour of `now` is one chrono
/// can place, and so is every hour searched for gaps.
pub open spec fn assess_defined(
    symbol: Seq<char>,
    rows: Seq<Quote>,
    log: Seq<LogEntry>,
    from: int,
    now: int,
) -> bool {
    &&& in_utc_range(hour_of(now))
    &&& missing_slots_defined(symbol, rows, effective_from(rows, symbol, from), now)
    &&& forall|i: int| 0 <= i < log.len() && ok_run(log[i], symbol) ==> slot_defined(log[i].run_ts as int)
}

pub open spec fn assess_post(
    symbol: Seq<char>,
    rows: Seq<Quote>,
    log: Seq<LogEntry>,
    from: int,
    now: int,
    a: Assessment,
) -> bool {
    let from_eff = effective_from(rows, symbol, from);
    &&& a.last_ts == last_ts_of(rows, symbol)
    &&& a.last_run == last_run_of(log, symbol)
    &&& a.fails == failed_count(log, symbol)
    &&& missing_post(symbol, rows, from_eff, now, a.missing@)
    &&& a.unexplained == unexplained_count(a.missing@, log, symbol)
    &&& a.stale == stale_spec(a.last_run, a.last_ts, expected_spec(symbol, hour_of(now)), now)
}

fn is_failed_run(e: &LogEntry) -> (r: bool)
    ensures
        r == is_failed(*e),
{
    same_text(e.outcome.as_str(), "failed")
}

/// Assesses one symbol's collection over `[from, now]`: the latest quote and run, the hours due
/// but without a quote, how many of them the log leaves unexplained, failed runs, and whether
/// collection has stopped.
pub fn assess(symbol: &str, rows: &[Quote], log: &[LogEntry], from: i64, now: i64) -> (a: Assessment)
    requires
        assess_defined(symbol@, rows@, log@, from as int, now as int),
    ensures
        assess_post(symbol@, rows@, log@, from as int, now as int, a),
{
    let sym: String = symbol.to_owned();
    let mut last_ts: Option<i64> = None;
    let mut first_ts: Option<i64> = None;
    let mut i: usize = 0;
    while i < rows.len()
        invariant
            i <= rows.len(),
            sym@ == symbol@,
            last_ts == last_ts_of(rows@.take(i as int), symbol@),
            first_ts == first_ts_of(rows@.take(i as int), symbol@),
        decreases rows.len() - i,
    {
        proof {
            assert(rows@.take(i + 1).drop_last() =~= rows@.take(i as int));
        }
        if rows[i].symbol == sym {
            let ts = rows[i].ts;
            last_ts = match last_ts {
                Some(m) => Some(if ts > m { ts } else { m }),
                None => Some(ts),
            };
            first_ts = match first_ts {
                Some(m) => Some(if ts < m { ts } else { m }),
                None => Some(ts),
            };
        }
        i += 1;
    }
    assert(rows@.take(rows.len() as int) =~= rows@);
    let from_eff: i64 = match first_ts {
        Some(first) => if first > from { first } else { from },
        None => from,
    };
    let missing = missing_slots(symbol, rows, from_eff, now);

    let mut fails: usize = 0;
    let mut last_run: Option<i64> = None;
    let mut ok_slots: HashSet<i64> = HashSet::new();
    let mut k: usize = 0;
    while k < log.len()
        invariant
            k <= log.len(),
            sym@ == symbol@,
            assess_defined(symbol@, rows@, log@, from as int, now as int),
            fails == failed_count(log@.take(k as int), symbol@),
            fails <= k,
            last_run == last_run_of(log@.take(k as int), symbol@),
            forall|t: i64| ok_slots@.contains(t) <==> logged_ok(log@.take(k as int), symbol@, t as int),
        decreases log.len() - k,
    {
        proof {
            assert(log@.take(k + 1).drop_last() =~= log@.take(k as int));
        }
        let ghost prev = ok_slots@;
        let e = &log[k];
        let same = e.symbol == sym;
        let failed = is_failed_run(e);
        if same && failed {
            fails = fails + 1;
        }
        if same && !failed {
            let t = e.run_ts;
            last_run = match last_run {
                Some(m) => Some(if t > m { t } else { m }),
                None => Some(t),
            };
            ok_slots.insert(slot_of(t));
        }
        proof {
            let cur = log@.take(k + 1);
            let before = log@.take(k as int);
            assert forall|t: i64| ok_slots@.contains(t) <==> logged_ok(cur, symbol@, t as int) by {
                if ok_slots@.contains(t) {
                    if prev.contains(t) {
                        let m = choose|m: int| 0 <= m < before.len() && ok_run(before[m], symbol@) && slot_spec(before[m].run_ts as int) == t;
                        assert(cur[m] == before[m]);
                    } else {
                        assert(cur[k as int] == log@[k as int]);
                    }
                }
                if logged_ok(cur, symbol@, t as int) {
                    let m = choose|m: int| 0 <= m < cur.len() && ok_run(cur[m], symbol@) && slot_spec(cur[m].run_ts as int) == t;
                    if m < k {
                        assert(before[m] == cur[m]);
                        assert(logged_ok(before, symbol@, t as int));
                    } else {
                        assert(cur[k as int] == log@[k as int]);
                    }
                }
            }
        }
        k += 1;
    }
    assert(log@.take(log.len() as int) =~= log@);

    let mut unexplained: usize = 0;
    let mut m: usize = 0;
    while m < missing.len()
        invariant
            m <= missing.len(),
            unexplained <= m,
            unexplained == unexplained_count(missing@.take(m as int), log@, symbol@),
            forall|t: i64| ok_slots@.contains(t) <==> logged_ok(log@, symbol@, t as int),
        decreases missing.len() - m,
    {
        proof {
            assert(missing@.take(m + 1).drop_last() =~= missing@.take(m as int));
        }
        if !ok_slots.contains(&missing[m]) {
            unexplained = unexplained + 1;
        }
        m += 1;
    }
    assert(missing@.take(missing.len() as int) =~= missing@);

    let in_window = expected(symbol, now / 3600 * 3600);
    let stale = is_stale(last_run, last_ts, in_window, now);
    Assessment { last_ts, last_run, missing, fails, unexplained, stale }
}

/// `n / k` rounded to the nearest integer, ties to even: how `{:.0}` prints the quotient.
pub open spec fn round_half_even(n: nat, k: nat) -> nat
    recommends
        k > 0,
{
    let q = n / k;
    let r = n % k;
    if 2 * r > k {
        q + 1
    } else if 2 * r < k {
        q
    } else if q % 2 == 0 {
        q
    } else {
        q + 1
    }
}

/// `format!("{:.0}", d as f64 / 3600.0)`: whole hours, ties to even, and a minus sign on any
/// negative quotient (also one that rounds to zero). Exact while `d` converts to `f64` exactly.
pub open spec fn hours_text(d: int) -> Seq<char> {
    if d < 0 {
        seq!['-'] + nat_text(round_half_even((-d) as nat, 3600))
    } else {
        nat_text(round_half_even(d as nat, 3600))
    }
}

/// `t.get(5..).unwrap_or(t)`: the text after its first five bytes (the year and its dash), or
/// all of it where byte five is not a character boundary.
pub open spec fn after_five_bytes(t: Seq<char>) -> Seq<char> {
    let b = encode_utf8(t);
    if is_char_boundary(b, 5) {
        decode_utf8(b.subrange(5, b.len() as int))
    } else {
        t
    }
}

/// `"MM-DD HH:MM (Nh 전)"`: when `ts` was, without the year, and how many hours ago.
pub open spec fn age_text(ts: i64, now: i64) -> Seq<char> {
    after_five_bytes(fmt_kst_spec(ts)) + seq![' ', '('] + hours_text(now - ts) + seq!['h', ' ', '전', ')']
}

/// Largest integer that `f64` holds exactly, and so the largest age the hour count is exact for.
pub const F64_EXACT_INT: i128 = 9007199254740992;

pub open spec fn age_defined(ts: i64, now: i64) -> bool {
    -F64_EXACT_INT <= now - ts <= F64_EXACT_INT
}

/// The time of `ts` on the KST clock without the year, and its age in hours at `now`.
pub fn fmt_age(ts: i64, now: i64) -> (r: String)
    requires
        age_defined(ts, now),
    ensures
        r@ == age_text(ts, now),
{
    let t = fmt_kst(ts);
    let mut out = String::new();
    if t.as_str().is_char_boundary(5) {
        let (_head, tail) = t.as_str().split_at(5);
        proof {
            encode_utf8_decode_utf8(tail@);
            assert(tail@ == decode_utf8(encode_utf8(t@).subrange(5, encode_utf8(t@).len() as int)));
        }
        push_text(&mut out, tail);
    } else {
        push_text(&mut out, t.as_str());
    }
    assert(out@ == after_five_bytes(fmt_kst_spec(ts)));
    push_char(&mut out, ' ');
    push_char(&mut out, '(');
    let d: i128 = now as i128 - ts as i128;
    let n: u64 = if d < 0 {
        (0 - d) as u64
    } else {
        d as u64
    };
    let q: u64 = n / 3600;
    let rem: u64 = n % 3600;
    let hours: u64 = if 2 * rem > 3600 {
        q + 1
    } else if 2 * rem < 3600 {
        q
    } else if q % 2 == 0 {
        q
    } else {
        q + 1
    };
    let ghost before = out@;
    if d < 0 {
        push_char(&mut out, '-');
    }
    push_nat(&mut out, hours);
    assert(out@ =~= before + hours_text(now - ts));
    push_char(&mut out, 'h');
    push_char(&mut out, ' ');
    push_char(&mut out, '전');
    push_char(&mut out, ')');
    assert(out@ =~= age_text(ts, now));
    out
}

/// The cells of a symbol's line in the status table: symbol, last quote, last run, unexplained
/// missing hours, failed runs, state.
pub open spec fn status_row_spec(symbol: Seq<char>, a: Assessment, now: i64, has_log: bool) -> Seq<
    Seq<char>,
> {
    seq![
        symbol,
        match a.last_ts {
            Some(t) => age_text(t, now),
            None => "no data (7d)"@,
        },
        match a.last_run {
            Some(t) => age_text(t, now),
            None => "-"@,
        },
        if a.last_ts is Some {
            nat_text(a.unexplained as nat)
        } else {
            "-"@
        },
        if has_log {
            nat_text(a.fails as nat)
        } else {
            "?"@
        },
        if a.flagged() {
            "⚠"@
        } else {
            "OK"@
        },
    ]
}

/// Renders a symbol's assessment as a status-table line; counts of failures are shown only when
/// the collection log exists (`has_log`).
pub fn status_row(symbol: &str, a: &Assessment, now: i64, has_log: bool) -> (r: Vec<String>)
    requires
        a.last_ts matches Some(t) ==> age_defined(t, now),
        a.last_run matches Some(t) ==> age_defined(t, now),
    ensures
        r@.map_values(|c: String| c@) == status_row_spec(symbol@, *a, now, has_log),
{
    let quote_s = match a.last_ts {
        Some(t) => fmt_age(t, now),
        None => "no data (7d)".to_owned(),
    };
    let run_s = match a.last_run {
        Some(t) => fmt_age(t, now),
        None => "-".to_owned(),
    };
    let missing_s = if a.last_ts.is_some() {
        count_string(a.unexplained)
    } else {
        "-".to_owned()
    };
    let fails_s = if has_log {
        count_string(a.fails)
    } else {
        "?".to_owned()
    };
    let flag = if a.warn() {
        "⚠".to_owned()
    } else {
        "OK".to_owned()
    };
    let mut r: Vec<String> = Vec::new();
    r.push(symbol.to_owned());
    r.push(quote_s);
    r.push(run_s);
    r.push(missing_s);
    r.push(fails_s);
    r.push(flag);
    assert(r@.map_values(|c: String| c@) =~= status_row_spec(symbol@, *a, now, has_log));
    r
}

/// Only missing hours can be unexplained: never more than there are missing hours, and all of
/// them when no run is logged (an old collector without a log).
pub proof fn law_unexplained_bounded(missing: Seq<i64>, log: Seq<LogEntry>, symbol: Seq<char>)
    ensures
        unexplained_count(missing, log, symbol) <= missing.len(),
        log.len() == 0 ==> unexplained_count(missing, log, symbol) == missing.len(),
    decreases missing.len(),
{
    if missing.len() > 0 {
        law_unexplained_bounded(missing.drop_last(), log, symbol);
    }
}

/// A missing hour whose slot holds a logged run that went through (the value was unchanged) is
/// not an unexplained gap: if every missing hour is so explained, none is unexplained.
pub proof fn law_logged_runs_explain_gaps(missing: Seq<i64>, log: Seq<LogEntry>, symbol: Seq<char>)
    requires
        forall|i: int| 0 <= i < missing.len() ==> logged_ok(log, symbol, #[trigger] missing[i] as int),
    ensures
        unexplained_count(missing, log, symbol) == 0,
    decreases missing.len(),
{
    if missing.len() > 0 {
        let init = missing.drop_last();
        assert forall|i: int| 0 <= i < init.len() implies logged_ok(log, symbol, #[trigger] init[i] as int) by {
            assert(init[i] == missing[i]);
        }
        law_logged_runs_explain_gaps(init, log, symbol);
        assert(logged_ok(log, symbol, missing[missing.len() - 1] as int));
    }
}

/// `MM-DD HH:MM` of epoch second `ts` on the KST clock.
pub open spec fn month_day_time(ts: int) -> Seq<char> {
    let (y, m, d) = civil_date(local_day(ts, KST_OFFSET_SECS as int));
    two_digits(m) + seq!['-'] + two_digits(d) + seq![' '] + two_digits(
        local_hour(ts, KST_OFFSET_SECS as int),
    ) + seq![':'] + two_digits(local_minute(ts, KST_OFFSET_SECS as int))
}

proof fn lemma_digit_ascii(n: int)
    ensures
        '0' <= digit_char(n) <= '9',
{
}

proof fn lemma_nat_text_short(n: nat)
    ensures
        nat_text(n).len() >= 1,
        n < 10 ==> nat_text(n).len() == 1,
        n < 100 ==> nat_text(n).len() <= 2,
        n < 1000 ==> nat_text(n).len() <= 3,
        n < 10000 ==> nat_text(n).len() <= 4,
        forall|i: int| 0 <= i < nat_text(n).len() ==> '0' <= #[trigger] nat_text(n)[i] <= '9',
    decreases n,
{
    lemma_digit_ascii(n as int);
    if n >= 10 {
        lemma_nat_text_short(n / 10);
        lemma_digit_ascii((n % 10) as int);
    }
}

/// The text after byte `k` of an ASCII text is the text after character `k`.
proof fn lemma_ascii_suffix(s: Seq<char>, k: int)
    requires
        is_ascii_chars(s),
        0 <= k < s.len(),
    ensures
        is_char_boundary(encode_utf8(s), k),
        decode_utf8(encode_utf8(s).subrange(k, encode_utf8(s).len() as int)) == s.subrange(k, s.len() as int),
{
    let b = encode_utf8(s);
    let t = s.subrange(k, s.len() as int);
    is_ascii_chars_encode_utf8(s);
    assert(is_ascii_chars(t));
    is_ascii_chars_encode_utf8(t);
    assert(b.subrange(k, b.len() as int) =~= encode_utf8(t));
    encode_utf8_decode_utf8(t);
    encode_utf8_valid_utf8(s);
    is_char_boundary_iff_is_leading_byte(b, k);
    assert(s[k] as u8 == b[k]);
    assert((s[k] as u32) < 128);
}

/// The age shows the KST date without its year: `MM-DD HH:MM`, for any year of four digits.
pub proof fn law_age_omits_the_year(ts: i64, now: i64)
    requires
        in_utc_range(ts as int),
        0 <= civil_date(local_day(ts as int, KST_OFFSET_SECS as int)).0 <= 9999,
    ensures
        age_text(ts, now) == month_day_time(ts as int) + seq![' ', '('] + hours_text(now - ts) + seq![
            'h',
            ' ',
            '전',
            ')',
        ],
{
    let (y, m, d) = civil_date(local_day(ts as int, KST_OFFSET_SECS as int));
    let text = fmt_kst_spec(ts);
    lemma_nat_text_short(y as nat);
    let yt = year_text(y);
    let digits = nat_text(y as nat);
    assert(yt.len() == 4);
    assert forall|i: int| 0 <= i < yt.len() implies '\0' <= #[trigger] yt[i] <= '\u{7f}' by {
        if i >= 4 - digits.len() {
            assert(yt[i] == digits[i - (4 - digits.len())]);
        }
    }
    let rest = month_day_time(ts as int);
    lemma_digit_ascii(m / 10);
    lemma_digit_ascii(m % 10);
    lemma_digit_ascii(d / 10);
    lemma_digit_ascii(d % 10);
    let h = local_hour(ts as int, KST_OFFSET_SECS as int);
    let mi = local_minute(ts as int, KST_OFFSET_SECS as int);
    lemma_digit_ascii(h / 10);
    lemma_digit_ascii(h % 10);
    lemma_digit_ascii(mi / 10);
    lemma_digit_ascii(mi % 10);
    assert(text =~= yt + seq!['-'] + rest);
    assert(rest.len() == 11);
    assert(is_ascii_chars(text)) by {
        assert forall|i: int| 0 <= i < text.len() implies '\0' <= #[trigger] text[i] <= '\u{7f}' by {
            if i < 4 {
                assert(text[i] == yt[i]);
            } else if i > 4 {
                assert(text[i] == rest[i - 5]);
            }
        }
    }
    lemma_ascii_suffix(text, 5);
    assert(text.subrange(5, text.len() as int) =~= rest);
    assert(after_five_bytes(text) == rest);
}


/// The earliest stamp is the stamp of some quote of `symbol`, and no quote of it is earlier.
proof fn lemma_first_ts(rows: Seq<Quote>, symbol: Seq<char>)
    ensures
        first_ts_of(rows, symbol) is None <==> !(exists|j: int| 0 <= j < rows.len() && #[trigger] rows[j].symbol@ == symbol),
        first_ts_of(rows, symbol) matches Some(f) ==> (exists|j: int|
            0 <= j < rows.len() && #[trigger] rows[j].symbol@ == symbol && rows[j].ts == f),
        first_ts_of(rows, symbol) matches Some(f) ==> (forall|j: int|
            0 <= j < rows.len() && #[trigger] rows[j].symbol@ == symbol ==> f <= rows[j].ts),
    decreases rows.len(),
{
    if rows.len() > 0 {
        let init = rows.drop_last();
        lemma_first_ts(init, symbol);
        assert forall|j: int| 0 <= j < init.len() implies #[trigger] init[j] == rows[j] by {}
        let k = rows.len() - 1;
        assert(rows[k] == rows.last());
        if exists|j: int| 0 <= j < rows.len() && #[trigger] rows[j].symbol@ == symbol {
            let j = choose|j: int| 0 <= j < rows.len() && #[trigger] rows[j].symbol@ == symbol;
            if j < k {
                assert(init[j].symbol@ == symbol);
            }
        }
        if exists|j: int| 0 <= j < init.len() && #[trigger] init[j].symbol@ == symbol {
            let j = choose|j: int| 0 <= j < init.len() && #[trigger] init[j].symbol@ == symbol;
            assert(rows[j].symbol@ == symbol);
        }
        if first_ts_of(rows, symbol) is Some {
            let f = first_ts_of(rows, symbol).unwrap();
            assert forall|j: int| 0 <= j < rows.len() && #[trigger] rows[j].symbol@ == symbol implies f
                <= rows[j].ts by {
                if j < k {
                    assert(init[j].symbol@ == symbol);
                }
            }
        }
    }
}

/// Every failed run of `symbol` in the log is counted.
proof fn lemma_failed_counted(log: Seq<LogEntry>, symbol: Seq<char>, i: int)
    requires
        0 <= i < log.len(),
        log[i].symbol@ == symbol,
        is_failed(log[i]),
    ensures
        failed_count(log, symbol) > 0,
    decreases log.len(),
{
    if i < log.len() - 1 {
        let init = log.drop_last();
        assert(init[i] == log[i]);
        lemma_failed_counted(init, symbol, i);
    }
}

/// The gap search of `assess` starts at the later of `from` and the earliest quote of `symbol`:
/// every hour it reports lies in `[from, now]` and not before every quote of `symbol`, and
/// every due hour from `from` and from some quote of `symbol` on, up to `now`, that no quote
/// fills is reported (hours from 0 on).
pub proof fn law_gap_search_starts_at_first_quote(
    symbol: Seq<char>,
    rows: Seq<Quote>,
    log: Seq<LogEntry>,
    from: int,
    now: int,
    a: Assessment,
)
    requires
        assess_post(symbol, rows, log, from, now, a),
    ensures
        forall|i: int| 0 <= i < a.missing@.len() ==> from <= #[trigger] a.missing@[i] <= now,
        (exists|j: int| 0 <= j < rows.len() && #[trigger] rows[j].symbol@ == symbol) ==> forall|i: int|
            0 <= i < a.missing@.len() ==> exists|j: int|
                0 <= j < rows.len() && rows[j].symbol@ == symbol && #[trigger] rows[j].ts <= #[trigger] a.missing@[i],
        forall|t: int, j: int|
            0 <= j < rows.len() && #[trigger] rows[j].symbol@ == symbol && rows[j].ts <= t && from <= t
                <= now && t >= 0 && t % 3600 == 0 && expected_spec(symbol, t) && !slot_filled(
                symbol,
                rows,
                t,
            ) ==> #[trigger] a.missing@.contains(t as i64),
{
    reveal(crate::schedule::slot_missing);
    let from_eff = effective_from(rows, symbol, from);
    lemma_first_ts(rows, symbol);
    lemma_hour_start_bounds(from_eff, 0);
    assert forall|i: int| 0 <= i < a.missing@.len() implies from <= #[trigger] a.missing@[i] <= now by {
        assert(crate::schedule::slot_missing(symbol, rows, from_eff, now, a.missing@[i] as int));
    }
    if exists|j: int| 0 <= j < rows.len() && #[trigger] rows[j].symbol@ == symbol {
        assert forall|i: int|
            0 <= i < a.missing@.len() implies exists|j: int|
                0 <= j < rows.len() && rows[j].symbol@ == symbol && #[trigger] rows[j].ts <= #[trigger] a.missing@[i] by {
            assert(crate::schedule::slot_missing(symbol, rows, from_eff, now, a.missing@[i] as int));
            assert(first_ts_of(rows, symbol) is Some);
            let f = first_ts_of(rows, symbol).unwrap();
            let j = choose|j: int| 0 <= j < rows.len() && #[trigger] rows[j].symbol@ == symbol && rows[j].ts == f;
            assert(rows[j].ts <= a.missing@[i]);
        }
    }
    assert forall|t: int, j: int|
        0 <= j < rows.len() && #[trigger] rows[j].symbol@ == symbol && rows[j].ts <= t && from <= t
            <= now && t >= 0 && t % 3600 == 0 && expected_spec(symbol, t) && !slot_filled(
            symbol,
            rows,
            t,
        ) implies #[trigger] a.missing@.contains(t as i64) by {
        assert(from_eff <= t);
        lemma_hour_start_bounds(from_eff, t);
        assert(crate::schedule::slot_missing(symbol, rows, from_eff, now, t));
    }
}

/// A symbol is flagged (`warn`, and ⚠ in its status line) when collection has stopped, when any
/// run failed, or when more than five missing hours are unexplained; otherwise it is not.
pub proof fn law_warn_conditions(a: Assessment, w: bool, symbol: Seq<char>, now: i64, has_log: bool)
    requires
        w == a.flagged(),
    ensures
        a.stale ==> w,
        a.fails > 0 ==> w,
        a.unexplained > 5 ==> w,
        !a.stale && a.fails == 0 && a.unexplained <= 5 ==> !w,
        status_row_spec(symbol, a, now, has_log)[5] == (if w { "⚠"@ } else { "OK"@ }),
{
}

/// A failed run of a symbol in the log flags the symbol.
pub proof fn law_failed_run_flags(
    symbol: Seq<char>,
    rows: Seq<Quote>,
    log: Seq<LogEntry>,
    from: int,
    now: int,
    a: Assessment,
    w: bool,
    i: int,
)
    requires
        assess_post(symbol, rows, log, from, now, a),
        w == a.flagged(),
        0 <= i < log.len(),
        log[i].symbol@ == symbol,
        log[i].outcome@ == "failed"@,
    ensures
        a.fails > 0,
        w,
{
    lemma_failed_counted(log, symbol, i);
}

/// Staleness is judged at the KST hour that holds `now`: outside the symbol's collection
/// window in that hour nothing known is stale.
pub proof fn law_stale_judged_at_current_hour(
    symbol: Seq<char>,
    rows: Seq<Quote>,
    log: Seq<LogEntry>,
    from: int,
    now: int,
    a: Assessment,
    t: int,
)
    requires
        assess_post(symbol, rows, log, from, now, a),
        now >= 0,
        t % 3600 == 0,
        t <= now < t + 3600,
    ensures
        a.stale == stale_spec(a.last_run, a.last_ts, expected_spec(symbol, t), now),
        !expected_spec(symbol, t) && (a.last_run is Some || a.last_ts is Some) ==> !a.stale,
{
    let k = t / 3600;
    assert(t == 3600 * k) by {
        vstd::arithmetic::div_mod::lemma_fundamental_div_mod(t, 3600);
    }
    vstd::arithmetic::div_mod::lemma_fundamental_div_mod_converse(now, 3600, k, now - t);
    assert(hour_of(now) == t);
}

} // verus!
