use vstd::prelude::*;
use crate::calendar::{in_utc_range, kst_hour, kst_weekday, MAX_UTC_TS, MIN_UTC_TS};
use crate::clock::kst_day_hour;
use crate::quote::Quote;
use crate::ranges::lemma_filter_positions;
use crate::text::same_text;
use std::collections::HashSet;

verus! {

broadcast use vstd::std_specs::hash::group_hash_axioms;

/// Division rounding toward zero, as Rust's `/` on signed integers.
pub open spec fn div_trunc(a: int, b: int) -> int
    recommends
        b > 0,
{
    if a >= 0 {
        a / b
    } else {
        -((-a) / b)
    }
}

/// Seconds after the hour during which a stamp still belongs to that hour's slot: the 09:00
/// opening tick is stamped a few seconds to tens of seconds after the hour.
pub const SLOT_GRACE: i64 = 120;

/// Stamps for which `slot_of` stays within `i64`.
pub open spec fn slot_defined(ts: int) -> bool {
    i64::MIN + 120 <= ts <= i64::MAX - 3479
}

/// The slot of a stamp: the hour it was collected in, `(ts - 120 + 3599) / 3600 * 3600` with
/// Rust's truncating division.
pub open spec fn slot_spec(ts: int) -> int {
    div_trunc(ts - SLOT_GRACE + 3599, 3600) * 3600
}

/// The collection slot (a KST hour) that a stamp belongs to.
pub fn slot_of(ts: i64) -> (r: i64)
    requires
        slot_defined(ts as int),
    ensures
        r == slot_spec(ts as int),
{
    (ts - SLOT_GRACE + 3599) / 3600 * 3600
}

/// Whether a collection of `symbol` is due on a KST `day` (1 = Monday) at `hour`.
pub open spec fn expected_at(symbol: Seq<char>, day: int, hour: int) -> bool {
    if symbol == "KOSPI"@ || symbol == "KOSDAQ"@ {
        1 <= day <= 5 && 9 <= hour <= 16
    } else if symbol == "USDKRW"@ {
        (1 <= day <= 5 && !(day == 1 && hour < 6)) || (day == 6 && hour < 6)
    } else {
        false
    }
}

pub open spec fn expected_spec(symbol: Seq<char>, ts: int) -> bool {
    expected_at(symbol, kst_weekday(ts), kst_hour(ts))
}

/// Whether a collection of `symbol` should have happened at the KST hour of `ts`: stock
/// indices on weekdays 09:00-16:00, the won-dollar rate from Monday 06:00 to Saturday 06:00.
pub fn expected(symbol: &str, ts: i64) -> (r: bool)
    requires
        in_utc_range(ts as int),
    ensures
        r == expected_spec(symbol@, ts as int),
{
    let (day, hour) = kst_day_hour(ts);
    if same_text(symbol, "KOSPI") || same_text(symbol, "KOSDAQ") {
        1 <= day && day <= 5 && 9 <= hour && hour <= 16
    } else if same_text(symbol, "USDKRW") {
        (1 <= day && day <= 5 && !(day == 1 && hour < 6)) || (day == 6 && hour < 6)
    } else {
        false
    }
}

/// Seconds without a collection after which, inside the collection window, it counts as stopped.
pub const STALE_SECS: i64 = 7200;

/// More than two hours have passed since `t`, during the collection window.
pub open spec fn too_old(t: int, in_window: bool, now: int) -> bool {
    in_window && now - t > STALE_SECS
}

pub open spec fn stale_spec(last_run: Option<i64>, last_ts: Option<i64>, in_window: bool, now: int) -> bool {
    match last_run {
        Some(t) => too_old(t as int, in_window, now),
        None => match last_ts {
            Some(t) => too_old(t as int, in_window, now),
            None => true,
        },
    }
}

/// Whether collection has stopped. The reference is the last non-failed run; only when no run
/// is logged does the last stored quote stand in, and no data at all counts as stopped.
pub fn is_stale(last_run: Option<i64>, last_ts: Option<i64>, in_window: bool, now: i64) -> (r: bool)
    ensures
        r == stale_spec(last_run, last_ts, in_window, now as int),
{
    let reference = match last_run {
        Some(t) => Some(t),
        None => last_ts,
    };
    match reference {
        Some(t) => in_window && (now as i128) - (t as i128) > STALE_SECS as i128,
        None => true,
    }
}

/// First hour on or after `from` (Rust's truncating division).
pub open spec fn hour_start(from: int) -> int {
    div_trunc(from + 3599, 3600) * 3600
}

/// Some quote of `symbol` falls in slot `t`.
pub open spec fn slot_filled(symbol: Seq<char>, rows: Seq<Quote>, t: int) -> bool {
    exists|i: int| 0 <= i < rows.len() && rows[i].symbol@ == symbol && slot_spec(rows[i].ts as int) == t
}

/// Hour `t` of `[from, to]` is due for `symbol` but no quote fills its slot.
#[verifier::opaque]
pub open spec fn slot_missing(symbol: Seq<char>, rows: Seq<Quote>, from: int, to: int, t: int) -> bool {
    &&& hour_start(from) <= t <= to
    &&& t % 3600 == 0
    &&& expected_spec(symbol, t)
    &&& !slot_filled(symbol, rows, t)
}

/// Inputs on which `missing_slots` stays within chrono's range and `i64`.
pub open spec fn missing_slots_defined(symbol: Seq<char>, rows: Seq<Quote>, from: int, to: int) -> bool {
    &&& from <= i64::MAX - 3599
    &&& hour_start(from) <= to ==> MIN_UTC_TS <= hour_start(from) && to <= MAX_UTC_TS
    &&& forall|i: int| 0 <= i < rows.len() && rows[i].symbol@ == symbol ==> slot_defined(rows[i].ts as int)
}

/// Within one hour of the grid only the hour itself can be missing, and it is missing exactly
/// when it is due and its slot is empty.
proof fn lemma_hour_step(symbol: Seq<char>, rows: Seq<Quote>, from: int, to: int, t: int)
    requires
        t % 3600 == 0,
        hour_start(from) <= t <= to,
    ensures
        forall|x: int| t < x < t + 3600 ==> !slot_missing(symbol, rows, from, to, x),
        slot_missing(symbol, rows, from, to, t) == (expected_spec(symbol, t) && !slot_filled(symbol, rows, t)),
{
    reveal(slot_missing);
}

proof fn lemma_missing_in_range(symbol: Seq<char>, rows: Seq<Quote>, from: int, to: int)
    ensures
        forall|x: int| #[trigger]
            slot_missing(symbol, rows, from, to, x) ==> hour_start(from) <= x <= to && x % 3600 == 0,
{
    reveal(slot_missing);
}

/// `r` lists exactly the missing hours, in increasing order.
pub open spec fn missing_post(symbol: Seq<char>, rows: Seq<Quote>, from: int, to: int, r: Seq<i64>) -> bool {
    &&& forall|i: int| 0 <= i < r.len() ==> slot_missing(symbol, rows, from, to, #[trigger] r[i] as int)
    &&& forall|i: int, j: int| 0 <= i < j < r.len() ==> r[i] < r[j]
    &&& forall|t: int| slot_missing(symbol, rows, from, to, t) ==> r.contains(t as i64)
}

/// The hours in `[from, to]` at which `symbol` should have been collected but no quote of it
/// fills the slot, in increasing order.
pub fn missing_slots(symbol: &str, rows: &[Quote], from: i64, to: i64) -> (r: Vec<i64>)
    requires
        missing_slots_defined(symbol@, rows@, from as int, to as int),
    ensures
        missing_post(symbol@, rows@, from as int, to as int, r@),
{
    let sym: String = symbol.to_owned();
    let mut filled: HashSet<i64> = HashSet::new();
    let mut i: usize = 0;
    while i < rows.len()
        invariant
            i <= rows.len(),
            sym@ == symbol@,
            missing_slots_defined(symbol@, rows@, from as int, to as int),
            forall|t: i64| filled@.contains(t) <==> (exists|j: int| 0 <= j < i && rows@[j].symbol@ == symbol@ && slot_spec(rows@[j].ts as int) == t),
        decreases rows.len() - i,
    {
        let is_symbol = rows[i].symbol == sym;
        if is_symbol {
            filled.insert(slot_of(rows[i].ts));
        }
        assert forall|t: i64| filled@.contains(t) <==> (exists|j: int| 0 <= j < i + 1 && rows@[j].symbol@ == symbol@ && slot_spec(rows@[j].ts as int) == t) by {
            if exists|j: int| 0 <= j < i + 1 && rows@[j].symbol@ == symbol@ && slot_spec(rows@[j].ts as int) == t {
                let j = choose|j: int| 0 <= j < i + 1 && rows@[j].symbol@ == symbol@ && slot_spec(rows@[j].ts as int) == t;
                if j == i {
                    assert(is_symbol);
                }
            }
        }
        i += 1;
    }
    let ghost t0 = hour_start(from as int);
    proof {
        lemma_missing_in_range(symbol@, rows@, from as int, to as int);
    }
    let mut t: i64 = (from + 3599) / 3600 * 3600;
    let mut missing: Vec<i64> = Vec::new();
    while t <= to
        invariant
            t0 <= t,
            t % 3600 == 0,
            t0 == hour_start(from as int),
            forall|x: int| #[trigger]
                slot_missing(symbol@, rows@, from as int, to as int, x) ==> t0 <= x <= to && x % 3600 == 0,
            t <= to ==> MIN_UTC_TS <= t0 && to <= MAX_UTC_TS,
            t0 <= to ==> t as int <= to as int + 3600,
            forall|x: i64| filled@.contains(x) <==> slot_filled(symbol@, rows@, x as int),
            forall|k: int| 0 <= k < missing.len() ==> slot_missing(symbol@, rows@, from as int, to as int, #[trigger] missing@[k] as int) && missing@[k] < t,
            forall|k: int, l: int| 0 <= k < l < missing.len() ==> missing@[k] < missing@[l],
            forall|x: int| x < t && slot_missing(symbol@, rows@, from as int, to as int, x) ==> missing@.contains(x as i64),
        decreases to as int + 3600 - t as int,
    {
        let ghost prev = missing@;
        proof {
            lemma_hour_step(symbol@, rows@, from as int, to as int, t as int);
        }
        let due = expected(symbol, t);
        let was_missing = due && !filled.contains(&t);
        if was_missing {
            missing.push(t);
        }
        proof {
            assert forall|x: int| x < t + 3600 && slot_missing(symbol@, rows@, from as int, to as int, x) implies missing@.contains(x as i64) by {
                if x < t {
                    let k = choose|k: int| 0 <= k < prev.len() && prev[k] == x as i64;
                    assert(missing@[k] == x as i64);
                } else {
                    assert(x == t);
                    assert(missing@[missing.len() - 1] == t);
                }
            }
        }
        t = t + 3600;
    }
    missing
}

/// Slot `T` (a whole hour) holds the stamps of `(T - 58 min, T + 2 min]`: stamps from the
/// hour before round up to `T`, and the opening tick stamped up to two minutes after `T`
/// stays in `T`. Holds for stamps from 1970 on; before that, Rust's `/` rounds toward zero.
pub proof fn law_slot_window(ts: int, t: int)
    requires
        ts >= 0,
        t % 3600 == 0,
    ensures
        slot_spec(ts) % 3600 == 0,
        slot_spec(ts) - 3480 < ts <= slot_spec(ts) + 120,
        (t - 3480 < ts <= t + 120) ==> slot_spec(ts) == t,
{
    let n = ts - SLOT_GRACE + 3599;
    assert(n >= 0);
    assert(div_trunc(n, 3600) == n / 3600);
    let q = n / 3600;
    assert(n == 3600 * q + n % 3600 && 0 <= n % 3600 < 3600) by {
        vstd::arithmetic::div_mod::lemma_fundamental_div_mod(n, 3600);
    }
    assert((q * 3600) % 3600 == 0) by {
        vstd::arithmetic::div_mod::lemma_mod_multiples_basic(q, 3600);
    }
    if t - 3480 < ts <= t + SLOT_GRACE {
        let k = t / 3600;
        assert(t == 3600 * k) by {
            vstd::arithmetic::div_mod::lemma_fundamental_div_mod(t, 3600);
        }
        assert(q == k) by (nonlinear_arith)
            requires
                n == 3600 * q + n % 3600,
                0 <= n % 3600 < 3600,
                t == 3600 * k,
                n == ts + 3479,
                t - 3480 < ts <= t + 120,
        ;
    }
}

/// Outside the collection window nothing is stale, as long as some run or quote is known.
pub proof fn law_not_stale_outside_window(last_run: Option<i64>, last_ts: Option<i64>, now: int)
    requires
        last_run is Some || last_ts is Some,
    ensures
        !stale_spec(last_run, last_ts, false, now),
{
}

/// A logged run decides staleness on its own: the age of the last quote does not matter,
/// since an unchanged value writes no quote.
pub proof fn law_logged_run_decides(t: i64, a: Option<i64>, b: Option<i64>, in_window: bool, now: int)
    ensures
        stale_spec(Some(t), a, in_window, now) == stale_spec(Some(t), b, in_window, now),
        stale_spec(Some(t), a, in_window, now) == (in_window && now - t > 7200),
{
}

/// Staleness persists: what is stale now is still stale later with nothing new logged.
pub proof fn law_stale_persists(last_run: Option<i64>, last_ts: Option<i64>, in_window: bool, now: int, later: int)
    requires
        now <= later,
        stale_spec(last_run, last_ts, in_window, now),
    ensures
        stale_spec(last_run, last_ts, in_window, later),
{
}

/// The won-dollar rate is collected continuously from Monday 06:00 to Saturday 06:00 KST.
pub proof fn law_usdkrw_window(ts: int)
    ensures
        expected_spec("USDKRW"@, ts) <==> 6 <= (kst_weekday(ts) - 1) * 24 + kst_hour(ts) < 126,
{
    reveal_strlit("USDKRW");
    reveal_strlit("KOSPI");
    reveal_strlit("KOSDAQ");
    assert("USDKRW"@.len() != "KOSPI"@.len());
    assert("USDKRW"@[0] != "KOSDAQ"@[0]);
    let x = ts + 32400;
    assert(0 <= x % 86400 < 86400) by {
        vstd::arithmetic::div_mod::lemma_mod_bound(x, 86400);
    }
    assert(0 <= kst_hour(ts) < 24);
    assert(1 <= kst_weekday(ts) <= 7) by {
        vstd::arithmetic::div_mod::lemma_mod_bound(x / 86400 + 3, 7);
    }
}

/// Stock indices are collected on weekdays from 09:00 to 16:00 KST, never on weekends.
pub proof fn law_index_window(symbol: Seq<char>, ts: int)
    requires
        symbol == "KOSPI"@ || symbol == "KOSDAQ"@,
    ensures
        expected_spec(symbol, ts) <==> kst_weekday(ts) <= 5 && 9 <= kst_hour(ts) <= 16,
{
    let x = ts + 32400;
    assert(1 <= kst_weekday(ts) <= 7) by {
        vstd::arithmetic::div_mod::lemma_mod_bound(x / 86400 + 3, 7);
    }
}

/// A quote stamped within its hour's window (from 58 minutes before to 2 minutes after the
/// hour) keeps that hour from being reported missing.
pub proof fn law_quote_fills_its_hour(
    symbol: Seq<char>,
    rows: Seq<Quote>,
    from: int,
    to: int,
    r: Seq<i64>,
    i: int,
    t: i64,
)
    requires
        missing_post(symbol, rows, from, to, r),
        0 <= i < rows.len(),
        rows[i].symbol@ == symbol,
        rows[i].ts >= 0,
        t % 3600 == 0,
        t - 3480 < rows[i].ts <= t + 120,
    ensures
        !r.contains(t),
{
    reveal(slot_missing);
    law_slot_window(rows[i].ts as int, t as int);
    assert(slot_filled(symbol, rows, t as int));
    if r.contains(t) {
        let k = choose|k: int| 0 <= k < r.len() && r[k] == t;
        assert(slot_missing(symbol, rows, from, to, r[k] as int));
    }
}


/// Every row of `a` also stands in `b`, with the same symbol and stamp.
pub open spec fn rows_within(a: Seq<Quote>, b: Seq<Quote>) -> bool {
    forall|i: int|
        0 <= i < a.len() ==> exists|j: int|
            0 <= j < b.len() && #[trigger] b[j].symbol@ == #[trigger] a[i].symbol@ && b[j].ts == a[i].ts
}

/// Every row of `symbol` in `a` also stands in `b`.
pub open spec fn symbol_rows_within(symbol: Seq<char>, a: Seq<Quote>, b: Seq<Quote>) -> bool {
    forall|i: int|
        0 <= i < a.len() && a[i].symbol@ == symbol ==> exists|j: int|
            0 <= j < b.len() && #[trigger] b[j].symbol@ == #[trigger] a[i].symbol@ && b[j].ts == a[i].ts
}

/// A slot filled by the rows of `a` is filled by the rows of `b` when `b` holds all of
/// `a`'s rows of `symbol`.
proof fn lemma_filled_grows(symbol: Seq<char>, a: Seq<Quote>, b: Seq<Quote>, t: int)
    requires
        symbol_rows_within(symbol, a, b),
        slot_filled(symbol, a, t),
    ensures
        slot_filled(symbol, b, t),
{
    let i = choose|i: int| 0 <= i < a.len() && a[i].symbol@ == symbol && slot_spec(a[i].ts as int) == t;
    let j = choose|j: int| 0 <= j < b.len() && b[j].symbol@ == a[i].symbol@ && b[j].ts == a[i].ts;
    assert(0 <= j < b.len() && b[j].symbol@ == symbol && slot_spec(b[j].ts as int) == t);
}

/// Two strictly increasing sequences with the same elements are equal.
proof fn lemma_increasing_same_elements(a: Seq<i64>, b: Seq<i64>)
    requires
        forall|i: int, j: int| 0 <= i < j < a.len() ==> a[i] < a[j],
        forall|i: int, j: int| 0 <= i < j < b.len() ==> b[i] < b[j],
        forall|x: i64| a.contains(x) <==> b.contains(x),
    ensures
        a == b,
    decreases a.len(),
{
    if a.len() == 0 {
        if b.len() > 0 {
            assert(b.contains(b[0]));
        }
        assert(a =~= b);
    } else {
        assert(a.contains(a[0]));
        assert(b.contains(b[0]));
        let k = choose|k: int| 0 <= k < b.len() && b[k] == a[0];
        let l = choose|l: int| 0 <= l < a.len() && a[l] == b[0];
        assert(a[0] == b[0]);
        let a2 = a.drop_first();
        let b2 = b.drop_first();
        assert forall|x: i64| a2.contains(x) <==> b2.contains(x) by {
            if a2.contains(x) {
                let i = choose|i: int| 0 <= i < a2.len() && a2[i] == x;
                assert(a[i + 1] == x && a.contains(x));
                let j = choose|j: int| 0 <= j < b.len() && b[j] == x;
                assert(j != 0);
                assert(b2[j - 1] == x);
            }
            if b2.contains(x) {
                let j = choose|j: int| 0 <= j < b2.len() && b2[j] == x;
                assert(b[j + 1] == x && b.contains(x));
                let i = choose|i: int| 0 <= i < a.len() && a[i] == x;
                assert(i != 0);
                assert(a2[i - 1] == x);
            }
        }
        lemma_increasing_same_elements(a2, b2);
        assert(a =~= b) by {
            assert forall|i: int| 0 < i < a.len() implies a[i] == b[i] by {
                assert(a[i] == a2[i - 1] && b[i] == b2[i - 1]);
            }
        }
    }
}

/// More quotes never make an hour missing: with rows added, the missing hours are those
/// missing before that the new rows leave empty, in the same order; and when none of the
/// added rows is of `symbol`, the missing hours are the same.
pub proof fn law_added_rows_only_fill_hours(
    symbol: Seq<char>,
    rows1: Seq<Quote>,
    rows2: Seq<Quote>,
    from: int,
    to: int,
    r1: Seq<i64>,
    r2: Seq<i64>,
)
    requires
        missing_post(symbol, rows1, from, to, r1),
        missing_post(symbol, rows2, from, to, r2),
        rows_within(rows1, rows2),
    ensures
        r2 == r1.filter(|t: i64| r2.contains(t)),
        symbol_rows_within(symbol, rows2, rows1) ==> r2 == r1,
{
    broadcast use Seq::lemma_filter_contains, Seq::lemma_filter_pred;

    reveal(slot_missing);
    assert forall|t: int| slot_missing(symbol, rows2, from, to, t) implies slot_missing(
        symbol,
        rows1,
        from,
        to,
        t,
    ) by {
        if slot_filled(symbol, rows1, t) {
            lemma_filled_grows(symbol, rows1, rows2, t);
        }
    }
    let p = |t: i64| r2.contains(t);
    let f = r1.filter(p);
    assert forall|x: i64| f.contains(x) <==> r2.contains(x) by {
        if f.contains(x) {
            let k = choose|k: int| 0 <= k < f.len() && f[k] == x;
            assert(p(f[k]));
        }
        if r2.contains(x) {
            let k = choose|k: int| 0 <= k < r2.len() && r2[k] == x;
            assert(slot_missing(symbol, rows2, from, to, r2[k] as int));
            assert(r1.contains(x));
            let i = choose|i: int| 0 <= i < r1.len() && r1[i] == x;
            assert(p(r1[i]));
        }
    }
    assert forall|k: int, l: int| 0 <= k < l < f.len() implies f[k] < f[l] by {
        lemma_filter_positions(r1, p, k, l);
    }
    lemma_increasing_same_elements(f, r2);
    if symbol_rows_within(symbol, rows2, rows1) {
        assert forall|x: i64| r1.contains(x) <==> r2.contains(x) by {
            if r1.contains(x) {
                let k = choose|k: int| 0 <= k < r1.len() && r1[k] == x;
                assert(slot_missing(symbol, rows1, from, to, r1[k] as int));
                if slot_filled(symbol, rows2, x as int) {
                    lemma_filled_grows(symbol, rows2, rows1, x as int);
                }
                assert(slot_missing(symbol, rows2, from, to, x as int));
            }
        }
        lemma_increasing_same_elements(r1, r2);
    }
}


/// The search starts on the hour: no earlier than `x`, and, for `x > -3600` (or a later hour
/// of 0 on), at the first whole hour at or after `x`.
pub proof fn lemma_hour_start_bounds(x: int, t: int)
    ensures
        hour_start(x) >= x,
        hour_start(x) % 3600 == 0,
        t % 3600 == 0 && t >= x && (x > -3600 || t >= 0) ==> t >= hour_start(x),
{
    let n = x + 3599;
    if n >= 0 {
        let q = n / 3600;
        assert(n == 3600 * q + n % 3600 && 0 <= n % 3600 < 3600) by {
            vstd::arithmetic::div_mod::lemma_fundamental_div_mod(n, 3600);
        }
        assert(hour_start(x) == q * 3600);
        assert((q * 3600) % 3600 == 0) by {
            vstd::arithmetic::div_mod::lemma_mod_multiples_basic(q, 3600);
        }
        if t % 3600 == 0 && t >= x {
            let k = t / 3600;
            assert(t == 3600 * k) by {
                vstd::arithmetic::div_mod::lemma_fundamental_div_mod(t, 3600);
            }
            assert(k >= q) by (nonlinear_arith)
                requires
                    t == 3600 * k,
                    t >= x,
                    n == x + 3599,
                    n == 3600 * q + n % 3600,
                    0 <= n % 3600 < 3600,
            ;
        }
    } else {
        let m = -n;
        let q = m / 3600;
        assert(m == 3600 * q + m % 3600 && 0 <= m % 3600 < 3600) by {
            vstd::arithmetic::div_mod::lemma_fundamental_div_mod(m, 3600);
        }
        assert(hour_start(x) == (-q) * 3600);
        assert(((-q) * 3600) % 3600 == 0) by {
            vstd::arithmetic::div_mod::lemma_mod_multiples_basic(-q, 3600);
        }
        assert(hour_start(x) >= x) by (nonlinear_arith)
            requires
                hour_start(x) == (-q) * 3600,
                m == 3600 * q + m % 3600,
                0 <= m % 3600 < 3600,
                m == -(x + 3599),
        ;
        assert(hour_start(x) <= 0) by (nonlinear_arith)
            requires
                hour_start(x) == (-q) * 3600,
                m == 3600 * q + m % 3600,
                0 <= m % 3600 < 3600,
                m > 0,
        ;
    }
}

/// `missing_slots` lists whole hours inside `[from, to]` that are due for `symbol` and that no
/// quote of it fills; and it lists every such hour (for `from > -3600`, or from hour 0 on).
pub proof fn law_missing_hours_are_the_empty_due_hours(
    symbol: Seq<char>,
    rows: Seq<Quote>,
    from: int,
    to: int,
    r: Seq<i64>,
)
    requires
        missing_post(symbol, rows, from, to, r),
    ensures
        forall|i: int|
            0 <= i < r.len() ==> from <= #[trigger] r[i] <= to && r[i] % 3600 == 0 && expected_spec(
                symbol,
                r[i] as int,
            ) && !slot_filled(symbol, rows, r[i] as int),
        forall|t: int|
            from <= t <= to && t % 3600 == 0 && (from > -3600 || t >= 0) && expected_spec(symbol, t)
                && !slot_filled(symbol, rows, t) ==> #[trigger] r.contains(t as i64),
{
    reveal(slot_missing);
    lemma_hour_start_bounds(from, 0);
    assert forall|t: int|
        from <= t <= to && t % 3600 == 0 && (from > -3600 || t >= 0) && expected_spec(symbol, t)
            && !slot_filled(symbol, rows, t) implies #[trigger] r.contains(t as i64) by {
        lemma_hour_start_bounds(from, t);
        assert(slot_missing(symbol, rows, from, to, t));
    }
}

} // verus!
