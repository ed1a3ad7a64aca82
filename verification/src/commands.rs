use vstd::prelude::*;
use crate::clock::{date_outcome, month_outcome, month_range, parse_date, Outcome};
use crate::error::Error;
use crate::quote::Quote;
use crate::symbol::{is_symbol, norm_symbol, upper_text};
use crate::text::{push_text, same_text};

verus! {

/// The collected symbols, in the order the commands list them.
pub open spec fn symbol_list() -> Seq<Seq<char>> {
    seq!["KOSPI"@, "KOSDAQ"@, "USDKRW"@]
}

pub fn supported_symbols() -> (r: Vec<String>)
    ensures
        r@.map_values(|s: String| s@) == symbol_list(),
{
    let mut v: Vec<String> = Vec::new();
    v.push("KOSPI".to_owned());
    v.push("KOSDAQ".to_owned());
    v.push("USDKRW".to_owned());
    assert(v@.map_values(|s: String| s@) =~= symbol_list());
    v
}

/// Trend label of a date range: `"{from} ~ {to}"`, with `현재` (now) for an open end.
pub open spec fn range_label(from: Seq<char>, to: Option<&str>) -> Seq<char> {
    from + " ~ "@ + match to {
        Some(t) => t@,
        None => "현재"@,
    }
}

/// The window and label `trend` reports on: a whole month when one is given, else from a start
/// date to an end date or to `now`.
pub open spec fn trend_window_post(
    month: Option<&str>,
    from: Option<&str>,
    to: Option<&str>,
    now: int,
    r: Result<(i64, i64, String), Error>,
) -> bool {
    match month {
        Some(m) => match month_outcome(m@) {
            Outcome::Refused => r matches Err(Error::BadMonth(t)) && t@ == m@,
            Outcome::Unrepresentable => r matches Err(Error::OutOfRange),
            Outcome::Value((a, b)) => r matches Ok((x, y, l)) && x == a && y == b && l@ == m@,
        },
        None => match from {
            None => r matches Err(Error::NoRange),
            Some(f) => match date_outcome(f@, false) {
                Outcome::Refused => r matches Err(Error::BadDate(t)) && t@ == f@,
                Outcome::Unrepresentable => r matches Err(Error::OutOfRange),
                Outcome::Value(a) => match to {
                    None => r matches Ok((x, y, l)) && x == a && y == now && l@ == range_label(f@, to),
                    Some(t) => match date_outcome(t@, true) {
                        Outcome::Refused => r matches Err(Error::BadDate(e)) && e@ == t@,
                        Outcome::Unrepresentable => r matches Err(Error::OutOfRange),
                        Outcome::Value(b) => r matches Ok((x, y, l)) && x == a && y == b && l@
                            == range_label(f@, to),
                    },
                },
            },
        },
    }
}

/// Resolves `trend`'s options to a window `[from, to]` and its label.
pub fn trend_window(month: Option<&str>, from: Option<&str>, to: Option<&str>, now: i64) -> (r: Result<
    (i64, i64, String),
    Error,
>)
    ensures
        trend_window_post(month, from, to, now as int, r),
{
    match month {
        Some(m) => {
            let (f, t) = month_range(m)?;
            Ok((f, t, m.to_owned()))
        },
        None => match from {
            None => Err(Error::NoRange),
            Some(f) => {
                let ft = parse_date(f, false)?;
                let tt = match to {
                    Some(t) => parse_date(t, true)?,
                    None => now,
                };
                let mut label: String = f.to_owned();
                push_text(&mut label, " ~ ");
                match to {
                    Some(t) => push_text(&mut label, t),
                    None => push_text(&mut label, "현재"),
                }
                assert(label@ =~= range_label(f@, to));
                Ok((ft, tt, label))
            },
        },
    }
}

/// `[from, to]` of `fetch`: from the start of the first day to the end of the last, or to `now`.
pub open spec fn fetch_window_post(from: &str, to: Option<&str>, now: int, r: Result<(i64, i64), Error>) -> bool {
    match date_outcome(from@, false) {
        Outcome::Refused => r matches Err(Error::BadDate(t)) && t@ == from@,
        Outcome::Unrepresentable => r matches Err(Error::OutOfRange),
        Outcome::Value(a) => match to {
            None => r matches Ok((x, y)) && x == a && y == now,
            Some(t) => match date_outcome(t@, true) {
                Outcome::Refused => r matches Err(Error::BadDate(e)) && e@ == t@,
                Outcome::Unrepresentable => r matches Err(Error::OutOfRange),
                Outcome::Value(b) => r matches Ok((x, y)) && x == a && y == b,
            },
        },
    }
}

pub fn fetch_window(from: &str, to: Option<&str>, now: i64) -> (r: Result<(i64, i64), Error>)
    ensures
        fetch_window_post(from, to, now as int, r),
{
    let ft = parse_date(from, false)?;
    let tt = match to {
        Some(t) => parse_date(t, true)?,
        None => now,
    };
    Ok((ft, tt))
}

/// What `export` reads: from the given first day (or from the epoch), to the given last day (or
/// to `now`), for the given symbol (or all of them).
pub open spec fn export_plan_post(
    symbol: Option<&str>,
    from: Option<&str>,
    to: Option<&str>,
    now: int,
    r: Result<(i64, i64, Vec<String>), Error>,
) -> bool {
    let start = match from {
        Some(f) => date_outcome(f@, false),
        None => Outcome::Value(0),
    };
    let end = match to {
        Some(t) => date_outcome(t@, true),
        None => Outcome::Value(now),
    };
    match start {
        Outcome::Refused => r matches Err(Error::BadDate(t)) && from matches Some(f) && t@ == f@,
        Outcome::Unrepresentable => r matches Err(Error::OutOfRange),
        Outcome::Value(a) => match end {
            Outcome::Refused => r matches Err(Error::BadDate(t)) && to matches Some(e) && t@ == e@,
            Outcome::Unrepresentable => r matches Err(Error::OutOfRange),
            Outcome::Value(b) => match symbol {
                None => r matches Ok((x, y, syms)) && x == a && y == b && syms@.map_values(
                    |c: String| c@,
                ) == symbol_list(),
                Some(s) => {
                    &&& (r is Ok <==> is_symbol(upper_text(s@)))
                    &&& r matches Ok((x, y, syms)) ==> x == a && y == b && syms.len() == 1 && syms[0]@
                        == upper_text(s@)
                    &&& r matches Err(e) ==> e matches Error::UnsupportedSymbol(t) && t@ == s@
                },
            },
        },
    }
}

/// Resolves `export`'s options to a window and the symbols to export.
pub fn export_plan(symbol: Option<&str>, from: Option<&str>, to: Option<&str>, now: i64) -> (r: Result<
    (i64, i64, Vec<String>),
    Error,
>)
    ensures
        export_plan_post(symbol, from, to, now as int, r),
{
    let from_ts = match from {
        Some(f) => parse_date(f, false)?,
        None => 0,
    };
    let to_ts = match to {
        Some(t) => parse_date(t, true)?,
        None => now,
    };
    let symbols = match symbol {
        Some(s) => {
            let u = norm_symbol(s)?;
            let mut v: Vec<String> = Vec::new();
            v.push(u);
            v
        },
        None => supported_symbols(),
    };
    Ok((from_ts, to_ts, symbols))
}

/// Index of the last quote of `symbol`, the one `latest` shows.
pub fn last_of_symbol(rows: &[Quote], symbol: &str) -> (r: Option<usize>)
    ensures
        r matches Some(i) ==> i < rows.len() && rows@[i as int].symbol@ == symbol@ && forall|j: int|
            i < j < rows.len() ==> rows@[j].symbol@ != symbol@,
        r is None ==> forall|j: int| 0 <= j < rows.len() ==> rows@[j].symbol@ != symbol@,
{
    let mut i: usize = rows.len();
    while i > 0
        invariant
            i <= rows.len(),
            forall|j: int| i <= j < rows.len() ==> rows@[j].symbol@ != symbol@,
        decreases i,
    {
        if same_text(rows[i - 1].symbol.as_str(), symbol) {
            return Some(i - 1);
        }
        i -= 1;
    }
    None
}

} // verus!
