use vstd::prelude::*;
use crate::text::same_text;

verus! {

/// A stretch `[from_ts, to_ts]` of a symbol's quotes that the local cache holds completely.
pub struct Span {
    pub symbol: String,
    pub from_ts: i64,
    pub to_ts: i64,
}

pub open spec fn span_covers(s: Span, symbol: Seq<char>, from: int, to: int) -> bool {
    s.symbol@ == symbol && s.from_ts <= from && s.to_ts >= to
}

/// Some recorded span of `symbol` contains all of `[from, to]`.
pub open spec fn is_covered(spans: Seq<Span>, symbol: Seq<char>, from: int, to: int) -> bool {
    exists|i: int| 0 <= i < spans.len() && span_covers(spans[i], symbol, from, to)
}

/// Second `p` of `symbol` lies in a recorded span.
pub open spec fn covers_point(spans: Seq<Span>, symbol: Seq<char>, p: int) -> bool {
    exists|i: int| 0 <= i < spans.len() && spans[i].symbol@ == symbol && spans[i].from_ts <= p <= spans[i].to_ts
}

/// Whether the cache holds `[from, to]` of `symbol` completely, so that no request is needed.
pub fn covered(spans: &[Span], symbol: &str, from: i64, to: i64) -> (r: bool)
    ensures
        r == is_covered(spans@, symbol@, from as int, to as int),
{
    let mut i: usize = 0;
    while i < spans.len()
        invariant
            i <= spans.len(),
            forall|k: int| 0 <= k < i ==> !span_covers(spans@[k], symbol@, from as int, to as int),
        decreases spans.len() - i,
    {
        if same_text(spans[i].symbol.as_str(), symbol) && spans[i].from_ts <= from && spans[i].to_ts >= to {
            assert(span_covers(spans@[i as int], symbol@, from as int, to as int));
            return true;
        }
        i += 1;
    }
    false
}

/// Second `p` lies in one of the stretches `r`.
pub open spec fn in_pieces(r: Seq<(i64, i64)>, p: int) -> bool {
    exists|i: int| 0 <= i < r.len() && (#[trigger] r[i]).0 <= p <= r[i].1
}

/// The stretches `r` are non-empty, lie inside `[from, to]`, and come in increasing order
/// without overlapping.
pub open spec fn pieces_ordered(r: Seq<(i64, i64)>, from: int, to: int) -> bool {
    &&& forall|i: int| 0 <= i < r.len() ==> from <= #[trigger] r[i].0 <= r[i].1 <= to
    &&& forall|i: int, j: int| 0 <= i < j < r.len() ==> #[trigger] r[i].1 < #[trigger] r[j].0
}

/// The stretches `pieces` less the seconds `[s, e]`.
fn cut(pieces: &Vec<(i64, i64)>, from: i64, to: i64, s: i64, e: i64) -> (r: Vec<(i64, i64)>)
    requires
        pieces_ordered(pieces@, from as int, to as int),
        s <= e,
    ensures
        pieces_ordered(r@, from as int, to as int),
        forall|p: int| in_pieces(r@, p) <==> (in_pieces(pieces@, p) && !(s <= p <= e)),
{
    let mut next: Vec<(i64, i64)> = Vec::new();
    let mut idx: usize = 0;
    while idx < pieces.len()
        invariant
            idx <= pieces.len(),
            s <= e,
            pieces_ordered(pieces@, from as int, to as int),
            pieces_ordered(next@, from as int, to as int),
            forall|i: int, j: int|
                0 <= i < next.len() && idx <= j < pieces.len() ==> #[trigger] next@[i].1 < #[trigger] pieces@[j].0,
            forall|p: int|
                in_pieces(next@, p) <==> ((exists|j: int| 0 <= j < idx && (#[trigger] pieces@[j]).0 <= p <= pieces@[j].1)
                    && !(s <= p <= e)),
        decreases pieces.len() - idx,
    {
        let (a, b) = pieces[idx];
        let ghost prev = next@;
        if b < s || a > e {
            next.push((a, b));
        } else {
            if a < s {
                next.push((a, s - 1));
            }
            if e < b {
                next.push((e + 1, b));
            }
        }
        proof {
            assert forall|i: int, j: int|
                0 <= i < next.len() && idx + 1 <= j < pieces.len() implies #[trigger] next@[i].1 < #[trigger] pieces@[j].0 by {
                assert(pieces@[idx as int].1 < pieces@[j].0);
                if i < prev.len() {
                    assert(next@[i] == prev[i]);
                }
            }
            assert forall|i: int, j: int| 0 <= i < j < next.len() implies #[trigger] next@[i].1 < #[trigger] next@[j].0 by {
                if j >= prev.len() && i < prev.len() {
                    assert(next@[i] == prev[i]);
                    assert(prev[i].1 < pieces@[idx as int].0);
                } else if i < prev.len() {
                    assert(next@[i] == prev[i] && next@[j] == prev[j]);
                }
            }
            assert forall|p: int|
                in_pieces(next@, p) <==> ((exists|j: int| 0 <= j < idx + 1 && (#[trigger] pieces@[j]).0 <= p <= pieces@[j].1)
                    && !(s <= p <= e)) by {
                if in_pieces(next@, p) {
                    let i = choose|i: int| 0 <= i < next@.len() && (#[trigger] next@[i]).0 <= p <= next@[i].1;
                    if i < prev.len() {
                        assert(prev[i] == next@[i]);
                        assert(in_pieces(prev, p));
                    } else {
                        assert(pieces@[idx as int].0 <= p <= pieces@[idx as int].1);
                    }
                }
                if (exists|j: int| 0 <= j < idx + 1 && (#[trigger] pieces@[j]).0 <= p <= pieces@[j].1) && !(s <= p <= e) {
                    let j = choose|j: int| 0 <= j < idx + 1 && (#[trigger] pieces@[j]).0 <= p <= pieces@[j].1;
                    if j < idx {
                        assert(in_pieces(prev, p));
                        let i = choose|i: int| 0 <= i < prev.len() && (#[trigger] prev[i]).0 <= p <= prev[i].1;
                        assert(next@[i] == prev[i]);
                    } else if b < s || a > e {
                        assert(next@[prev.len() as int] == (a, b));
                    } else if p < s {
                        assert(next@[prev.len() as int] == (a, (s - 1) as i64));
                    } else {
                        assert(next@[next@.len() - 1] == ((e + 1) as i64, b));
                    }
                }
            }
        }
        idx += 1;
    }
    next
}

/// `r` is, in increasing order, the stretches of `[from, to]` whose seconds no span of `symbol`
/// holds.
pub open spec fn uncovered_post(spans: Seq<Span>, symbol: Seq<char>, from: int, to: int, r: Seq<(i64, i64)>) -> bool {
    &&& pieces_ordered(r, from, to)
    &&& forall|p: int| from <= p <= to ==> (in_pieces(r, p) <==> !covers_point(spans, symbol, p))
}

/// The stretches of `[from, to]` that no recorded span of `symbol` holds, in increasing order:
/// what still has to be fetched.
pub fn uncovered(spans: &[Span], symbol: &str, from: i64, to: i64) -> (r: Vec<(i64, i64)>)
    ensures
        uncovered_post(spans@, symbol@, from as int, to as int, r@),
{
    let mut cur: Vec<(i64, i64)> = Vec::new();
    if from <= to {
        cur.push((from, to));
    }
    proof {
        assert(spans@.take(0).len() == 0);
        assert forall|p: int| from <= p <= to implies in_pieces(cur@, p) by {
            assert(cur@[0] == (from, to));
        }
    }
    let mut k: usize = 0;
    while k < spans.len()
        invariant
            k <= spans.len(),
            pieces_ordered(cur@, from as int, to as int),
            forall|p: int|
                from <= p <= to ==> (in_pieces(cur@, p) <==> !covers_point(spans@.take(k as int), symbol@, p)),
        decreases spans.len() - k,
    {
        let ghost before = cur@;
        let same = same_text(spans[k].symbol.as_str(), symbol);
        let s = spans[k].from_ts;
        let e = spans[k].to_ts;
        if same && s <= e {
            cur = cut(&cur, from, to, s, e);
        }
        proof {
            let t0 = spans@.take(k as int);
            let t1 = spans@.take(k + 1);
            assert forall|p: int| from <= p <= to implies (in_pieces(cur@, p) <==> !covers_point(t1, symbol@, p)) by {
                if covers_point(t1, symbol@, p) {
                    let i = choose|i: int| 0 <= i < t1.len() && t1[i].symbol@ == symbol@ && t1[i].from_ts <= p <= t1[i].to_ts;
                    if i < k {
                        assert(t0[i] == t1[i]);
                        assert(covers_point(t0, symbol@, p));
                    }
                }
                if covers_point(t0, symbol@, p) {
                    let i = choose|i: int| 0 <= i < t0.len() && t0[i].symbol@ == symbol@ && t0[i].from_ts <= p <= t0[i].to_ts;
                    assert(t1[i] == t0[i]);
                }
                if same && s <= e && s <= p <= e {
                    assert(t1[k as int] == spans@[k as int]);
                }
            }
        }
        k += 1;
    }
    assert(spans@.take(spans.len() as int) =~= spans@);
    cur
}

/// A span of the same symbol that overlaps or adjoins `[from, to]`: it is folded into the new one.
pub open spec fn touches(s: Span, symbol: Seq<char>, from: int, to: int) -> bool {
    s.symbol@ == symbol && s.from_ts <= to + 1 && s.to_ts >= from - 1
}

pub open spec fn stays(symbol: Seq<char>, from: int, to: int) -> spec_fn(Span) -> bool {
    |s: Span| !touches(s, symbol, from, to)
}

/// Start of the merged span: the least start among `from` and the folded spans.
pub open spec fn merged_from(spans: Seq<Span>, symbol: Seq<char>, from: int, to: int) -> int
    decreases spans.len(),
{
    if spans.len() == 0 {
        from
    } else {
        let lo = merged_from(spans.drop_last(), symbol, from, to);
        let s = spans.last();
        if touches(s, symbol, from, to) && s.from_ts < lo {
            s.from_ts as int
        } else {
            lo
        }
    }
}

/// End of the merged span: the greatest end among `to` and the folded spans.
pub open spec fn merged_to(spans: Seq<Span>, symbol: Seq<char>, from: int, to: int) -> int
    decreases spans.len(),
{
    if spans.len() == 0 {
        to
    } else {
        let hi = merged_to(spans.drop_last(), symbol, from, to);
        let s = spans.last();
        if touches(s, symbol, from, to) && s.to_ts > hi {
            s.to_ts as int
        } else {
            hi
        }
    }
}

/// The table after recording `[from, to]` of `symbol`: the spans it does not touch, in their
/// order, then one span joining `[from, to]` with every span it touches.
pub open spec fn put_post(old: Seq<Span>, symbol: Seq<char>, from: int, to: int, new: Seq<Span>) -> bool {
    &&& new.len() >= 1
    &&& new.drop_last() == old.filter(stays(symbol, from, to))
    &&& new.last().symbol@ == symbol
    &&& new.last().from_ts == merged_from(old, symbol, from, to)
    &&& new.last().to_ts == merged_to(old, symbol, from, to)
}

/// Records that `[from, to]` of `symbol` is now held completely, folding in every span of the
/// symbol that overlaps or adjoins it.
pub fn put_span(spans: &mut Vec<Span>, symbol: &str, from: i64, to: i64)
    ensures
        put_post(old(spans)@, symbol@, from as int, to as int, final(spans)@),
{
    let ghost old_spans = spans@;
    let mut kept: Vec<Span> = Vec::new();
    let mut lo: i64 = from;
    let mut hi: i64 = to;
    let mut rest: Vec<Span> = Vec::new();
    std::mem::swap(&mut rest, spans);
    let mut i: usize = 0;
    while i < rest.len()
        invariant
            i <= rest.len(),
            rest@ == old_spans,
            kept@ == old_spans.take(i as int).filter(stays(symbol@, from as int, to as int)),
            lo == merged_from(old_spans.take(i as int), symbol@, from as int, to as int),
            hi == merged_to(old_spans.take(i as int), symbol@, from as int, to as int),
        decreases rest.len() - i,
    {
        let s = &rest[i];
        let touching = same_text(s.symbol.as_str(), symbol) && (s.from_ts as i128) <= (to as i128) + 1
            && (s.to_ts as i128) >= (from as i128) - 1;
        proof {
            reveal_with_fuel(Seq::<_>::filter, 1);
            assert(old_spans.take(i + 1).drop_last() =~= old_spans.take(i as int));
            assert(old_spans.take(i + 1).last() == old_spans[i as int]);
        }
        if touching {
            if s.from_ts < lo {
                lo = s.from_ts;
            }
            if s.to_ts > hi {
                hi = s.to_ts;
            }
        } else {
            kept.push(Span { symbol: s.symbol.clone(), from_ts: s.from_ts, to_ts: s.to_ts });
        }
        i += 1;
    }
    proof {
        assert(old_spans.take(rest.len() as int) =~= old_spans);
    }
    kept.push(Span { symbol: symbol.to_owned(), from_ts: lo, to_ts: hi });
    proof {
        assert(kept@.drop_last() =~= old_spans.filter(stays(symbol@, from as int, to as int)));
    }
    *spans = kept;
}

/// End of the range that may be recorded after fetching `[from, to]` at `now`: quotes of the
/// last hour may still arrive, so coverage stops an hour before now; nothing is recorded when
/// that leaves nothing after `from`.
pub open spec fn recordable_end(from: int, to: int, now: int) -> Option<int> {
    let end = if to <= now - 3600 { to } else { now - 3600 };
    if end > from {
        Some(end)
    } else {
        None
    }
}

/// How far a freshly fetched `[from, to]` may be recorded as held.
pub fn cache_upto(from: i64, to: i64, now: i64) -> (r: Option<i64>)
    requires
        now >= i64::MIN + 3600,
    ensures
        r matches Some(e) ==> recordable_end(from as int, to as int, now as int) == Some(e as int),
        r is None ==> recordable_end(from as int, to as int, now as int) is None,
{
    let limit = now - 3600;
    let end = if to <= limit {
        to
    } else {
        limit
    };
    if end > from {
        Some(end)
    } else {
        None
    }
}

/// Coverage is recorded only up to an hour before `now`, never past `to`, and only when that
/// leaves something after `from`: it reaches exactly the earlier of `to` and `now - 3600`.
pub proof fn law_coverage_stops_an_hour_before_now(from: i64, to: i64, now: i64, r: Option<i64>)
    requires
        r matches Some(e) ==> recordable_end(from as int, to as int, now as int) == Some(e as int),
        r is None ==> recordable_end(from as int, to as int, now as int) is None,
    ensures
        r matches Some(e) ==> from < e && e <= to && e <= now - 3600 && (e == to || e == now - 3600),
        r is None <==> (to <= from || now - 3600 <= from),
{
}

proof fn lemma_merged_bounds(spans: Seq<Span>, symbol: Seq<char>, from: int, to: int)
    ensures
        merged_from(spans, symbol, from, to) <= from,
        merged_to(spans, symbol, from, to) >= to,
        forall|i: int|
            0 <= i < spans.len() && touches(spans[i], symbol, from, to) ==> merged_from(spans, symbol, from, to)
                <= spans[i].from_ts && merged_to(spans, symbol, from, to) >= spans[i].to_ts,
        merged_from(spans, symbol, from, to) == from || exists|i: int|
            0 <= i < spans.len() && touches(spans[i], symbol, from, to) && spans[i].from_ts == merged_from(
                spans,
                symbol,
                from,
                to,
            ),
        merged_to(spans, symbol, from, to) == to || exists|i: int|
            0 <= i < spans.len() && touches(spans[i], symbol, from, to) && spans[i].to_ts == merged_to(
                spans,
                symbol,
                from,
                to,
            ),
    decreases spans.len(),
{
    if spans.len() > 0 {
        let init = spans.drop_last();
        lemma_merged_bounds(init, symbol, from, to);
        assert forall|i: int|
            0 <= i < spans.len() && touches(spans[i], symbol, from, to) implies merged_from(spans, symbol, from, to)
                <= spans[i].from_ts && merged_to(spans, symbol, from, to) >= spans[i].to_ts by {
            if i < spans.len() - 1 {
                assert(init[i] == spans[i]);
            }
        }
        if merged_from(spans, symbol, from, to) != from {
            if merged_from(spans, symbol, from, to) == merged_from(init, symbol, from, to) {
                let k = choose|k: int|
                    0 <= k < init.len() && touches(init[k], symbol, from, to) && init[k].from_ts == merged_from(
                        init,
                        symbol,
                        from,
                        to,
                    );
                assert(spans[k] == init[k]);
            } else {
                assert(spans[spans.len() - 1] == spans.last());
            }
        }
        if merged_to(spans, symbol, from, to) != to {
            if merged_to(spans, symbol, from, to) == merged_to(init, symbol, from, to) {
                let k = choose|k: int|
                    0 <= k < init.len() && touches(init[k], symbol, from, to) && init[k].to_ts == merged_to(
                        init,
                        symbol,
                        from,
                        to,
                    );
                assert(spans[k] == init[k]);
            } else {
                assert(spans[spans.len() - 1] == spans.last());
            }
        }
    }
}

/// Every span kept from the old table is in the new one, and the new one holds nothing else
/// but the merged span.
proof fn lemma_put_members(old: Seq<Span>, symbol: Seq<char>, from: int, to: int, new: Seq<Span>)
    requires
        put_post(old, symbol, from, to, new),
    ensures
        forall|i: int|
            0 <= i < old.len() && !touches(old[i], symbol, from, to) ==> new.drop_last().contains(old[i]),
        forall|k: int|
            0 <= k < new.len() - 1 ==> old.contains(new[k]) && !touches(new[k], symbol, from, to),
{
    broadcast use Seq::lemma_filter_contains, Seq::lemma_filter_pred;

    let pred = stays(symbol, from, to);
    assert forall|i: int|
        0 <= i < old.len() && !touches(old[i], symbol, from, to) implies new.drop_last().contains(old[i]) by {
        assert(pred(old[i]));
        old.lemma_filter_contains(pred, i);
    }
    assert forall|k: int| 0 <= k < new.len() - 1 implies old.contains(new[k]) && !touches(new[k], symbol, from, to) by {
        assert(new[k] == new.drop_last()[k]);
        old.lemma_filter_pred(pred, k);
        assert(old.filter(pred).contains(new[k]));
        old.lemma_filter_contains_rev(pred, new[k]);
    }
}

/// Read after write: once `[from, to]` of a symbol is recorded, the cache reports it covered.
pub proof fn law_put_then_covered(old: Seq<Span>, symbol: Seq<char>, from: int, to: int, new: Seq<Span>)
    requires
        put_post(old, symbol, from, to, new),
    ensures
        is_covered(new, symbol, from, to),
{
    lemma_merged_bounds(old, symbol, from, to);
    assert(span_covers(new[new.len() - 1], symbol, from, to));
}

/// A recorded range is never fetched again: right after `[from, to]` of a symbol is recorded,
/// nothing of it is left to fetch.
pub proof fn law_recorded_range_needs_no_fetch(
    old: Seq<Span>,
    symbol: Seq<char>,
    from: int,
    to: int,
    new: Seq<Span>,
    r: Seq<(i64, i64)>,
)
    requires
        put_post(old, symbol, from, to, new),
        uncovered_post(new, symbol, from, to, r),
    ensures
        r.len() == 0,
{
    law_put_then_covered(old, symbol, from, to, new);
    if r.len() > 0 {
        let p = r[0].0 as int;
        assert(in_pieces(r, p));
        let i = choose|i: int| 0 <= i < new.len() && span_covers(new[i], symbol, from, to);
        assert(covers_point(new, symbol, p));
    }
}

/// Recording a range never loses coverage: whatever was covered before, of any symbol, still is.
pub proof fn law_put_keeps_covered(
    old: Seq<Span>,
    symbol: Seq<char>,
    from: int,
    to: int,
    new: Seq<Span>,
    other: Seq<char>,
    a: int,
    b: int,
)
    requires
        put_post(old, symbol, from, to, new),
        is_covered(old, other, a, b),
    ensures
        is_covered(new, other, a, b),
{
    lemma_merged_bounds(old, symbol, from, to);
    lemma_put_members(old, symbol, from, to, new);
    let i = choose|i: int| 0 <= i < old.len() && span_covers(old[i], other, a, b);
    if touches(old[i], symbol, from, to) {
        assert(span_covers(new[new.len() - 1], other, a, b));
    } else {
        assert(new.drop_last().contains(old[i]));
        let k = choose|k: int| 0 <= k < new.drop_last().len() && new.drop_last()[k] == old[i];
        assert(new[k] == old[i]);
    }
}

/// Recording `[from, to]` of a symbol adds exactly its seconds to what the cache covers: no
/// other second of that symbol or of another symbol changes.
pub proof fn law_put_adds_exactly_the_range(
    old: Seq<Span>,
    symbol: Seq<char>,
    from: int,
    to: int,
    new: Seq<Span>,
    other: Seq<char>,
    p: int,
)
    requires
        put_post(old, symbol, from, to, new),
        from <= to,
    ensures
        covers_point(new, other, p) <==> (covers_point(old, other, p) || (other == symbol && from <= p
            <= to)),
{
    lemma_merged_bounds(old, symbol, from, to);
    lemma_put_members(old, symbol, from, to, new);
    let lo = merged_from(old, symbol, from, to);
    let hi = merged_to(old, symbol, from, to);
    let last = new.len() - 1;
    if covers_point(new, other, p) {
        let k = choose|k: int| 0 <= k < new.len() && new[k].symbol@ == other && new[k].from_ts <= p <= new[k].to_ts;
        if k < last {
            let i = choose|i: int| 0 <= i < old.len() && old[i] == new[k];
        } else if !(from <= p <= to) {
            if p < from {
                let i = choose|i: int|
                    0 <= i < old.len() && touches(old[i], symbol, from, to) && old[i].from_ts == lo;
                assert(old[i].symbol@ == other && old[i].from_ts <= p <= old[i].to_ts);
            } else {
                let i = choose|i: int|
                    0 <= i < old.len() && touches(old[i], symbol, from, to) && old[i].to_ts == hi;
                assert(old[i].symbol@ == other && old[i].from_ts <= p <= old[i].to_ts);
            }
        }
    }
    if covers_point(old, other, p) {
        let i = choose|i: int| 0 <= i < old.len() && old[i].symbol@ == other && old[i].from_ts <= p <= old[i].to_ts;
        if touches(old[i], symbol, from, to) {
            assert(new[last].symbol@ == other && new[last].from_ts <= p <= new[last].to_ts);
        } else {
            assert(new.drop_last().contains(old[i]));
            let k = choose|k: int| 0 <= k < new.drop_last().len() && new.drop_last()[k] == old[i];
            assert(new[k] == old[i]);
        }
    }
    if other == symbol && from <= p <= to {
        assert(new[last].symbol@ == other && new[last].from_ts <= p <= new[last].to_ts);
    }
}

/// The spans of `symbol` are proper ranges that neither overlap nor adjoin one another.
pub open spec fn separated(spans: Seq<Span>, symbol: Seq<char>) -> bool {
    &&& forall|i: int| 0 <= i < spans.len() && spans[i].symbol@ == symbol ==> spans[i].from_ts <= spans[i].to_ts
    &&& forall|i: int, j: int|
        0 <= i < j < spans.len() && spans[i].symbol@ == symbol && spans[j].symbol@ == symbol ==> spans[i].to_ts
            + 1 < spans[j].from_ts || spans[j].to_ts + 1 < spans[i].from_ts
}

/// Two positions of a filtered sequence come from two positions of the unfiltered one, in order.
pub(crate) proof fn lemma_filter_positions<A>(s: Seq<A>, pred: spec_fn(A) -> bool, k: int, l: int)
    requires
        0 <= k < l < s.filter(pred).len(),
    ensures
        exists|i: int, j: int| 0 <= i < j < s.len() && s[i] == s.filter(pred)[k] && s[j] == s.filter(pred)[l],
    decreases s.len(),
{
    reveal_with_fuel(Seq::<_>::filter, 1);
    let init = s.drop_last();
    let f = s.filter(pred);
    let fi = init.filter(pred);
    if pred(s.last()) && l == f.len() - 1 {
        assert(f[k] == fi[k]);
        assert(fi.contains(fi[k]));
        init.lemma_filter_contains_rev(pred, fi[k]);
        let i = choose|i: int| 0 <= i < init.len() && init[i] == fi[k];
        assert(s[i] == init[i]);
        assert(s[s.len() - 1] == f[l]);
    } else {
        assert(f[k] == fi[k] && f[l] == fi[l]);
        lemma_filter_positions(init, pred, k, l);
        let (i, j) = choose|i: int, j: int| 0 <= i < j < init.len() && init[i] == fi[k] && init[j] == fi[l];
        assert(s[i] == init[i] && s[j] == init[j]);
    }
}

/// Recording a range keeps each symbol's spans separate: the written symbol's spans stay
/// apart from the merged one, and other symbols' spans are untouched.
pub proof fn law_put_keeps_spans_separate(
    old: Seq<Span>,
    symbol: Seq<char>,
    from: int,
    to: int,
    new: Seq<Span>,
    other: Seq<char>,
)
    requires
        put_post(old, symbol, from, to, new),
        from <= to,
        separated(old, other),
    ensures
        separated(new, other),
{
    lemma_merged_bounds(old, symbol, from, to);
    lemma_put_members(old, symbol, from, to, new);
    let last = new.len() - 1;
    let lo = merged_from(old, symbol, from, to);
    let hi = merged_to(old, symbol, from, to);
    assert forall|i: int| 0 <= i < new.len() && new[i].symbol@ == other implies new[i].from_ts <= new[i].to_ts by {
        if i < last {
            let k = choose|k: int| 0 <= k < old.len() && old[k] == new[i];
        }
    }
    assert forall|i: int, j: int|
        0 <= i < j < new.len() && new[i].symbol@ == other && new[j].symbol@ == other implies new[i].to_ts
            + 1 < new[j].from_ts || new[j].to_ts + 1 < new[i].from_ts by {
        if j < last {
            assert(new.drop_last() == old.filter(stays(symbol, from, to)));
            assert(new[i] == new.drop_last()[i] && new[j] == new.drop_last()[j]);
            lemma_filter_positions(old, stays(symbol, from, to), i, j);
            let (a, b) = choose|a: int, b: int|
                0 <= a < b < old.len() && old[a] == old.filter(stays(symbol, from, to))[i] && old[b]
                    == old.filter(stays(symbol, from, to))[j];
            assert(old[a] == new[i] && old[b] == new[j]);
        } else {
            // `new[j]` is the merged span of `symbol == other`; `new[i]` is a kept span of it.
            let k = choose|k: int| 0 <= k < old.len() && old[k] == new[i];
            assert(!touches(old[k], symbol, from, to));
            let s = old[k];
            if s.to_ts < from - 1 {
                if lo != from {
                    let a = choose|a: int|
                        0 <= a < old.len() && touches(old[a], symbol, from, to) && old[a].from_ts == lo;
                    assert(a != k);
                    assert(old[a].to_ts >= from - 1);
                }
            } else {
                assert(s.from_ts > to + 1);
                if hi != to {
                    let a = choose|a: int|
                        0 <= a < old.len() && touches(old[a], symbol, from, to) && old[a].to_ts == hi;
                    assert(a != k);
                    assert(old[a].from_ts <= to + 1);
                }
            }
        }
    }
}

} // verus!
