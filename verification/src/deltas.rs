use vstd::prelude::*;
use crate::quote::Quote;

verus! {

/// Quote `j` is the latest quote before quote `i` with the same symbol.
pub open spec fn is_prev_same(rows: Seq<Quote>, i: int, j: int) -> bool {
    &&& 0 <= j < i < rows.len()
    &&& rows[j].symbol@ == rows[i].symbol@
    &&& forall|k: int| j < k < i ==> rows[k].symbol@ != rows[i].symbol@
}

/// No quote before quote `i` has its symbol.
pub open spec fn first_of_symbol(rows: Seq<Quote>, i: int) -> bool {
    forall|j: int| 0 <= j < i ==> rows[j].symbol@ != rows[i].symbol@
}

pub open spec fn prev_post(rows: Seq<Quote>, r: Seq<Option<usize>>) -> bool {
    &&& r.len() == rows.len()
    &&& forall|i: int|
        0 <= i < r.len() ==> match #[trigger] r[i] {
            Some(j) => is_prev_same(rows, i, j as int),
            None => first_of_symbol(rows, i),
        }
}

/// For each quote, the index of the previous quote of the same symbol (the one a change is
/// measured against), or `None` for the first quote of a symbol.
pub fn previous_same_symbol(rows: &[Quote]) -> (r: Vec<Option<usize>>)
    ensures
        prev_post(rows@, r@),
{
    let mut out: Vec<Option<usize>> = Vec::new();
    let mut i: usize = 0;
    while i < rows.len()
        invariant
            i <= rows.len(),
            out.len() == i,
            forall|a: int|
                0 <= a < i ==> match #[trigger] out@[a] {
                    Some(j) => is_prev_same(rows@, a, j as int),
                    None => first_of_symbol(rows@, a),
                },
        decreases rows.len() - i,
    {
        let mut j: usize = i;
        let mut found: Option<usize> = None;
        while j > 0
            invariant_except_break
                found is None,
            invariant
                j <= i < rows.len(),
                forall|k: int| j <= k < i ==> rows@[k].symbol@ != rows@[i as int].symbol@,
            ensures
                match found {
                    Some(k) => is_prev_same(rows@, i as int, k as int),
                    None => first_of_symbol(rows@, i as int),
                },
            decreases j,
        {
            if rows[j - 1].symbol == rows[i].symbol {
                found = Some(j - 1);
                break;
            }
            j -= 1;
        }
        out.push(found);
        i += 1;
    }
    out
}

/// For each symbol, only the first quote has nothing to compare against.
pub proof fn law_first_quote_has_no_previous(rows: Seq<Quote>, r: Seq<Option<usize>>, i: int)
    requires
        prev_post(rows, r),
        0 <= i < rows.len(),
    ensures
        r[i] is None <==> first_of_symbol(rows, i),
{
    match r[i] {
        Some(j) => {
            assert(rows[j as int].symbol@ == rows[i].symbol@);
        },
        None => {},
    }
}

} // verus!
