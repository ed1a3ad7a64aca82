use vstd::prelude::*;
use vstd::utf8::encode_utf8;
use crate::text::{push_char, push_text};

verus! {

/// Bytes of the UTF-8 encoding, as `str::len` counts them (a string's length fits `usize`).
pub open spec fn byte_len(s: Seq<char>) -> int {
    (encode_utf8(s).len() as usize) as int
}

/// Width of column `i` over the header and the first `n` rows: the longest cell in bytes.
pub open spec fn width_upto(headers: Seq<&str>, rows: Seq<Vec<String>>, i: int, n: int) -> int
    decreases n,
{
    if n <= 0 {
        byte_len(headers[i]@)
    } else {
        let w = width_upto(headers, rows, i, n - 1);
        let c = byte_len(rows[n - 1]@[i]@);
        if c > w {
            c
        } else {
            w
        }
    }
}

pub open spec fn col_width(headers: Seq<&str>, rows: Seq<Vec<String>>, i: int) -> int {
    width_upto(headers, rows, i, rows.len() as int)
}

pub open spec fn spaces(n: int) -> Seq<char> {
    Seq::new(if n > 0 { n as nat } else { 0 }, |k: int| ' ')
}

/// A cell as the table prints it: the first column left-aligned (`{:<w$}`), the others
/// right-aligned after two spaces (`  {:>w$}`); padding counts characters.
pub open spec fn cell_text(cell: Seq<char>, w: int, i: int) -> Seq<char> {
    if i == 0 {
        cell + spaces(w - cell.len())
    } else {
        seq![' ', ' '] + spaces(w - cell.len()) + cell
    }
}

/// The first `n` cells of a line.
pub open spec fn line_text(cells: Seq<Seq<char>>, widths: Seq<int>, n: int) -> Seq<char>
    decreases n,
{
    if n <= 0 {
        seq![]
    } else {
        line_text(cells, widths, n - 1) + cell_text(cells[n - 1], widths[n - 1], n - 1)
    }
}

pub open spec fn header_cells(headers: Seq<&str>) -> Seq<Seq<char>> {
    headers.map_values(|h: &str| h@)
}

pub open spec fn row_cells(row: Vec<String>) -> Seq<Seq<char>> {
    row@.map_values(|c: String| c@)
}

pub open spec fn widths_of(headers: Seq<&str>, rows: Seq<Vec<String>>) -> Seq<int> {
    Seq::new(headers.len(), |i: int| col_width(headers, rows, i))
}

/// The lines `print_table` prints: the header line, then one line per row.
pub open spec fn table_post(headers: Seq<&str>, rows: Seq<Vec<String>>, r: Seq<String>) -> bool {
    let widths = widths_of(headers, rows);
    &&& r.len() == rows.len() + 1
    &&& r[0]@ == line_text(header_cells(headers), widths, headers.len() as int)
    &&& forall|k: int|
        0 <= k < rows.len() ==> (#[trigger] r[k + 1])@ == line_text(
            row_cells(rows[k]),
            widths,
            headers.len() as int,
        )
}

fn push_spaces(s: &mut String, n: usize)
    ensures
        final(s)@ == old(s)@ + spaces(n as int),
{
    let mut k: usize = 0;
    while k < n
        invariant
            k <= n,
            s@ == old(s)@ + spaces(k as int),
        decreases n - k,
    {
        push_char(s, ' ');
        k += 1;
        assert(s@ =~= old(s)@ + spaces(k as int));
    }
    assert(s@ =~= old(s)@ + spaces(n as int));
}

fn push_cell(s: &mut String, cell: &str, w: usize, i: usize)
    ensures
        final(s)@ == old(s)@ + cell_text(cell@, w as int, i as int),
{
    let n = cell.unicode_len();
    let pad: usize = if w > n {
        w - n
    } else {
        0
    };
    assert(spaces(pad as int) =~= spaces(w - cell@.len()));
    if i == 0 {
        push_text(s, cell);
        push_spaces(s, pad);
        assert(s@ =~= old(s)@ + cell_text(cell@, w as int, i as int));
    } else {
        push_char(s, ' ');
        push_char(s, ' ');
        push_spaces(s, pad);
        push_text(s, cell);
        assert(s@ =~= old(s)@ + cell_text(cell@, w as int, i as int));
    }
}

/// Lays out a table: the first column left-aligned, the rest right-aligned, each column as wide
/// (in bytes) as its longest cell. Every row has one cell per header.
pub fn render_table(headers: &[&str], rows: &[Vec<String>]) -> (r: Vec<String>)
    requires
        forall|k: int| 0 <= k < rows@.len() ==> (#[trigger] rows@[k]).len() == headers@.len(),
    ensures
        table_post(headers@, rows@, r@),
{
    let cols = headers.len();
    let mut widths: Vec<usize> = Vec::new();
    let mut i: usize = 0;
    while i < cols
        invariant
            i <= cols == headers@.len(),
            widths.len() == i,
            forall|c: int| 0 <= c < i ==> widths@[c] == width_upto(headers@, rows@, c, 0),
        decreases cols - i,
    {
        widths.push(headers[i].len());
        i += 1;
    }
    let mut n: usize = 0;
    while n < rows.len()
        invariant
            n <= rows.len(),
            cols == headers@.len(),
            widths.len() == cols,
            forall|k: int| 0 <= k < rows@.len() ==> (#[trigger] rows@[k]).len() == headers@.len(),
            forall|c: int| 0 <= c < cols ==> widths@[c] == width_upto(headers@, rows@, c, n as int),
        decreases rows.len() - n,
    {
        let row = &rows[n];
        let mut c: usize = 0;
        while c < cols
            invariant
                c <= cols == headers@.len() == row.len(),
                widths.len() == cols,
                *row == rows@[n as int],
                forall|j: int| 0 <= j < c ==> widths@[j] == width_upto(headers@, rows@, j, n + 1),
                forall|j: int| c <= j < cols ==> widths@[j] == width_upto(headers@, rows@, j, n as int),
            decreases cols - c,
        {
            let len = row[c].as_str().len();
            if len > widths[c] {
                widths.set(c, len);
            }
            c += 1;
        }
        n += 1;
    }
    let ghost wspec = widths_of(headers@, rows@);
    assert(forall|c: int| 0 <= c < cols ==> widths@[c] as int == wspec[c]);
    let mut out: Vec<String> = Vec::new();
    let mut line = String::new();
    let mut c: usize = 0;
    while c < cols
        invariant
            c <= cols == headers@.len() == widths.len(),
            forall|j: int| 0 <= j < cols ==> widths@[j] as int == wspec[j],
            line@ == line_text(header_cells(headers@), wspec, c as int),
        decreases cols - c,
    {
        push_cell(&mut line, headers[c], widths[c], c);
        c += 1;
    }
    out.push(line);
    let mut n: usize = 0;
    while n < rows.len()
        invariant
            n <= rows.len(),
            cols == headers@.len() == widths.len(),
            forall|k: int| 0 <= k < rows@.len() ==> (#[trigger] rows@[k]).len() == headers@.len(),
            forall|j: int| 0 <= j < cols ==> widths@[j] as int == wspec[j],
            out.len() == n + 1,
            out@[0]@ == line_text(header_cells(headers@), wspec, cols as int),
            forall|k: int| 0 <= k < n ==> (#[trigger] out@[k + 1])@ == line_text(row_cells(rows@[k]), wspec, cols as int),
        decreases rows.len() - n,
    {
        let row = &rows[n];
        let mut line = String::new();
        let mut c: usize = 0;
        while c < cols
            invariant
                c <= cols == headers@.len() == widths.len() == row.len(),
                *row == rows@[n as int],
                forall|j: int| 0 <= j < cols ==> widths@[j] as int == wspec[j],
                line@ == line_text(row_cells(*row), wspec, c as int),
            decreases cols - c,
        {
            push_cell(&mut line, row[c].as_str(), widths[c], c);
            c += 1;
        }
        out.push(line);
        n += 1;
    }
    out
}

/// A text has at least as many bytes as characters.
proof fn lemma_bytes_at_least_chars(s: Seq<char>)
    ensures
        encode_utf8(s).len() >= s.len(),
    decreases s.len(),
{
    if s.len() > 0 {
        lemma_bytes_at_least_chars(s.drop_first());
    }
}

/// Column `i` is at least as wide (in bytes) as its header and as each of the first `n` cells.
proof fn lemma_width_covers(headers: Seq<&str>, rows: Seq<Vec<String>>, i: int, n: int)
    requires
        0 <= n <= rows.len(),
    ensures
        width_upto(headers, rows, i, n) >= byte_len(headers[i]@),
        forall|k: int| 0 <= k < n ==> width_upto(headers, rows, i, n) >= byte_len(#[trigger] rows[k]@[i]@),
    decreases n,
{
    if n > 0 {
        lemma_width_covers(headers, rows, i, n - 1);
    }
}

/// Characters in the first `n` cells of any line whose cells fit their widths.
pub open spec fn line_len(widths: Seq<int>, n: int) -> int
    decreases n,
{
    if n <= 0 {
        0
    } else {
        line_len(widths, n - 1) + widths[n - 1] + if n - 1 == 0 {
            0int
        } else {
            2int
        }
    }
}

proof fn lemma_line_len(cells: Seq<Seq<char>>, widths: Seq<int>, n: int)
    requires
        0 <= n <= cells.len(),
        n <= widths.len(),
        forall|c: int| 0 <= c < n ==> cells[c].len() <= widths[c],
    ensures
        line_text(cells, widths, n).len() == line_len(widths, n),
    decreases n,
{
    if n > 0 {
        lemma_line_len(cells, widths, n - 1);
    }
}

/// Every line of a table has the same number of characters: each cell is padded to its
/// column's width, which no cell exceeds (widths count bytes, and a character takes at least
/// one byte).
pub proof fn law_lines_have_equal_length(headers: Seq<&str>, rows: Seq<Vec<String>>, r: Seq<String>)
    requires
        table_post(headers, rows, r),
        forall|k: int| 0 <= k < rows.len() ==> (#[trigger] rows[k]).len() == headers.len(),
        forall|i: int| 0 <= i < headers.len() ==> encode_utf8(#[trigger] headers[i]@).len() <= usize::MAX,
        forall|k: int, i: int|
            0 <= k < rows.len() && 0 <= i < headers.len() ==> encode_utf8(#[trigger] rows[k]@[i]@).len()
                <= usize::MAX,
    ensures
        forall|k: int| 0 <= k < r.len() ==> (#[trigger] r[k])@.len() == line_len(widths_of(headers, rows), headers.len() as int),
{
    let widths = widths_of(headers, rows);
    let n = headers.len() as int;
    assert forall|c: int| 0 <= c < n implies header_cells(headers)[c].len() <= widths[c] by {
        lemma_width_covers(headers, rows, c, rows.len() as int);
        lemma_bytes_at_least_chars(headers[c]@);
    }
    lemma_line_len(header_cells(headers), widths, n);
    assert forall|k: int| 0 <= k < r.len() implies (#[trigger] r[k])@.len() == line_len(widths, n) by {
        if k > 0 {
            let row = rows[k - 1];
            assert forall|c: int| 0 <= c < n implies row_cells(row)[c].len() <= widths[c] by {
                lemma_width_covers(headers, rows, c, rows.len() as int);
                assert(rows[k - 1]@[c] == row@[c]);
                lemma_bytes_at_least_chars(row@[c]@);
            }
            lemma_line_len(row_cells(row), widths, n);
            assert(r[(k - 1) + 1] == r[k]);
        }
    }
}

} // verus!
