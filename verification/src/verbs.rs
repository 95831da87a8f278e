//! The reshape verbs. Each takes a table and returns a new one: the geometry changes, and
//! every input cell reappears unchanged.
use crate::addr::{cols, one_col, spec_cols, spec_one_col};
use crate::errors::{view_result, Fault, Result, XshapeError};
use crate::io::copy_row;
use crate::model::{Table, TableView};
use crate::text::{col_letters, col_to_letter, decimal, join, join_text, split_on, split_text, usize_text};
use vstd::prelude::*;
use vstd::string::*;

verus! {

broadcast use vstd::seq_lib::group_seq_properties;

// ---------------------------------------------------------------------------------------------
// Shared pieces
// ---------------------------------------------------------------------------------------------

/// The columns `0..w` that `g` does not name, left to right.
pub open spec fn complement(w: nat, g: Seq<usize>) -> Seq<usize>
    decreases w,
{
    if w == 0 {
        seq![]
    } else {
        let rest = complement((w - 1) as nat, g);
        if g.contains((w - 1) as usize) {
            rest
        } else {
            rest.push((w - 1) as usize)
        }
    }
}

/// The columns `lo..hi`, left to right.
pub open spec fn upto(lo: nat, hi: nat) -> Seq<usize> {
    Seq::new((hi - lo) as nat, |k: int| (lo + k) as usize)
}

/// Row `r`'s cells in the given columns.
pub open spec fn cells_of(t: TableView, r: int, cols: Seq<usize>) -> Seq<Seq<char>> {
    Seq::new(cols.len(), |k: int| t.cell(r, cols[k] as int))
}

/// The labels of the given columns.
pub open spec fn labels_of(t: TableView, cols: Seq<usize>) -> Seq<Seq<char>> {
    Seq::new(cols.len(), |k: int| t.label(cols[k] as int))
}

/// The pieces of row `r`'s cell in column `c`, cut at the literal `sep`.
pub open spec fn pieces(t: TableView, c: int, sep: Seq<char>, r: int) -> Seq<Seq<char>> {
    split_on(t.cell(r, c), sep)
}

/// The message for an empty separator.
pub open spec fn empty_sep_message() -> Seq<char> {
    "--sep must not be empty: xshape cuts and joins on the literal separator you give and never guesses one"@
}

/// Columns `0..w` minus `g`, computed.
fn complement_cols(w: usize, g: &Vec<usize>) -> (res: Vec<usize>)
    ensures
        res@ == complement(w as nat, g@),
{
    let mut out: Vec<usize> = Vec::new();
    let mut c: usize = 0;
    while c < w
        invariant
            c <= w,
            out@ == complement(c as nat, g@),
        decreases w - c,
    {
        if !contains_col(g, g.len(), c) {
            out.push(c);
        }
        c = c + 1;
    }
    out
}

/// Whether column `x` occurs among the first `upto` entries of `v`.
fn contains_col(v: &Vec<usize>, upto: usize, x: usize) -> (res: bool)
    requires
        upto <= v@.len(),
    ensures
        res == v@.take(upto as int).contains(x),
{
    let mut i: usize = 0;
    while i < upto
        invariant
            i <= upto <= v@.len(),
            forall|k: int| 0 <= k < i ==> v@[k] != x,
        decreases upto - i,
    {
        if v[i] == x {
            assert(v@.take(upto as int)[i as int] == x);
            return true;
        }
        i = i + 1;
    }
    proof { true_if_found(v@.take(upto as int), x); }
    false
}

/// A sequence holding no `x` at any position does not contain `x`.
proof fn true_if_found(s: Seq<usize>, x: usize)
    requires
        forall|k: int| 0 <= k < s.len() ==> s[k] != x,
    ensures
        !s.contains(x),
{
}

/// The columns `lo..hi`, computed.
fn range_cols(lo: usize, hi: usize) -> (res: Vec<usize>)
    requires
        lo <= hi,
    ensures
        res@ == upto(lo as nat, hi as nat),
{
    let mut out: Vec<usize> = Vec::new();
    let mut c = lo;
    while c < hi
        invariant
            lo <= c <= hi,
            out@ == upto(lo as nat, c as nat),
        decreases hi - c,
    {
        out.push(c);
        c = c + 1;
        assert(out@ =~= upto(lo as nat, c as nat));
    }
    out
}

/// Row `r`'s cells in the given columns, computed.
fn cells_in(table: &Table, r: usize, cols: &Vec<usize>) -> (res: Vec<String>)
    ensures
        res.deep_view() == cells_of(table@, r as int, cols@),
{
    let mut out: Vec<String> = Vec::new();
    let n = cols.len();
    let mut k: usize = 0;
    while k < n
        invariant
            k <= n,
            n == cols@.len(),
            out.deep_view() == cells_of(table@, r as int, cols@).take(k as int),
        decreases n - k,
    {
        let ghost before = out.deep_view();
        let s = table.cell_text(r, cols[k]);
        out.push(s);
        assert(out.deep_view() =~= before.push(s@));
        k = k + 1;
        assert(out.deep_view() =~= cells_of(table@, r as int, cols@).take(k as int));
    }
    assert(cells_of(table@, r as int, cols@).take(n as int) =~= cells_of(table@, r as int, cols@));
    out
}

/// The labels of the given columns, computed.
fn labels_in(table: &Table, cols: &Vec<usize>) -> (res: Vec<String>)
    ensures
        res.deep_view() == labels_of(table@, cols@),
{
    let mut out: Vec<String> = Vec::new();
    let n = cols.len();
    let mut k: usize = 0;
    while k < n
        invariant
            k <= n,
            n == cols@.len(),
            out.deep_view() == labels_of(table@, cols@).take(k as int),
        decreases n - k,
    {
        let ghost before = out.deep_view();
        let s = table.col_label(cols[k]);
        out.push(s);
        assert(out.deep_view() =~= before.push(s@));
        k = k + 1;
        assert(out.deep_view() =~= labels_of(table@, cols@).take(k as int));
    }
    assert(labels_of(table@, cols@).take(n as int) =~= labels_of(table@, cols@));
    out
}

/// Whether a separator is empty, with the refusal to return if it is.
fn require_sep(sep: &str) -> (res: Option<XshapeError>)
    ensures
        match res {
            Some(e) => sep@.len() == 0 && e@ == Fault::Input(empty_sep_message()),
            None => sep@.len() > 0,
        },
{
    if sep.unicode_len() == 0 {
        Some(XshapeError::Input(String::from_str(
            "--sep must not be empty: xshape cuts and joins on the literal separator you give and never guesses one",
        )))
    } else {
        None
    }
}

// ---------------------------------------------------------------------------------------------
// transpose
// ---------------------------------------------------------------------------------------------

/// The number of grid lines: the header (if any) and the data rows.
pub open spec fn grid_height(t: TableView) -> nat {
    match t.header {
        Some(_) => t.nrows() + 1,
        None => t.nrows(),
    }
}

/// The cell at line `i`, column `j` of the whole grid, header line first; "" where short.
pub open spec fn grid_cell(t: TableView, i: int, j: int) -> Seq<char> {
    match t.header {
        Some(h) => if i == 0 {
            if 0 <= j < h.len() {
                h[j]
            } else {
                Seq::empty()
            }
        } else {
            t.cell(i - 1, j)
        },
        None => t.cell(i, j),
    }
}

/// The grid turned on its side: line `j` holds column `j` of every input line.
pub open spec fn transposed(t: TableView) -> Seq<Seq<Seq<char>>> {
    Seq::new(t.width(), |j: int| Seq::new(grid_height(t), |i: int| grid_cell(t, i, j)))
}

/// The transposed table: with a header, the first transposed line (the old first column) is
/// the new header; without one, every transposed line is data.
pub open spec fn spec_transpose(t: TableView) -> TableView {
    let g = transposed(t);
    match t.header {
        Some(_) => if g.len() == 0 {
            TableView { header: Some(seq![]), rows: seq![], delim: t.delim }
        } else {
            TableView { header: Some(g[0]), rows: g.drop_first(), delim: t.delim }
        },
        None => TableView { header: None, rows: g, delim: t.delim },
    }
}

/// Swap the row and column axes wholesale, header row included: the old first column becomes
/// the new header and the old header the new first column. Ragged rows are padded first.
pub fn transpose(table: &Table) -> (res: Result<Table>)
    ensures
        view_result(res) == Ok::<TableView, Fault>(spec_transpose(table@)),
{
    let w = table.ncols();
    let nr = table.nrows();
    let ghost g = transposed(table@);
    let mut lines: Vec<Vec<String>> = Vec::new();
    let mut j: usize = 0;
    while j < w
        invariant
            j <= w,
            w == table@.width(),
            nr == table@.nrows(),
            g == transposed(table@),
            lines.deep_view() == g.take(j as int),
        decreases w - j,
    {
        let mut line: Vec<String> = Vec::new();
        let ghost want = g[j as int];
        let mut start: usize = 0;
        if let Some(h) = &table.header {
            let s = if j < h.len() {
                h[j].clone()
            } else {
                String::new()
            };
            line.push(s);
            start = 1;
            assert(line.deep_view() =~= want.take(1));
        } else {
            assert(line.deep_view() =~= want.take(0));
        }
        let mut i: usize = 0;
        while i < nr
            invariant
                i <= nr,
                nr == table@.nrows(),
                j < w,
                w == table@.width(),
                g == transposed(table@),
                want == g[j as int],
                start == grid_height(table@) - nr,
                line.deep_view() == want.take(start + i),
            decreases nr - i,
        {
            let ghost before = line.deep_view();
            let s = table.cell_text(i, j);
            line.push(s);
            assert(line.deep_view() =~= before.push(s@));
            i = i + 1;
            assert(line.deep_view() =~= want.take(start + i));
        }
        assert(want.take(start + nr) =~= want);
        let ghost before = lines.deep_view();
        lines.push(line);
        assert(lines.deep_view() =~= before.push(want));
        j = j + 1;
        assert(lines.deep_view() =~= g.take(j as int));
    }
    assert(g.take(w as int) =~= g);
    if table.header.is_some() {
        if w == 0 {
            let out = Table { header: Some(Vec::new()), rows: Vec::new(), delim: table.delim };
            assert(out@.header == Some(Seq::<Seq<char>>::empty()));
            assert(out@.rows =~= Seq::<Seq<Seq<char>>>::empty());
            Ok(out)
        } else {
            let ghost all = lines.deep_view();
            let h = lines.remove(0);
            assert(lines.deep_view() =~= all.drop_first());
            Ok(Table { header: Some(h), rows: lines, delim: table.delim })
        }
    } else {
        Ok(Table { header: None, rows: lines, delim: table.delim })
    }
}

// ---------------------------------------------------------------------------------------------
// explode
// ---------------------------------------------------------------------------------------------

/// Row `r` with column `c` replaced by `p`, padded to width `w`.
pub open spec fn row_with(t: TableView, r: int, c: int, p: Seq<char>, w: nat) -> Seq<Seq<char>> {
    Seq::new(w, |j: int| if j == c {
        p
    } else {
        t.cell(r, j)
    })
}

/// The block of rows that row `r` explodes into: one per piece.
pub open spec fn explode_block(t: TableView, c: int, sep: Seq<char>, r: int) -> Seq<Seq<Seq<char>>> {
    let ps = pieces(t, c, sep, r);
    Seq::new(ps.len(), |k: int| row_with(t, r, c, ps[k], t.width()))
}

/// Exploding resolved column `c` on a non-empty `sep`.
pub open spec fn explode_table(t: TableView, c: int, sep: Seq<char>) -> TableView {
    TableView {
        header: t.header,
        rows: Seq::new(t.nrows(), |r: int| explode_block(t, c, sep, r)).flatten(),
        delim: t.delim,
    }
}

/// What exploding column `col` on `sep` gives.
pub open spec fn spec_explode(t: TableView, col: Seq<char>, sep: Seq<char>) -> core::result::Result<TableView, Fault> {
    match spec_one_col(col, t) {
        Err(f) => Err(f),
        Ok(c) => if sep.len() == 0 {
            Err(Fault::Input(empty_sep_message()))
        } else {
            Ok(explode_table(t, c as int, sep))
        },
    }
}

/// Cut one column's cell on the literal `sep` and emit the row once per piece, every other
/// field repeated. A cell without the separator yields one row; no row is ever dropped.
pub fn explode(table: &Table, col: &str, sep: &str) -> (res: Result<Table>)
    ensures
        view_result(res) == spec_explode(table@, col@, sep@),
{
    let c = one_col(col, table)?;
    if let Some(e) = require_sep(sep) {
        return Err(e);
    }
    Ok(explode_column(table, c, sep))
}

/// Explode resolved column `c` on the non-empty `sep`: each row once per piece of its cell.
pub fn explode_column(table: &Table, c: usize, sep: &str) -> (res: Table)
    requires
        c < table@.width(),
        sep@.len() > 0,
    ensures
        res@ == explode_table(table@, c as int, sep@),
{
    let w = table.ncols();
    let nr = table.nrows();
    let ghost blocks = Seq::new(table@.nrows(), |r: int| explode_block(table@, c as int, sep@, r));
    let mut rows: Vec<Vec<String>> = Vec::new();
    let mut r: usize = 0;
    while r < nr
        invariant
            r <= nr,
            nr == table@.nrows(),
            w == table@.width(),
            sep@.len() > 0,
            blocks == Seq::new(table@.nrows(), |r: int| explode_block(table@, c as int, sep@, r)),
            rows.deep_view() == blocks.take(r as int).flatten(),
        decreases nr - r,
    {
        let cell = table.cell(r, c);
        let ps = split_text(cell, sep);
        let ghost block = blocks[r as int];
        let ghost base = rows.deep_view();
        let np = ps.len();
        let mut k: usize = 0;
        while k < np
            invariant
                k <= np,
                np == ps@.len(),
                r < nr,
                nr == table@.nrows(),
                w == table@.width(),
                ps.deep_view() == pieces(table@, c as int, sep@, r as int),
                block == explode_block(table@, c as int, sep@, r as int),
                rows.deep_view() == base + block.take(k as int),
            decreases np - k,
        {
            let mut line: Vec<String> = Vec::new();
            let mut j: usize = 0;
            while j < w
                invariant
                    j <= w,
                    w == table@.width(),
                    k < np,
                    np == ps@.len(),
                    ps.deep_view() == pieces(table@, c as int, sep@, r as int),
                    line.deep_view() == row_with(table@, r as int, c as int, ps.deep_view()[k as int], w as nat).take(j as int),
                decreases w - j,
            {
                let ghost before = line.deep_view();
                let s = if j == c {
                    ps[k].clone()
                } else {
                    table.cell_text(r, j)
                };
                line.push(s);
                assert(line.deep_view() =~= before.push(s@));
                j = j + 1;
                assert(line.deep_view() =~= row_with(table@, r as int, c as int, ps.deep_view()[k as int], w as nat).take(j as int));
            }
            let ghost want = row_with(table@, r as int, c as int, ps.deep_view()[k as int], w as nat);
            assert(line.deep_view() =~= want);
            let ghost before = rows.deep_view();
            rows.push(line);
            assert(rows.deep_view() =~= before.push(want));
            k = k + 1;
            assert(block.take(k as int) =~= block.take(k - 1).push(want));
            assert(rows.deep_view() =~= base + block.take(k as int));
        }
        assert(block.take(np as int) =~= block);
        proof {
            blocks.take(r as int).lemma_flatten_push(block);
            assert(blocks.take(r + 1) =~= blocks.take(r as int).push(block));
        }
        r = r + 1;
    }
    assert(blocks.take(nr as int) =~= blocks);
    let out = match &table.header {
        Some(h) => Table { header: Some(copy_row(h)), rows, delim: table.delim },
        None => Table { header: None, rows, delim: table.delim },
    };
    out
}


/// Two rows laid end to end.
fn concat_cells(a: Vec<String>, b: Vec<String>) -> (res: Vec<String>)
    ensures
        res.deep_view() == a.deep_view() + b.deep_view(),
{
    let mut a = a;
    let mut b = b;
    let ghost da = a.deep_view();
    let ghost db = b.deep_view();
    a.append(&mut b);
    assert(a.deep_view() =~= da + db);
    a
}

// ---------------------------------------------------------------------------------------------
// split
// ---------------------------------------------------------------------------------------------

/// The most pieces any of the first `n` rows splits into.
pub open spec fn max_pieces(t: TableView, c: int, sep: Seq<char>, n: nat) -> nat
    decreases n,
{
    if n == 0 {
        0
    } else {
        let m = max_pieces(t, c, sep, (n - 1) as nat);
        let k = pieces(t, c, sep, n - 1).len();
        if k > m {
            k
        } else {
            m
        }
    }
}

/// The first row at or after `r` that splits into more than `width` pieces.
pub open spec fn first_overflow(t: TableView, c: int, sep: Seq<char>, width: nat, r: int) -> Option<int>
    decreases t.nrows() - r,
{
    if r < 0 || r >= t.nrows() {
        None
    } else if pieces(t, c, sep, r).len() > width {
        Some(r)
    } else {
        first_overflow(t, c, sep, width, r + 1)
    }
}

/// The message for a row with more pieces than `--into` has names.
pub open spec fn overflow_message(row: nat, count: nat, width: nat) -> Seq<char> {
    "row "@ + decimal(row) + " splits into "@ + decimal(count) + " pieces but --into names only "@
        + decimal(width) + " columns; xshape never drops a piece"@
}

/// The pieces, padded with "" (or cut) to exactly `width`.
pub open spec fn pad(p: Seq<Seq<char>>, width: nat) -> Seq<Seq<char>> {
    Seq::new(width, |i: int| if i < p.len() {
        p[i]
    } else {
        Seq::empty()
    })
}

/// The default names of the new columns: `<label>_1`, `<label>_2`, and so on.
pub open spec fn split_names(t: TableView, c: int, width: nat) -> Seq<Seq<char>> {
    Seq::new(width, |i: int| t.label(c) + "_"@ + decimal((i + 1) as nat))
}

/// Splitting resolved column `c` on a non-empty `sep`, into the named columns if given.
pub open spec fn split_col(
    t: TableView,
    c: int,
    sep: Seq<char>,
    into: Option<Seq<Seq<char>>>,
) -> core::result::Result<TableView, Fault> {
    let w = t.width();
    let width = match into {
        Some(ns) => ns.len(),
        None => max_pieces(t, c, sep, t.nrows()),
    };
    let over = match into {
        Some(_) => first_overflow(t, c, sep, width, 0),
        None => None,
    };
    match over {
        Some(r) => Err(Fault::Input(overflow_message((r + 1) as nat, pieces(t, c, sep, r).len(), width))),
        None => {
            let names = match into {
                Some(ns) => ns,
                None => split_names(t, c, width),
            };
            let before = upto(0, c as nat);
            let after = upto((c + 1) as nat, w);
            Ok(
                TableView {
                    header: match t.header {
                        Some(_) => Some(labels_of(t, before) + names + labels_of(t, after)),
                        None => None,
                    },
                    rows: Seq::new(
                        t.nrows(),
                        |r: int|
                            cells_of(t, r, before) + pad(pieces(t, c, sep, r), width) + cells_of(t, r, after),
                    ),
                    delim: t.delim,
                },
            )
        },
    }
}

/// What splitting column `col` on `sep` gives, into the named columns if `into` is given.
pub open spec fn spec_split(
    t: TableView,
    col: Seq<char>,
    sep: Seq<char>,
    into: Option<Seq<Seq<char>>>,
) -> core::result::Result<TableView, Fault> {
    match spec_one_col(col, t) {
        Err(f) => Err(f),
        Ok(c) => if sep.len() == 0 {
            Err(Fault::Input(empty_sep_message()))
        } else {
            split_col(t, c as int, sep, into)
        },
    }
}

/// The pieces padded with "" to exactly `width` (never longer than `width`).
fn pad_cells(ps: &Vec<String>, width: usize) -> (res: Vec<String>)
    ensures
        res.deep_view() == pad(ps.deep_view(), width as nat),
{
    let mut out: Vec<String> = Vec::new();
    let mut i: usize = 0;
    while i < width
        invariant
            i <= width,
            out.deep_view() == pad(ps.deep_view(), width as nat).take(i as int),
        decreases width - i,
    {
        let ghost before = out.deep_view();
        let s = if i < ps.len() {
            ps[i].clone()
        } else {
            String::new()
        };
        out.push(s);
        assert(out.deep_view() =~= before.push(s@));
        i = i + 1;
        assert(out.deep_view() =~= pad(ps.deep_view(), width as nat).take(i as int));
    }
    assert(pad(ps.deep_view(), width as nat).take(width as int) =~= pad(ps.deep_view(), width as nat));
    out
}

/// Split one column into several on the literal `sep`. The pieces take the column's place;
/// the width is `into`'s length if given (a row with more pieces is refused, never cut), else
/// the widest split. Short rows pad with "". New names are `into`, else `<label>_1`, ...
pub fn split(table: &Table, col: &str, sep: &str, into: Option<&[String]>) -> (res: Result<Table>)
    ensures
        view_result(res) == spec_split(
            table@,
            col@,
            sep@,
            match into {
                Some(ns) => Some(ns.deep_view()),
                None => None,
            },
        ),
{
    let c = one_col(col, table)?;
    if let Some(e) = require_sep(sep) {
        return Err(e);
    }
    split_column(table, c, sep, into)
}

/// Split resolved column `c` on the non-empty `sep`, into the named columns if given.
pub fn split_column(table: &Table, c: usize, sep: &str, into: Option<&[String]>) -> (res: Result<Table>)
    requires
        c < table@.width(),
        sep@.len() > 0,
    ensures
        view_result(res) == split_col(
            table@,
            c as int,
            sep@,
            match into {
                Some(ns) => Some(ns.deep_view()),
                None => None,
            },
        ),
{
    let w = table.ncols();
    let nr = table.nrows();
    let ghost t = table@;
    let ghost ci = c as int;
    // Cut every row once.
    let mut all: Vec<Vec<String>> = Vec::new();
    let mut most: usize = 0;
    let mut r: usize = 0;
    while r < nr
        invariant
            r <= nr,
            nr == t.nrows(),
            t == table@,
            ci == c as int,
            sep@.len() > 0,
            all@.len() == r,
            forall|k: int| 0 <= k < r ==> #[trigger] all@[k].deep_view() == pieces(t, ci, sep@, k),
            most == max_pieces(t, ci, sep@, r as nat),
        decreases nr - r,
    {
        let ps = split_text(table.cell(r, c), sep);
        let ghost pr = pieces(t, ci, sep@, r as int);
        assert(ps.deep_view() == pr);
        assert(ps@.len() == pr.len());
        if ps.len() > most {
            most = ps.len();
        }
        let ghost prev = all@;
        all.push(ps);
        assert forall|k: int| 0 <= k < r + 1 implies #[trigger] all@[k].deep_view() == pieces(t, ci, sep@, k) by {
            if k < r {
                assert(all@[k] == prev[k]);
            }
        }
        r = r + 1;
    }
    let width = match into {
        Some(ns) => ns.len(),
        None => most,
    };
    // Refuse a row that would overflow the named columns.
    if into.is_some() {
        let mut r: usize = 0;
        while r < nr
            invariant
                r <= nr,
                nr == t.nrows(),
                t == table@,
                all@.len() == nr,
                forall|k: int| 0 <= k < nr ==> #[trigger] all@[k].deep_view() == pieces(t, ci, sep@, k),
                first_overflow(t, ci, sep@, width as nat, 0) == first_overflow(t, ci, sep@, width as nat, r as int),
                ci == c as int,
                sep@.len() > 0,
                into is Some,
                width == into.unwrap()@.len(),
            decreases nr - r,
        {
            assert(all@[r as int].deep_view() == pieces(t, ci, sep@, r as int));
            assert(all@[r as int]@.len() == pieces(t, ci, sep@, r as int).len());
            if all[r].len() > width {
                let mut m = String::from_str("row ");
                m.append(usize_text(r + 1).as_str());
                m.append(" splits into ");
                m.append(usize_text(all[r].len()).as_str());
                m.append(" pieces but --into names only ");
                m.append(usize_text(width).as_str());
                m.append(" columns; xshape never drops a piece");
                return Err(XshapeError::Input(m));
            }
            r = r + 1;
        }
    }
    // Names for the new columns.
    let names: Vec<String> = match into {
        Some(ns) => {
            let mut out: Vec<String> = Vec::new();
            let mut i: usize = 0;
            while i < ns.len()
                invariant
                    i <= ns@.len(),
                    out.deep_view() == ns.deep_view().take(i as int),
                decreases ns@.len() - i,
            {
                let ghost before = out.deep_view();
                let s = ns[i].clone();
                out.push(s);
                assert(out.deep_view() =~= before.push(s@));
                i = i + 1;
                assert(out.deep_view() =~= ns.deep_view().take(i as int));
            }
            assert(ns.deep_view().take(ns@.len() as int) =~= ns.deep_view());
            out
        },
        None => {
            let base = table.col_label(c);
            let mut out: Vec<String> = Vec::new();
            let mut i: usize = 0;
            while i < width
                invariant
                    i <= width,
                    base@ == t.label(ci),
                    out.deep_view() == split_names(t, ci, width as nat).take(i as int),
                decreases width - i,
            {
                let ghost before = out.deep_view();
                let mut s = base.clone();
                s.append("_");
                s.append(usize_text(i + 1).as_str());
                out.push(s);
                assert(out.deep_view() =~= before.push(s@));
                i = i + 1;
                assert(out.deep_view() =~= split_names(t, ci, width as nat).take(i as int));
            }
            assert(split_names(t, ci, width as nat).take(width as int) =~= split_names(t, ci, width as nat));
            out
        },
    };
    let before = range_cols(0, c);
    let after = range_cols(c + 1, w);
    let header = match &table.header {
        Some(_) => Some(concat_cells(concat_cells(labels_in(table, &before), names), labels_in(table, &after))),
        None => None,
    };
    let mut rows: Vec<Vec<String>> = Vec::new();
    let ghost want = Seq::new(
        t.nrows(),
        |r: int| cells_of(t, r, before@) + pad(pieces(t, ci, sep@, r), width as nat) + cells_of(t, r, after@),
    );
    let mut r: usize = 0;
    while r < nr
        invariant
            r <= nr,
            nr == t.nrows(),
            t == table@,
            all@.len() == nr,
            forall|k: int| 0 <= k < nr ==> #[trigger] all@[k].deep_view() == pieces(t, ci, sep@, k),
            want == Seq::new(
                t.nrows(),
                |r: int| cells_of(t, r, before@) + pad(pieces(t, ci, sep@, r), width as nat) + cells_of(t, r, after@),
            ),
            rows.deep_view() == want.take(r as int),
        decreases nr - r,
    {
        let line = concat_cells(
            concat_cells(cells_in(table, r, &before), pad_cells(&all[r], width)),
            cells_in(table, r, &after),
        );
        let ghost prev = rows.deep_view();
        rows.push(line);
        assert(rows.deep_view() =~= prev.push(want[r as int]));
        r = r + 1;
        assert(rows.deep_view() =~= want.take(r as int));
    }
    assert(want.take(nr as int) =~= want);
    Ok(Table { header, rows, delim: table.delim })
}

// ---------------------------------------------------------------------------------------------
// merge
// ---------------------------------------------------------------------------------------------

/// The smallest column in a non-empty list.
pub open spec fn min_col(cs: Seq<usize>) -> usize
    decreases cs.len(),
{
    if cs.len() <= 1 {
        cs[0]
    } else {
        let m = min_col(cs.drop_last());
        if cs.last() < m {
            cs.last()
        } else {
            m
        }
    }
}

/// The columns `0..w` that survive a merge: the merged position `m`, and every column the
/// merge does not consume.
pub open spec fn kept(w: nat, cs: Seq<usize>, m: usize) -> Seq<usize>
    decreases w,
{
    if w == 0 {
        seq![]
    } else {
        let rest = kept((w - 1) as nat, cs, m);
        let j = (w - 1) as usize;
        if j == m || !cs.contains(j) {
            rest.push(j)
        } else {
            rest
        }
    }
}

/// The message for a merge of fewer than two columns.
pub open spec fn merge_needs_two_message() -> Seq<char> {
    "merge needs at least two columns in --cols"@
}

/// Merging resolved columns `cs` (at least two) with `sep` into a column named `into`.
pub open spec fn merge_table(t: TableView, cs: Seq<usize>, sep: Seq<char>, into: Seq<char>) -> TableView {
    let m = min_col(cs);
    let ks = kept(t.width(), cs, m);
    TableView {
        header: match t.header {
            Some(_) => Some(merge_header(t, ks, m, into)),
            None => None,
        },
        rows: Seq::new(t.nrows(), |r: int| merge_row(t, r, cs, ks, m, sep)),
        delim: t.delim,
    }
}

/// What merging the columns of `spec` with `sep` into a column named `into` gives.
pub open spec fn spec_merge(
    t: TableView,
    spec: Seq<char>,
    sep: Seq<char>,
    into: Seq<char>,
) -> core::result::Result<TableView, Fault> {
    match spec_cols(spec, t) {
        Err(f) => Err(f),
        Ok(cs) => if cs.len() < 2 {
            Err(Fault::Input(merge_needs_two_message()))
        } else {
            Ok(merge_table(t, cs, sep, into))
        },
    }
}

/// The smallest column of a non-empty list, computed.
fn min_of(cs: &Vec<usize>) -> (m: usize)
    requires
        cs@.len() >= 1,
    ensures
        m == min_col(cs@),
{
    let mut m = cs[0];
    let mut i: usize = 1;
    while i < cs.len()
        invariant
            1 <= i <= cs@.len(),
            m == min_col(cs@.take(i as int)),
        decreases cs@.len() - i,
    {
        assert(cs@.take(i + 1).drop_last() =~= cs@.take(i as int));
        if cs[i] < m {
            m = cs[i];
        }
        i = i + 1;
    }
    assert(cs@.take(cs@.len() as int) =~= cs@);
    m
}

/// The columns that survive a merge, computed.
fn kept_cols(w: usize, cs: &Vec<usize>, m: usize) -> (ks: Vec<usize>)
    ensures
        ks@ == kept(w as nat, cs@, m),
{
    let mut ks: Vec<usize> = Vec::new();
    let mut j: usize = 0;
    while j < w
        invariant
            j <= w,
            ks@ == kept(j as nat, cs@, m),
        decreases w - j,
    {
        assert(cs@.take(cs@.len() as int) =~= cs@);
        if j == m || !contains_col(cs, cs.len(), j) {
            ks.push(j);
        }
        j = j + 1;
    }
    ks
}

/// The header of a merge: `into` at the merged position, the labels elsewhere.
pub open spec fn merge_header(t: TableView, ks: Seq<usize>, m: usize, into: Seq<char>) -> Seq<Seq<char>> {
    Seq::new(ks.len(), |k: int| if ks[k] == m {
        into
    } else {
        t.label(ks[k] as int)
    })
}

/// Row `r` of a merge: the joined value at the merged position, the cells elsewhere.
pub open spec fn merge_row(t: TableView, r: int, cs: Seq<usize>, ks: Seq<usize>, m: usize, sep: Seq<char>) -> Seq<Seq<char>> {
    Seq::new(ks.len(), |k: int| if ks[k] == m {
        join(cells_of(t, r, cs), sep)
    } else {
        t.cell(r, ks[k] as int)
    })
}

/// The header of a merge, computed.
fn merge_header_exec(table: &Table, ks: &Vec<usize>, m: usize, into: &str) -> (h: Vec<String>)
    ensures
        h.deep_view() == merge_header(table@, ks@, m, into@),
{
    let ghost want = merge_header(table@, ks@, m, into@);
    let nk = ks.len();
    let mut h: Vec<String> = Vec::new();
    let mut k: usize = 0;
    while k < nk
        invariant
            k <= nk,
            nk == ks@.len(),
            want == merge_header(table@, ks@, m, into@),
            h.deep_view() == want.take(k as int),
        decreases nk - k,
    {
        let ghost before = h.deep_view();
        let s = if ks[k] == m {
            String::from_str(into)
        } else {
            table.col_label(ks[k])
        };
        h.push(s);
        assert(h.deep_view() =~= before.push(s@));
        k = k + 1;
        assert(h.deep_view() =~= want.take(k as int));
    }
    assert(want.take(nk as int) =~= want);
    h
}

/// Row `r` of a merge, computed.
fn merge_row_exec(table: &Table, r: usize, cs: &Vec<usize>, ks: &Vec<usize>, m: usize, sep: &str) -> (line: Vec<String>)
    ensures
        line.deep_view() == merge_row(table@, r as int, cs@, ks@, m, sep@),
{
    let ghost want = merge_row(table@, r as int, cs@, ks@, m, sep@);
    let merged = join_text(&cells_in(table, r, cs), sep);
    let nk = ks.len();
    let mut line: Vec<String> = Vec::new();
    let mut k: usize = 0;
    while k < nk
        invariant
            k <= nk,
            nk == ks@.len(),
            merged@ == join(cells_of(table@, r as int, cs@), sep@),
            want == merge_row(table@, r as int, cs@, ks@, m, sep@),
            line.deep_view() == want.take(k as int),
        decreases nk - k,
    {
        let ghost before = line.deep_view();
        let s = if ks[k] == m {
            merged.clone()
        } else {
            table.cell_text(r, ks[k])
        };
        line.push(s);
        assert(line.deep_view() =~= before.push(s@));
        k = k + 1;
        assert(line.deep_view() =~= want.take(k as int));
    }
    assert(want.take(nk as int) =~= want);
    line
}

/// Join the values of several columns, in the order the spec lists them, with the literal
/// `sep` into one column named `into`, placed at the leftmost source column; the other source
/// columns are removed. Empty values join too.
pub fn merge(table: &Table, spec: &str, sep: &str, into: &str) -> (res: Result<Table>)
    ensures
        view_result(res) == spec_merge(table@, spec@, sep@, into@),
{
    let cs = cols(spec, table)?;
    if cs.len() < 2 {
        return Err(XshapeError::Input(String::from_str("merge needs at least two columns in --cols")));
    }
    Ok(merge_columns(table, &cs, sep, into))
}

/// Merge resolved columns `cs` (at least two, each inside the table) with `sep` into one column
/// named `into`, standing where the leftmost of them stood.
pub fn merge_columns(table: &Table, cs: &Vec<usize>, sep: &str, into: &str) -> (res: Table)
    requires
        cs@.len() >= 2,
        forall|k: int| 0 <= k < cs@.len() ==> #[trigger] cs@[k] < table@.width(),
    ensures
        res@ == merge_table(table@, cs@, sep@, into@),
{
    let ghost t = table@;
    let w = table.ncols();
    let nr = table.nrows();
    let m = min_of(cs);
    let ks = kept_cols(w, cs, m);
    let header = match &table.header {
        None => None,
        Some(_) => Some(merge_header_exec(table, &ks, m, into)),
    };
    let ghost want = Seq::new(t.nrows(), |r: int| merge_row(t, r, cs@, ks@, m, sep@));
    let mut rows: Vec<Vec<String>> = Vec::new();
    let mut r: usize = 0;
    while r < nr
        invariant
            r <= nr,
            nr == t.nrows(),
            t == table@,
            want == Seq::new(t.nrows(), |r: int| merge_row(t, r, cs@, ks@, m, sep@)),
            rows.deep_view() == want.take(r as int),
        decreases nr - r,
    {
        let line = merge_row_exec(table, r, cs, &ks, m, sep);
        let ghost prev = rows.deep_view();
        rows.push(line);
        assert(rows.deep_view() =~= prev.push(want[r as int]));
        r = r + 1;
        assert(rows.deep_view() =~= want.take(r as int));
    }
    assert(want.take(nr as int) =~= want);
    let out = Table { header, rows, delim: table.delim };
    assert(out@.rows =~= want);
    out
}

// ---------------------------------------------------------------------------------------------
// unpivot
// ---------------------------------------------------------------------------------------------

/// The first position at or after `j` whose column already occurred before it.
pub open spec fn repeat_from(g: Seq<usize>, j: int) -> Option<int>
    decreases g.len() - j,
{
    if j < 0 || j >= g.len() {
        None
    } else if g.take(j).contains(g[j]) {
        Some(j)
    } else {
        repeat_from(g, j + 1)
    }
}

/// The message for an unpivot without a header row.
pub open spec fn unpivot_header_message() -> Seq<char> {
    "unpivot needs a header row: the gathered column names become the key values (drop --no-header, or promote the header first with xled)"@
}

/// The message for a column gathered twice.
pub open spec fn gathered_twice_message(c: nat) -> Seq<char> {
    "column "@ + col_letters(c) + " appears twice in --cols; each gathered column must be distinct"@
}

/// The rows input row `r` unpivots into: its identifier cells, then one gathered column's
/// label and cell, for each gathered column in spec order.
pub open spec fn unpivot_block(t: TableView, ids: Seq<usize>, g: Seq<usize>, r: int) -> Seq<Seq<Seq<char>>> {
    Seq::new(
        g.len(),
        |j: int| cells_of(t, r, ids) + seq![t.label(g[j] as int), t.cell(r, g[j] as int)],
    )
}

/// Unpivoting resolved, distinct columns `g` into `key` and `value` columns.
pub open spec fn unpivot_table(t: TableView, g: Seq<usize>, key: Seq<char>, value: Seq<char>) -> TableView {
    let ids = complement(t.width(), g);
    TableView {
        header: Some(labels_of(t, ids) + seq![key, value]),
        rows: Seq::new(t.nrows(), |r: int| unpivot_block(t, ids, g, r)).flatten(),
        delim: t.delim,
    }
}

/// What unpivoting the columns of `spec` into `key` and `value` columns gives.
pub open spec fn spec_unpivot(
    t: TableView,
    spec: Seq<char>,
    key: Seq<char>,
    value: Seq<char>,
) -> core::result::Result<TableView, Fault> {
    if t.header is None {
        Err(Fault::Input(unpivot_header_message()))
    } else {
        match spec_cols(spec, t) {
            Err(f) => Err(f),
            Ok(g) => match repeat_from(g, 0) {
                Some(j) => Err(Fault::Address(gathered_twice_message(g[j] as nat))),
                None => Ok(unpivot_table(t, g, key, value)),
            },
        }
    }
}

/// Wide to long. The columns in `cols_spec` are gathered into two new columns: a key column
/// holding each gathered column's name and a value column holding its cell. Every other column
/// is an identifier, repeated down the block. No value is changed, summarized, or dropped.
///
/// Requires a header: the key values are the gathered column names.
pub fn unpivot(table: &Table, cols_spec: &str, key_name: &str, value_name: &str) -> (res: Result<Table>)
    ensures
        view_result(res) == spec_unpivot(table@, cols_spec@, key_name@, value_name@),
{
    if table.header.is_none() {
        return Err(XshapeError::Input(String::from_str(
            "unpivot needs a header row: the gathered column names become the key values (drop --no-header, or promote the header first with xled)",
        )));
    }
    let gather = cols(cols_spec, table)?;
    let ng = gather.len();
    // A column gathered twice would duplicate the block.
    let mut j: usize = 0;
    while j < ng
        invariant
            j <= ng,
            ng == gather@.len(),
            repeat_from(gather@, 0) == repeat_from(gather@, j as int),
            table.header is Some,
            spec_cols(cols_spec@, table@) == Ok::<Seq<usize>, Fault>(gather@),
        decreases ng - j,
    {
        if contains_col(&gather, j, gather[j]) {
            let mut m = String::from_str("column ");
            m.append(col_to_letter(gather[j]).as_str());
            m.append(" appears twice in --cols; each gathered column must be distinct");
            assert(repeat_from(gather@, j as int) == Some(j as int));
            assert(m@ == gathered_twice_message(gather@[j as int] as nat));
            return Err(XshapeError::Address(m));
        }
        j = j + 1;
    }
    Ok(unpivot_columns(table, &gather, key_name, value_name))
}

/// Unpivot resolved, distinct columns `gather` (each inside the table) of a table with a
/// header into a `key_name` column of their labels and a `value_name` column of their cells.
pub fn unpivot_columns(table: &Table, gather: &Vec<usize>, key_name: &str, value_name: &str) -> (res: Table)
    requires
        table@.header is Some,
        repeat_from(gather@, 0) is None,
        forall|k: int| 0 <= k < gather@.len() ==> #[trigger] gather@[k] < table@.width(),
    ensures
        res@ == unpivot_table(table@, gather@, key_name@, value_name@),
{
    let ghost t = table@;
    let w = table.ncols();
    let ng = gather.len();
    let ids = complement_cols(w, gather);
    let mut header = labels_in(table, &ids);
    let ghost h0 = header.deep_view();
    header.push(String::from_str(key_name));
    header.push(String::from_str(value_name));
    assert(header.deep_view() =~= h0 + seq![key_name@, value_name@]);
    let nr = table.nrows();
    let ghost blocks = Seq::new(t.nrows(), |r: int| unpivot_block(t, ids@, gather@, r));
    let mut rows: Vec<Vec<String>> = Vec::new();
    let mut r: usize = 0;
    while r < nr
        invariant
            r <= nr,
            nr == t.nrows(),
            t == table@,
            ng == gather@.len(),
            blocks == Seq::new(t.nrows(), |r: int| unpivot_block(t, ids@, gather@, r)),
            rows.deep_view() == blocks.take(r as int).flatten(),
        decreases nr - r,
    {
        let ghost block = blocks[r as int];
        let ghost base = rows.deep_view();
        let mut k: usize = 0;
        while k < ng
            invariant
                k <= ng,
                ng == gather@.len(),
                r < nr,
                nr == t.nrows(),
                t == table@,
                block == unpivot_block(t, ids@, gather@, r as int),
                rows.deep_view() == base + block.take(k as int),
            decreases ng - k,
        {
            let mut line = cells_in(table, r, &ids);
            let ghost l0 = line.deep_view();
            line.push(table.col_label(gather[k]));
            line.push(table.cell_text(r, gather[k]));
            let ghost want = block[k as int];
            assert(line.deep_view() =~= want);
            let ghost prev = rows.deep_view();
            rows.push(line);
            assert(rows.deep_view() =~= prev.push(want));
            k = k + 1;
            assert(block.take(k as int) =~= block.take(k - 1).push(want));
            assert(rows.deep_view() =~= base + block.take(k as int));
        }
        assert(block.take(ng as int) =~= block);
        proof {
            blocks.take(r as int).lemma_flatten_push(block);
            assert(blocks.take(r + 1) =~= blocks.take(r as int).push(block));
        }
        r = r + 1;
    }
    assert(blocks.take(nr as int) =~= blocks);
    Table { header: Some(header), rows, delim: table.delim }
}


// ---------------------------------------------------------------------------------------------
// pivot
// ---------------------------------------------------------------------------------------------

/// The distinct values of a sequence in first-seen order.
pub open spec fn dedup<A>(s: Seq<A>) -> Seq<A>
    decreases s.len(),
{
    if s.len() == 0 {
        seq![]
    } else {
        let d = dedup(s.drop_last());
        if d.contains(s.last()) {
            d
        } else {
            d.push(s.last())
        }
    }
}

/// Every row's identifier tuple: its cells in the identifier columns.
pub open spec fn id_tuples(t: TableView, ids: Seq<usize>) -> Seq<Seq<Seq<char>>> {
    Seq::new(t.nrows(), |r: int| cells_of(t, r, ids))
}

/// Every row's cell in column `c`.
pub open spec fn column_cells(t: TableView, c: int) -> Seq<Seq<char>> {
    Seq::new(t.nrows(), |r: int| t.cell(r, c))
}

/// Two rows share an identifier tuple and a name: they would land in one cell.
pub open spec fn collides<K, N>(keys: Seq<K>, names: Seq<N>) -> bool {
    exists|r1: int, r2: int|
        0 <= r1 < r2 < keys.len() && #[trigger] keys[r1] == #[trigger] keys[r2] && names[r1] == names[r2]
}

/// The row that carries `key` and `name`, if one does.
pub open spec fn carries<K, N>(keys: Seq<K>, names: Seq<N>, key: K, name: N, r: int) -> bool {
    0 <= r < keys.len() && keys[r] == key && names[r] == name
}

/// The value for one cell of the pivoted grid: the value of the row that carries the key and
/// the name, or "" when no row does.
pub open spec fn lookup<K, N>(keys: Seq<K>, names: Seq<N>, values: Seq<Seq<char>>, key: K, name: N) -> Seq<char> {
    if exists|r: int| #[trigger] carries(keys, names, key, name, r) {
        values[choose|r: int| carries(keys, names, key, name, r)]
    } else {
        Seq::empty()
    }
}

/// The message for the same column named twice.
pub open spec fn same_column_message() -> Seq<char> {
    "--names-from and --values-from must name different columns"@
}

/// The message for a pivot collision.
pub open spec fn collision_message() -> Seq<char> {
    "two rows share their identifier values and their --names-from value, so they would land in one cell; xshape never aggregates: dedupe or aggregate with xql or DuckDB first, then pivot"@
}

/// One output row of a pivot: the key tuple, then each name's value.
pub open spec fn pivot_row(
    tuples: Seq<Seq<Seq<char>>>,
    names: Seq<Seq<char>>,
    values: Seq<Seq<char>>,
    key: Seq<Seq<char>>,
    heads: Seq<Seq<char>>,
) -> Seq<Seq<char>> {
    key + Seq::new(heads.len(), |j: int| lookup(tuples, names, values, key, heads[j]))
}

/// Pivoting on resolved, different columns `n` (names) and `v` (values), when no two rows
/// collide.
pub open spec fn pivot_table(t: TableView, n: int, v: int) -> TableView {
    let ids = complement(t.width(), seq![n as usize, v as usize]);
    let tuples = id_tuples(t, ids);
    let names = column_cells(t, n);
    let values = column_cells(t, v);
    let keys = dedup(tuples);
    let heads = dedup(names);
    TableView {
        header: Some(labels_of(t, ids) + heads),
        rows: Seq::new(keys.len(), |i: int| pivot_row(tuples, names, values, keys[i], heads)),
        delim: t.delim,
    }
}

/// Whether pivoting on names column `n` and values column `v` makes two rows collide.
pub open spec fn pivot_collides(t: TableView, n: int, v: int) -> bool {
    let ids = complement(t.width(), seq![n as usize, v as usize]);
    collides(id_tuples(t, ids), column_cells(t, n))
}

/// What pivoting on `names_from` with values from `values_from` gives.
pub open spec fn spec_pivot(t: TableView, names_from: Seq<char>, values_from: Seq<char>) -> core::result::Result<TableView, Fault> {
    match spec_one_col(names_from, t) {
        Err(f) => Err(f),
        Ok(n) => match spec_one_col(values_from, t) {
            Err(f) => Err(f),
            Ok(v) => if n == v {
                Err(Fault::Input(same_column_message()))
            } else if pivot_collides(t, n as int, v as int) {
                Err(Fault::Collision(collision_message()))
            } else {
                Ok(pivot_table(t, n as int, v as int))
            },
        },
    }
}

/// One more element extends the first-seen list exactly when it is new.
pub proof fn lemma_dedup_step<A>(s: Seq<A>, r: int)
    requires
        0 <= r < s.len(),
    ensures
        dedup(s.take(r + 1)) == (if dedup(s.take(r)).contains(s[r]) {
            dedup(s.take(r))
        } else {
            dedup(s.take(r)).push(s[r])
        }),
{
    assert(s.take(r + 1).drop_last() =~= s.take(r));
    assert(s.take(r + 1).last() == s[r]);
}

/// Whether two rows hold the same text in every cell.
fn same_cells(a: &Vec<String>, b: &Vec<String>) -> (res: bool)
    ensures
        res == (a.deep_view() == b.deep_view()),
{
    if a.len() != b.len() {
        assert(a.deep_view().len() != b.deep_view().len());
        return false;
    }
    let n = a.len();
    let mut i: usize = 0;
    while i < n
        invariant
            i <= n,
            n == a@.len(),
            n == b@.len(),
            forall|k: int| 0 <= k < i ==> a.deep_view()[k] == b.deep_view()[k],
        decreases n - i,
    {
        if a[i] != b[i] {
            assert(a.deep_view()[i as int] != b.deep_view()[i as int]);
            return false;
        }
        i = i + 1;
    }
    assert(a.deep_view() =~= b.deep_view());
    true
}

/// The position of a row in a list of rows, if it is there.
fn find_cells(list: &Vec<Vec<String>>, x: &Vec<String>) -> (res: Option<usize>)
    ensures
        match res {
            Some(i) => i < list@.len() && list.deep_view()[i as int] == x.deep_view(),
            None => !list.deep_view().contains(x.deep_view()),
        },
{
    let n = list.len();
    let mut i: usize = 0;
    while i < n
        invariant
            i <= n,
            n == list@.len(),
            forall|k: int| 0 <= k < i ==> list.deep_view()[k] != x.deep_view(),
        decreases n - i,
    {
        if same_cells(&list[i], x) {
            return Some(i);
        }
        i = i + 1;
    }
    None
}

/// The position of a text in a list of texts, if it is there.
fn find_text(list: &Vec<String>, x: &String) -> (res: Option<usize>)
    ensures
        match res {
            Some(i) => i < list@.len() && list.deep_view()[i as int] == x@,
            None => !list.deep_view().contains(x@),
        },
{
    let n = list.len();
    let mut i: usize = 0;
    while i < n
        invariant
            i <= n,
            n == list@.len(),
            forall|k: int| 0 <= k < i ==> list.deep_view()[k] != x@,
        decreases n - i,
    {
        if list[i] == *x {
            return Some(i);
        }
        i = i + 1;
    }
    None
}

/// The distinct identifier tuples and names of the first rows, in first-seen order, with each
/// row's position in both lists.
fn index_rows(table: &Table, ids: &Vec<usize>, n: usize) -> (res: (Vec<Vec<String>>, Vec<String>, Vec<usize>, Vec<usize>))
    ensures
        res.0.deep_view() == dedup(id_tuples(table@, ids@)),
        res.1.deep_view() == dedup(column_cells(table@, n as int)),
        res.2@.len() == table@.nrows(),
        res.3@.len() == table@.nrows(),
        forall|r: int| 0 <= r < table@.nrows() ==> #[trigger] res.2@[r] < res.0@.len()
            && res.0.deep_view()[res.2@[r] as int] == id_tuples(table@, ids@)[r],
        forall|r: int| 0 <= r < table@.nrows() ==> #[trigger] res.3@[r] < res.1@.len()
            && res.1.deep_view()[res.3@[r] as int] == column_cells(table@, n as int)[r],
        forall|i: int, j: int| 0 <= i < j < res.0@.len() ==> res.0.deep_view()[i] != res.0.deep_view()[j],
        forall|i: int, j: int| 0 <= i < j < res.1@.len() ==> res.1.deep_view()[i] != res.1.deep_view()[j],
{
    let ghost tuples = id_tuples(table@, ids@);
    let ghost names = column_cells(table@, n as int);
    let nr = table.nrows();
    let mut keys: Vec<Vec<String>> = Vec::new();
    let mut heads: Vec<String> = Vec::new();
    let mut key_of: Vec<usize> = Vec::new();
    let mut name_of: Vec<usize> = Vec::new();
    let mut r: usize = 0;
    while r < nr
        invariant
            r <= nr,
            nr == table@.nrows(),
            tuples == id_tuples(table@, ids@),
            names == column_cells(table@, n as int),
            keys.deep_view() == dedup(tuples.take(r as int)),
            heads.deep_view() == dedup(names.take(r as int)),
            key_of@.len() == r,
            name_of@.len() == r,
            forall|q: int| 0 <= q < r ==> #[trigger] key_of@[q] < keys@.len()
                && keys.deep_view()[key_of@[q] as int] == tuples[q],
            forall|q: int| 0 <= q < r ==> #[trigger] name_of@[q] < heads@.len()
                && heads.deep_view()[name_of@[q] as int] == names[q],
            forall|i: int, j: int| 0 <= i < j < keys@.len() ==> keys.deep_view()[i] != keys.deep_view()[j],
            forall|i: int, j: int| 0 <= i < j < heads@.len() ==> heads.deep_view()[i] != heads.deep_view()[j],
        decreases nr - r,
    {
        proof {
            lemma_dedup_step(tuples, r as int);
            lemma_dedup_step(names, r as int);
        }
        let tup = cells_in(table, r, ids);
        let nm = table.cell_text(r, n);
        assert(tup.deep_view() == tuples[r as int]);
        assert(nm@ == names[r as int]);
        let ghost keys0 = keys.deep_view();
        let ghost heads0 = heads.deep_view();
        let ki = match find_cells(&keys, &tup) {
            Some(i) => i,
            None => {
                let ghost kv = keys@;
                keys.push(tup);
                assert(keys.deep_view() =~= keys0.push(tuples[r as int]));
                assert forall|q: int| 0 <= q < r implies #[trigger] key_of@[q] < keys@.len()
                    && keys.deep_view()[key_of@[q] as int] == tuples[q] by {
                    assert(keys.deep_view()[key_of@[q] as int] == keys0[key_of@[q] as int]);
                }
                keys.len() - 1
            },
        };
        let ni = match find_text(&heads, &nm) {
            Some(i) => i,
            None => {
                heads.push(nm);
                assert(heads.deep_view() =~= heads0.push(names[r as int]));
                assert forall|q: int| 0 <= q < r implies #[trigger] name_of@[q] < heads@.len()
                    && heads.deep_view()[name_of@[q] as int] == names[q] by {
                    assert(heads.deep_view()[name_of@[q] as int] == heads0[name_of@[q] as int]);
                }
                heads.len() - 1
            },
        };
        let ghost ko = key_of@;
        let ghost no = name_of@;
        key_of.push(ki);
        name_of.push(ni);
        assert forall|q: int| 0 <= q < r + 1 implies #[trigger] key_of@[q] < keys@.len()
            && keys.deep_view()[key_of@[q] as int] == tuples[q] by {
            if q < r {
                assert(key_of@[q] == ko[q]);
            }
        }
        assert forall|q: int| 0 <= q < r + 1 implies #[trigger] name_of@[q] < heads@.len()
            && heads.deep_view()[name_of@[q] as int] == names[q] by {
            if q < r {
                assert(name_of@[q] == no[q]);
            }
        }
        r = r + 1;
    }
    assert(tuples.take(nr as int) =~= tuples);
    assert(names.take(nr as int) =~= names);
    (keys, heads, key_of, name_of)
}

/// A grid cell's value, as text.
pub open spec fn slot(g: Seq<Vec<Option<String>>>, i: int, j: int) -> Option<Seq<char>> {
    match g[i]@[j] {
        Some(s) => Some(s@),
        None => None,
    }
}

/// A row of `width` empty grid cells.
fn empty_slots(width: usize) -> (res: Vec<Option<String>>)
    ensures
        res@.len() == width,
        forall|j: int| 0 <= j < width ==> #[trigger] res@[j] is None,
{
    let mut out: Vec<Option<String>> = Vec::new();
    let mut j: usize = 0;
    while j < width
        invariant
            j <= width,
            out@.len() == j,
            forall|k: int| 0 <= k < j ==> #[trigger] out@[k] is None,
        decreases width - j,
    {
        out.push(None);
        j = j + 1;
    }
    out
}

/// Place every row's value at its (tuple, name) position, refusing when two rows share one.
fn fill_grid(
    table: &Table,
    key_of: &Vec<usize>,
    name_of: &Vec<usize>,
    nk: usize,
    nn: usize,
    v: usize,
) -> (res: Option<Vec<Vec<Option<String>>>>)
    requires
        key_of@.len() == table@.nrows(),
        name_of@.len() == table@.nrows(),
        forall|r: int| 0 <= r < table@.nrows() ==> #[trigger] key_of@[r] < nk,
        forall|r: int| 0 <= r < table@.nrows() ==> #[trigger] name_of@[r] < nn,
    ensures
        match res {
            None => collides(key_of@, name_of@),
            Some(g) => {
                &&& !collides(key_of@, name_of@)
                &&& g@.len() == nk
                &&& forall|i: int| 0 <= i < nk ==> (#[trigger] g@[i])@.len() == nn
                &&& forall|i: int, j: int| 0 <= i < nk && 0 <= j < nn && slot(g@, i, j) is Some
                    ==> exists|r: int| #[trigger] carries(key_of@, name_of@, i as usize, j as usize, r)
                &&& forall|r: int| 0 <= r < table@.nrows() ==> slot(g@, #[trigger] key_of@[r] as int, name_of@[r] as int)
                    == Some(column_cells(table@, v as int)[r])
            },
        },
{
    let ghost values = column_cells(table@, v as int);
    let mut grid: Vec<Vec<Option<String>>> = Vec::new();
    let mut i: usize = 0;
    while i < nk
        invariant
            i <= nk,
            grid@.len() == i,
            forall|a: int| 0 <= a < i ==> (#[trigger] grid@[a])@.len() == nn,
            forall|a: int, b: int| 0 <= a < i && 0 <= b < nn ==> slot(grid@, a, b) is None,
        decreases nk - i,
    {
        let row = empty_slots(nn);
        let ghost g0 = grid@;
        let ghost rv = row@;
        grid.push(row);
        assert forall|a: int, b: int| 0 <= a < i + 1 && 0 <= b < nn implies slot(grid@, a, b) is None by {
            if a < i {
                assert(slot(g0, a, b) is None);
                assert(grid@[a] == g0[a]);
            } else {
                assert(grid@[a]@ == rv);
                assert(rv[b] is None);
            }
        }
        i = i + 1;
    }
    let nr = table.nrows();
    let mut r: usize = 0;
    while r < nr
        invariant
            r <= nr,
            nr == table@.nrows(),
            values == column_cells(table@, v as int),
            key_of@.len() == nr,
            name_of@.len() == nr,
            forall|q: int| 0 <= q < nr ==> #[trigger] key_of@[q] < nk,
            forall|q: int| 0 <= q < nr ==> #[trigger] name_of@[q] < nn,
            grid@.len() == nk,
            forall|a: int| 0 <= a < nk ==> (#[trigger] grid@[a])@.len() == nn,
            forall|a: int, b: int| 0 <= a < nk && 0 <= b < nn && slot(grid@, a, b) is Some
                ==> exists|q: int| 0 <= q < r && #[trigger] carries(key_of@, name_of@, a as usize, b as usize, q),
            forall|q: int| 0 <= q < r ==> slot(grid@, #[trigger] key_of@[q] as int, name_of@[q] as int) == Some(values[q]),
            forall|q1: int, q2: int| 0 <= q1 < q2 < r ==> !(#[trigger] key_of@[q1] == #[trigger] key_of@[q2]
                && name_of@[q1] == name_of@[q2]),
        decreases nr - r,
    {
        let ki = key_of[r];
        let ni = name_of[r];
        if grid[ki][ni].is_some() {
            proof {
                assert(slot(grid@, ki as int, ni as int) is Some);
                let q = choose|q: int| 0 <= q < r && carries(key_of@, name_of@, ki, ni, q);
                assert(key_of@[q] == key_of@[r as int] && name_of@[q] == name_of@[r as int]);
            }
            return None;
        }
        let val = table.cell_text(r, v);
        let ghost g0 = grid@;
        let mut line: Vec<Option<String>> = Vec::new();
        std::mem::swap(&mut line, &mut grid[ki]);
        line.set(ni, Some(val));
        std::mem::swap(&mut line, &mut grid[ki]);
        assert(grid@[ki as int]@ == g0[ki as int]@.update(ni as int, Some(val)));
        assert forall|a: int| 0 <= a < nk implies (#[trigger] grid@[a])@.len() == nn by {
            if a != ki {
                assert(grid@[a] == g0[a]);
            }
        }
        assert forall|a: int, b: int| 0 <= a < nk && 0 <= b < nn && slot(grid@, a, b) is Some
            implies exists|q: int| 0 <= q < r + 1 && #[trigger] carries(key_of@, name_of@, a as usize, b as usize, q) by {
            if a == ki && b == ni {
                assert(carries(key_of@, name_of@, a as usize, b as usize, r as int));
            } else if a == ki {
                assert(slot(grid@, a, b) == slot(g0, a, b));
            } else {
                assert(grid@[a] == g0[a]);
                assert(slot(grid@, a, b) == slot(g0, a, b));
            }
        }
        assert forall|q: int| 0 <= q < r + 1 implies slot(grid@, #[trigger] key_of@[q] as int, name_of@[q] as int)
            == Some(values[q]) by {
            if q < r {
                let a = key_of@[q] as int;
                let b = name_of@[q] as int;
                if a == ki && b == ni {
                    assert(slot(g0, a, b) is Some);
                } else if a == ki {
                    assert(slot(grid@, a, b) == slot(g0, a, b));
                } else {
                    assert(grid@[a] == g0[a]);
                }
            }
        }
        assert forall|q1: int, q2: int| 0 <= q1 < q2 < r + 1 implies !(#[trigger] key_of@[q1] == #[trigger] key_of@[q2]
            && name_of@[q1] == name_of@[q2]) by {
            if q2 == r && key_of@[q1] == key_of@[q2] && name_of@[q1] == name_of@[q2] {
                assert(slot(g0, key_of@[q1] as int, name_of@[q1] as int) is Some);
            }
        }
        r = r + 1;
    }
    assert(!collides(key_of@, name_of@)) by {
        if collides(key_of@, name_of@) {
            let (q1, q2) = choose|q1: int, q2: int| 0 <= q1 < q2 < key_of@.len() && #[trigger] key_of@[q1]
                == #[trigger] key_of@[q2] && name_of@[q1] == name_of@[q2];
            assert(!(key_of@[q1] == key_of@[q2] && name_of@[q1] == name_of@[q2]));
        }
    }
    Some(grid)
}


/// Positions into a duplicate-free list agree exactly when the listed values do.
proof fn lemma_distinct_index<A>(list: Seq<A>, i: int, j: int)
    requires
        forall|a: int, b: int| 0 <= a < b < list.len() ==> list[a] != list[b],
        0 <= i < list.len(),
        0 <= j < list.len(),
        list[i] == list[j],
    ensures
        i == j,
{
    if i < j {
        assert(list[i] != list[j]);
    } else if j < i {
        assert(list[j] != list[i]);
    }
}

/// Rows collide by position in the first-seen lists exactly when they collide by value.
proof fn lemma_collides_by_index<K, N>(
    tuples: Seq<K>,
    names: Seq<N>,
    keys: Seq<K>,
    heads: Seq<N>,
    ko: Seq<usize>,
    no: Seq<usize>,
)
    requires
        ko.len() == tuples.len(),
        no.len() == tuples.len(),
        names.len() == tuples.len(),
        forall|r: int| 0 <= r < tuples.len() ==> #[trigger] ko[r] < keys.len() && keys[ko[r] as int] == tuples[r],
        forall|r: int| 0 <= r < tuples.len() ==> #[trigger] no[r] < heads.len() && heads[no[r] as int] == names[r],
        forall|a: int, b: int| 0 <= a < b < keys.len() ==> keys[a] != keys[b],
        forall|a: int, b: int| 0 <= a < b < heads.len() ==> heads[a] != heads[b],
    ensures
        collides(ko, no) == collides(tuples, names),
{
    if collides(ko, no) {
        let (r1, r2) = choose|r1: int, r2: int| 0 <= r1 < r2 < ko.len() && #[trigger] ko[r1] == #[trigger] ko[r2]
            && no[r1] == no[r2];
        assert(ko[r1] < keys.len() && ko[r2] < keys.len());
        assert(no[r1] < heads.len() && no[r2] < heads.len());
        assert(tuples[r1] == tuples[r2]);
        assert(collides(tuples, names));
    }
    if collides(tuples, names) {
        let (r1, r2) = choose|r1: int, r2: int| 0 <= r1 < r2 < tuples.len() && #[trigger] tuples[r1]
            == #[trigger] tuples[r2] && names[r1] == names[r2];
        assert(ko[r1] < keys.len() && ko[r2] < keys.len());
        assert(no[r1] < heads.len() && no[r2] < heads.len());
        lemma_distinct_index(keys, ko[r1] as int, ko[r2] as int);
        lemma_distinct_index(heads, no[r1] as int, no[r2] as int);
        assert(collides(ko, no));
    }
}

/// A filled grid cell holds exactly the looked-up value of its key and name.
proof fn lemma_pivot_cell<K, N>(
    tuples: Seq<K>,
    names: Seq<N>,
    values: Seq<Seq<char>>,
    keys: Seq<K>,
    heads: Seq<N>,
    ko: Seq<usize>,
    no: Seq<usize>,
    ti: int,
    ni: int,
    x: Option<Seq<char>>,
)
    requires
        ko.len() == tuples.len(),
        no.len() == tuples.len(),
        names.len() == tuples.len(),
        values.len() == tuples.len(),
        0 <= ti < keys.len(),
        0 <= ni < heads.len(),
        ti <= usize::MAX,
        ni <= usize::MAX,
        forall|r: int| 0 <= r < tuples.len() ==> #[trigger] ko[r] < keys.len() && keys[ko[r] as int] == tuples[r],
        forall|r: int| 0 <= r < tuples.len() ==> #[trigger] no[r] < heads.len() && heads[no[r] as int] == names[r],
        forall|a: int, b: int| 0 <= a < b < keys.len() ==> keys[a] != keys[b],
        forall|a: int, b: int| 0 <= a < b < heads.len() ==> heads[a] != heads[b],
        x is Some ==> exists|r: int| #[trigger] carries(ko, no, ti as usize, ni as usize, r),
        forall|r: int| 0 <= r < tuples.len() && #[trigger] ko[r] == ti && no[r] == ni ==> x == Some(values[r]),
    ensures
        (match x {
            Some(y) => y,
            None => Seq::<char>::empty(),
        }) == lookup(tuples, names, values, keys[ti], heads[ni]),
{
    if exists|r: int| #[trigger] carries(tuples, names, keys[ti], heads[ni], r) {
        let r0 = choose|r: int| carries(tuples, names, keys[ti], heads[ni], r);
        assert(ko[r0] < keys.len() && keys[ko[r0] as int] == tuples[r0]);
        assert(no[r0] < heads.len() && heads[no[r0] as int] == names[r0]);
        lemma_distinct_index(keys, ko[r0] as int, ti);
        lemma_distinct_index(heads, no[r0] as int, ni);
        assert(x == Some(values[r0]));
    } else {
        if x is Some {
            let r = choose|r: int| #[trigger] carries(ko, no, ti as usize, ni as usize, r);
            assert(ko[r] < keys.len() && keys[ko[r] as int] == tuples[r]);
            assert(no[r] < heads.len() && heads[no[r] as int] == names[r]);
            assert(carries(tuples, names, keys[ti], heads[ni], r));
        }
    }
}

/// Long to wide. The distinct values of the `names_from` column become new column headers,
/// the `values_from` column fills the grid, and every other column identifies a row. Headers
/// and rows appear in first-seen order; a combination that never occurs is left empty. Two rows
/// that would land in one cell are a collision: nothing is ever aggregated.
pub fn pivot(table: &Table, names_from: &str, values_from: &str) -> (res: Result<Table>)
    ensures
        view_result(res) == spec_pivot(table@, names_from@, values_from@),
{
    let n = one_col(names_from, table)?;
    let v = one_col(values_from, table)?;
    if n == v {
        return Err(XshapeError::Input(String::from_str(
            "--names-from and --values-from must name different columns",
        )));
    }
    pivot_columns(table, n, v)
}

/// Pivot on resolved, different columns `n` (names) and `v` (values): a collision when two
/// rows would land in one cell, the spread table otherwise.
pub fn pivot_columns(table: &Table, n: usize, v: usize) -> (res: Result<Table>)
    requires
        n != v,
        n < table@.width(),
        v < table@.width(),
    ensures
        view_result(res) == (if pivot_collides(table@, n as int, v as int) {
            Err::<TableView, Fault>(Fault::Collision(collision_message()))
        } else {
            Ok::<TableView, Fault>(pivot_table(table@, n as int, v as int))
        }),
{
    let ghost t = table@;
    let w = table.ncols();
    let nv = vec![n, v];
    assert(nv@ =~= seq![n, v]);
    let ids = complement_cols(w, &nv);
    let ghost tuples = id_tuples(t, ids@);
    let ghost names = column_cells(t, n as int);
    let ghost values = column_cells(t, v as int);
    let (keys, heads, key_of, name_of) = index_rows(table, &ids, n);
    let nk = keys.len();
    let nn = heads.len();
    proof {
        lemma_collides_by_index(tuples, names, keys.deep_view(), heads.deep_view(), key_of@, name_of@);
    }
    let grid = match fill_grid(table, &key_of, &name_of, nk, nn, v) {
        None => {
            return Err(XshapeError::Collision(String::from_str(
                "two rows share their identifier values and their --names-from value, so they would land in one cell; xshape never aggregates: dedupe or aggregate with xql or DuckDB first, then pivot",
            )));
        },
        Some(g) => g,
    };
    let mut header = labels_in(table, &ids);
    let ghost h0 = header.deep_view();
    let hs = copy_row(&heads);
    let header = concat_cells(header, hs);
    let ghost keysv = keys.deep_view();
    let ghost headsv = heads.deep_view();
    let ghost want = Seq::new(keysv.len(), |i: int| pivot_row(tuples, names, values, keysv[i], headsv));
    let mut rows: Vec<Vec<String>> = Vec::new();
    let mut ti: usize = 0;
    while ti < nk
        invariant
            ti <= nk,
            nk == keys@.len(),
            nn == heads@.len(),
            keysv == keys.deep_view(),
            headsv == heads.deep_view(),
            tuples == id_tuples(t, ids@),
            names == column_cells(t, n as int),
            values == column_cells(t, v as int),
            t == table@,
            key_of@.len() == t.nrows(),
            name_of@.len() == t.nrows(),
            forall|r: int| 0 <= r < t.nrows() ==> #[trigger] key_of@[r] < keys@.len()
                && keysv[key_of@[r] as int] == tuples[r],
            forall|r: int| 0 <= r < t.nrows() ==> #[trigger] name_of@[r] < heads@.len()
                && headsv[name_of@[r] as int] == names[r],
            forall|a: int, b: int| 0 <= a < b < keys@.len() ==> keysv[a] != keysv[b],
            forall|a: int, b: int| 0 <= a < b < heads@.len() ==> headsv[a] != headsv[b],
            grid@.len() == nk,
            forall|i: int| 0 <= i < nk ==> (#[trigger] grid@[i])@.len() == nn,
            forall|i: int, j: int| 0 <= i < nk && 0 <= j < nn && slot(grid@, i, j) is Some
                ==> exists|r: int| #[trigger] carries(key_of@, name_of@, i as usize, j as usize, r),
            forall|r: int| 0 <= r < t.nrows() ==> slot(grid@, #[trigger] key_of@[r] as int, name_of@[r] as int)
                == Some(values[r]),
            want == Seq::new(keysv.len(), |i: int| pivot_row(tuples, names, values, keysv[i], headsv)),
            rows.deep_view() == want.take(ti as int),
        decreases nk - ti,
    {
        let mut line = copy_row(&keys[ti]);
        let ghost line0 = line.deep_view();
        let ghost lw = want[ti as int];
        let mut ni: usize = 0;
        while ni < nn
            invariant
                ni <= nn,
                ti < nk,
                nk == keys@.len(),
                nn == heads@.len(),
                keysv == keys.deep_view(),
                headsv == heads.deep_view(),
                tuples == id_tuples(t, ids@),
                names == column_cells(t, n as int),
                values == column_cells(t, v as int),
                t == table@,
                key_of@.len() == t.nrows(),
                name_of@.len() == t.nrows(),
                forall|r: int| 0 <= r < t.nrows() ==> #[trigger] key_of@[r] < keys@.len()
                    && keysv[key_of@[r] as int] == tuples[r],
                forall|r: int| 0 <= r < t.nrows() ==> #[trigger] name_of@[r] < heads@.len()
                    && headsv[name_of@[r] as int] == names[r],
                forall|a: int, b: int| 0 <= a < b < keys@.len() ==> keysv[a] != keysv[b],
                forall|a: int, b: int| 0 <= a < b < heads@.len() ==> headsv[a] != headsv[b],
                grid@.len() == nk,
                forall|i: int| 0 <= i < nk ==> (#[trigger] grid@[i])@.len() == nn,
                forall|i: int, j: int| 0 <= i < nk && 0 <= j < nn && slot(grid@, i, j) is Some
                    ==> exists|r: int| #[trigger] carries(key_of@, name_of@, i as usize, j as usize, r),
                forall|r: int| 0 <= r < t.nrows() ==> slot(grid@, #[trigger] key_of@[r] as int, name_of@[r] as int)
                    == Some(values[r]),
                lw == pivot_row(tuples, names, values, keysv[ti as int], headsv),
                line.deep_view() == lw.take(keysv[ti as int].len() + ni),
            decreases nn - ni,
        {
            proof {
                assert forall|r: int| 0 <= r < tuples.len() && #[trigger] key_of@[r] == ti && name_of@[r] == ni
                    implies slot(grid@, ti as int, ni as int) == Some(values[r]) by {
                    assert(slot(grid@, key_of@[r] as int, name_of@[r] as int) == Some(values[r]));
                }
                lemma_pivot_cell(
                    tuples,
                    names,
                    values,
                    keysv,
                    headsv,
                    key_of@,
                    name_of@,
                    ti as int,
                    ni as int,
                    slot(grid@, ti as int, ni as int),
                );
            }
            let s = match &grid[ti][ni] {
                Some(x) => x.clone(),
                None => String::new(),
            };
            let ghost before = line.deep_view();
            line.push(s);
            assert(line.deep_view() =~= before.push(s@));
            ni = ni + 1;
            assert(line.deep_view() =~= lw.take(keysv[ti as int].len() + ni));
        }
        assert(lw.take(keysv[ti as int].len() + nn) =~= lw);
        let ghost prev = rows.deep_view();
        rows.push(line);
        assert(rows.deep_view() =~= prev.push(lw));
        ti = ti + 1;
        assert(rows.deep_view() =~= want.take(ti as int));
    }
    assert(want.take(nk as int) =~= want);
    Ok(Table { header: Some(header), rows, delim: table.delim })
}

} // verus!
