//! Where every input column lands in a reshape's output: split, merge and pivot keep each
//! column they do not consume, in order, and fail only for the reasons their docs give.
use crate::model::TableView;
use crate::text::{join, split_on};
use crate::verbs::{
    carries, cells_of, collides, column_cells, complement, dedup, first_overflow, id_tuples, kept, max_pieces,
    merge_table, min_col, pieces, pivot_collides, pivot_table, split_col,
};
use vstd::prelude::*;

verus! {

/// How many of the columns `0..j` are in `cs`, not counting column `keep`.
pub open spec fn taken_below(cs: Seq<usize>, keep: int, j: nat) -> nat
    decreases j,
{
    if j == 0 {
        0
    } else {
        taken_below(cs, keep, (j - 1) as nat) + if cs.contains((j - 1) as usize) && j - 1 != keep {
            1nat
        } else {
            0nat
        }
    }
}

/// Going from `a` to `b`, at most one column is taken per step, and none at a column that is
/// not taken.
proof fn lemma_taken_growth(cs: Seq<usize>, keep: int, a: nat, b: nat)
    requires
        a <= b,
    ensures
        taken_below(cs, keep, a) <= taken_below(cs, keep, b),
        taken_below(cs, keep, b) - taken_below(cs, keep, a) <= b - a,
        a < b && (!cs.contains(a as usize) || a == keep) ==> taken_below(cs, keep, b) - taken_below(
            cs,
            keep,
            a,
        ) <= b - a - 1,
    decreases b - a,
{
    if a < b {
        lemma_taken_growth(cs, keep, a, (b - 1) as nat);
    }
}

/// No column below the smallest one in `cs` is taken.
proof fn lemma_taken_below_min(cs: Seq<usize>, keep: int, j: nat)
    requires
        forall|k: int| 0 <= k < cs.len() ==> j <= #[trigger] cs[k],
    ensures
        taken_below(cs, keep, j) == 0,
    decreases j,
{
    if j > 0 {
        lemma_taken_below_min(cs, keep, (j - 1) as nat);
        assert(!cs.contains((j - 1) as usize));
    }
}

/// The columns a complement keeps: each column outside `g` stands at its index minus the
/// columns of `g` left of it.
proof fn lemma_complement_places(w: nat, g: Seq<usize>)
    requires
        w <= usize::MAX + 1,
    ensures
        complement(w, g).len() == w - taken_below(g, -1, w),
        forall|j: int|
            0 <= j < w && !g.contains(j as usize) ==> #[trigger] complement(w, g)[j - taken_below(
                g,
                -1,
                j as nat,
            )] == j && 0 <= j - taken_below(g, -1, j as nat) < complement(w, g).len(),
    decreases w,
{
    if w > 0 {
        let p = (w - 1) as nat;
        lemma_complement_places(p, g);
        lemma_taken_growth(g, -1, 0, p);
        assert forall|j: int| 0 <= j < w && !g.contains(j as usize) implies #[trigger] complement(
            w,
            g,
        )[j - taken_below(g, -1, j as nat)] == j && 0 <= j - taken_below(g, -1, j as nat) < complement(
            w,
            g,
        ).len() by {
            lemma_taken_growth(g, -1, 0, j as nat);
            if j < p {
                lemma_taken_growth(g, -1, j as nat, p);
            }
        }
    }
}

/// The columns a merge keeps: each column outside `cs`, and the merged position `m`, stands at
/// its index minus the columns of `cs` other than `m` left of it.
proof fn lemma_kept_places(w: nat, cs: Seq<usize>, m: usize)
    requires
        w <= usize::MAX + 1,
    ensures
        kept(w, cs, m).len() == w - taken_below(cs, m as int, w),
        forall|j: int|
            0 <= j < w && (j == m || !cs.contains(j as usize)) ==> #[trigger] kept(w, cs, m)[j
                - taken_below(cs, m as int, j as nat)] == j && 0 <= j - taken_below(cs, m as int, j as nat)
                < kept(w, cs, m).len(),
    decreases w,
{
    if w > 0 {
        let p = (w - 1) as nat;
        lemma_kept_places(p, cs, m);
        lemma_taken_growth(cs, m as int, 0, p);
        assert forall|j: int| 0 <= j < w && (j == m || !cs.contains(j as usize)) implies #[trigger] kept(
            w,
            cs,
            m,
        )[j - taken_below(cs, m as int, j as nat)] == j && 0 <= j - taken_below(cs, m as int, j as nat)
            < kept(w, cs, m).len() by {
            lemma_taken_growth(cs, m as int, 0, j as nat);
            if j < p {
                lemma_taken_growth(cs, m as int, j as nat, p);
            }
        }
    }
}

/// The smallest merged column is one of them and no larger than any.
proof fn lemma_min_col(cs: Seq<usize>)
    requires
        cs.len() >= 1,
    ensures
        cs.contains(min_col(cs)),
        forall|k: int| 0 <= k < cs.len() ==> min_col(cs) <= #[trigger] cs[k],
    decreases cs.len(),
{
    if cs.len() > 1 {
        lemma_min_col(cs.drop_last());
        assert forall|k: int| 0 <= k < cs.len() implies min_col(cs) <= #[trigger] cs[k] by {
            if k < cs.len() - 1 {
                assert(cs[k] == cs.drop_last()[k]);
            }
        }
        if min_col(cs) != cs.last() {
            let i = choose|i: int| 0 <= i < cs.drop_last().len() && cs.drop_last()[i] == min_col(cs.drop_last());
            assert(cs[i] == min_col(cs));
        }
    } else {
        assert(cs[0] == min_col(cs));
    }
}

/// `u` is `t` merged on `cs` with `sep` into a column named `into` at `m`: the joined cells
/// stand at column `m`; every column `j` of `t` outside `cs` keeps its header label and its
/// cells, shifted left by the columns of `cs` other than `m` that lie left of it; and `u` is
/// as wide as `t` less those columns.
pub open spec fn merged_at(t: TableView, cs: Seq<usize>, sep: Seq<char>, into: Seq<char>, u: TableView, m: int) -> bool {
    let w = t.width();
    let out_w = w - taken_below(cs, m, w);
    &&& u.rows.len() == t.nrows()
    &&& (u.header is Some <==> t.header is Some)
    &&& (u.header matches Some(h) ==> h.len() == out_w && h[m] == into)
    &&& forall|r: int| 0 <= r < t.nrows() ==> (#[trigger] u.rows[r]).len() == out_w && u.rows[r][m]
        == join(cells_of(t, r, cs), sep)
    &&& forall|r: int, j: int|
        0 <= r < t.nrows() && 0 <= j < w && !cs.contains(j as usize) ==> #[trigger] u.rows[r][j
            - taken_below(cs, m, j as nat)] == t.cell(r, j)
    &&& forall|j: int|
        0 <= j < w && !cs.contains(j as usize) && u.header is Some ==> #[trigger] u.header->Some_0[j
            - taken_below(cs, m, j as nat)] == t.label(j)
}

/// Merging keeps every column it does not consume, in order: the joined cell stands at the
/// leftmost merged column, and every other column keeps its label and cells (`merged_at`).
pub proof fn law_merge_keeps_other_columns(t: TableView, cs: Seq<usize>, sep: Seq<char>, into: Seq<char>)
    requires
        cs.len() >= 2,
        forall|k: int| 0 <= k < cs.len() ==> #[trigger] cs[k] < t.width(),
        t.width() <= usize::MAX,
    ensures
        cs.contains(min_col(cs)),
        forall|k: int| 0 <= k < cs.len() ==> min_col(cs) <= #[trigger] cs[k],
        merged_at(t, cs, sep, into, merge_table(t, cs, sep, into), min_col(cs) as int),
{
    let m = min_col(cs);
    lemma_min_col(cs);
    let w = t.width();
    let ks = kept(w, cs, m);
    lemma_kept_places(w, cs, m);
    lemma_taken_below_min(cs, m as int, m as nat);
    let mi: int = m as int;
    let wit = choose|i: int| 0 <= i < cs.len() && cs[i] == m;
    assert(cs[wit] < w);
    assert(kept(w, cs, m)[mi - taken_below(cs, m as int, mi as nat)] == mi);
    assert(ks[m as int] == m);
    let u = merge_table(t, cs, sep, into);
    assert forall|r: int, j: int|
        0 <= r < t.nrows() && 0 <= j < w && !cs.contains(j as usize) implies #[trigger] u.rows[r][j
            - taken_below(cs, m as int, j as nat)] == t.cell(r, j) by {
        assert(kept(w, cs, m)[j - taken_below(cs, m as int, j as nat)] == j);
    }
    assert forall|j: int| 0 <= j < w && !cs.contains(j as usize) && u.header is Some implies #[trigger] u.header->Some_0[j
        - taken_below(cs, m as int, j as nat)] == t.label(j) by {
        assert(kept(w, cs, m)[j - taken_below(cs, m as int, j as nat)] == j);
    }
}

/// Every column a complement lists lies in `0..w` and outside `g`.
proof fn lemma_complement_members(w: nat, g: Seq<usize>)
    requires
        w <= usize::MAX + 1,
    ensures
        forall|k: int| 0 <= k < complement(w, g).len() ==> #[trigger] complement(w, g)[k] < w
            && !g.contains(complement(w, g)[k]),
    decreases w,
{
    if w > 0 {
        let p = (w - 1) as nat;
        lemma_complement_members(p, g);
        let rest = complement(p, g);
        assert forall|k: int| 0 <= k < complement(w, g).len() implies #[trigger] complement(w, g)[k] < w
            && !g.contains(complement(w, g)[k]) by {
            if k < rest.len() {
                assert(complement(w, g)[k] == rest[k]);
            }
        }
    }
}

/// How many of the names and values columns lie left of column `j`.
pub open spec fn left_of(n: int, v: int, j: int) -> int {
    (if n < j { 1int } else { 0int }) + (if v < j { 1int } else { 0int })
}

/// Taking the two columns `n` and `v` out, column `j` moves left by those of them left of it.
proof fn lemma_taken_pair(n: usize, v: usize, j: nat)
    requires
        n != v,
        j <= usize::MAX + 1,
    ensures
        taken_below(seq![n, v], -1, j) == left_of(n as int, v as int, j as int),
    decreases j,
{
    if j > 0 {
        lemma_taken_pair(n, v, (j - 1) as nat);
        let s = seq![n, v];
        assert(s.contains((j - 1) as usize) <==> (j - 1 == n || j - 1 == v)) by {
            if s.contains((j - 1) as usize) {
                let k = choose|k: int| 0 <= k < 2 && s[k] == (j - 1) as usize;
                assert(k == 0 || k == 1);
            }
            if j - 1 == n {
                assert(s[0] == n);
            }
            if j - 1 == v {
                assert(s[1] == v);
            }
        }
    }
}

/// Rows `r1` and `r2` agree on every column other than the names column `n` and the values
/// column `v`: the columns that identify a row in a pivot.
pub open spec fn same_ids(t: TableView, n: int, v: int, r1: int, r2: int) -> bool {
    forall|j: int| 0 <= j < t.width() && j != n && j != v ==> #[trigger] t.cell(r1, j) == t.cell(r2, j)
}

/// `u` is `t` pivoted on names column `n` and values column `v`: its header holds the label of
/// every other column of `t`, in order (column `j` moved left by those of `n` and `v` left of
/// it), then the distinct names in first-seen order; and every input row's identifier cells
/// begin some output row.
pub open spec fn pivot_laid_out(t: TableView, n: int, v: int, u: TableView) -> bool {
    let w = t.width();
    let heads = dedup(column_cells(t, n));
    &&& u.header is Some
    &&& u.header->Some_0.len() == w - 2 + heads.len()
    &&& forall|j: int|
        0 <= j < w && j != n && j != v ==> #[trigger] u.header->Some_0[j - left_of(n, v, j)] == t.label(j)
    &&& forall|i: int| 0 <= i < heads.len() ==> #[trigger] u.header->Some_0[w - 2 + i] == heads[i]
    &&& forall|r: int| 0 <= r < t.nrows() ==> #[trigger] begins_some_row(t, n, v, r, u)
}

/// Some row of `u` begins with row `r`'s identifier cells.
pub open spec fn begins_some_row(t: TableView, n: int, v: int, r: int, u: TableView) -> bool {
    exists|i: int| 0 <= i < u.rows.len() && #[trigger] same_start(t, n, v, r, u.rows[i])
}

/// The row `line` begins with row `r`'s identifier cells, each column `j` other than `n` and
/// `v` at `j` moved left by those of them left of it.
pub open spec fn same_start(t: TableView, n: int, v: int, r: int, line: Seq<Seq<char>>) -> bool {
    forall|j: int|
        0 <= j < t.width() && j != n && j != v ==> #[trigger] line[j - left_of(n, v, j)] == t.cell(r, j)
}

/// Some row of `u` begins with row `r`'s identifier cells and holds row `r`'s value in the
/// column headed by row `r`'s name.
pub open spec fn holds_row(t: TableView, n: int, v: int, r: int, u: TableView) -> bool {
    let heads = dedup(column_cells(t, n));
    exists|i: int, h: int|
        #![trigger same_start(t, n, v, r, u.rows[i]), heads[h]]
        0 <= i < u.rows.len() && 0 <= h < heads.len() && heads[h] == t.cell(r, n) && same_start(
            t,
            n,
            v,
            r,
            u.rows[i],
        ) && u.rows[i][t.width() - 2 + h] == t.cell(r, v)
}

/// Every element of a sequence occurs in its first-seen list.
proof fn lemma_dedup_has<A>(s: Seq<A>, r: int)
    requires
        0 <= r < s.len(),
    ensures
        dedup(s).contains(s[r]),
    decreases s.len(),
{
    if r < s.len() - 1 {
        lemma_dedup_has(s.drop_last(), r);
        assert(s.drop_last()[r] == s[r]);
        let d = dedup(s.drop_last());
        let i = choose|i: int| 0 <= i < d.len() && d[i] == s[r];
        if !d.contains(s.last()) {
            assert(d.push(s.last())[i] == s[r]);
        }
    } else {
        let d = dedup(s.drop_last());
        if !d.contains(s.last()) {
            assert(d.push(s.last())[d.len() as int] == s[r]);
        }
    }
}

/// Pivoting keeps every column other than the names and values columns as an identifier,
/// wherever the two stand: the header lists those columns' labels in order and then the
/// distinct names, and each input row's identifier cells begin an output row. Two rows
/// collide exactly when they agree on every identifier column and on the names column.
pub proof fn law_pivot_identifies_by_every_other_column(t: TableView, n: int, v: int)
    requires
        0 <= n < t.width(),
        0 <= v < t.width(),
        n != v,
        t.width() <= usize::MAX,
    ensures
        pivot_laid_out(t, n, v, pivot_table(t, n, v)),
        !pivot_collides(t, n, v) ==> forall|r: int| 0 <= r < t.nrows() ==> #[trigger] holds_row(t, n, v, r, pivot_table(t, n, v)),
        pivot_collides(t, n, v) <==> exists|r1: int, r2: int|
            #![trigger same_ids(t, n, v, r1, r2)]
            0 <= r1 < r2 < t.nrows() && same_ids(t, n, v, r1, r2) && t.cell(r1, n) == t.cell(r2, n),
{
    let w = t.width();
    let g = seq![n as usize, v as usize];
    let ids = complement(w, g);
    lemma_complement_places(w, g);
    lemma_complement_members(w, g);
    lemma_taken_pair(n as usize, v as usize, w);
    assert forall|j: int| 0 <= j < w && j != n && j != v implies !g.contains(j as usize)
        && #[trigger] ids[j - left_of(n, v, j)] == j && 0 <= j - left_of(n, v, j) < ids.len() by {
        lemma_taken_pair(n as usize, v as usize, j as nat);
        assert(!g.contains(j as usize)) by {
            if g.contains(j as usize) {
                let k = choose|k: int| 0 <= k < 2 && g[k] == j as usize;
                assert(k == 0 || k == 1);
            }
        }
    }
    let u = pivot_table(t, n, v);
    let tuples = id_tuples(t, ids);
    let names = column_cells(t, n);
    let heads = dedup(names);
    let keys = dedup(tuples);
    assert(ids.len() == w - 2);
    assert forall|j: int| 0 <= j < w && j != n && j != v implies #[trigger] u.header->Some_0[j - left_of(
        n,
        v,
        j,
    )] == t.label(j) by {
        assert(ids[j - left_of(n, v, j)] == j);
    }
    assert forall|r: int| 0 <= r < t.nrows() implies #[trigger] begins_some_row(t, n, v, r, u) by {
        lemma_dedup_has(tuples, r);
        let i = choose|i: int| 0 <= i < keys.len() && keys[i] == tuples[r];
        assert forall|j: int| 0 <= j < w && j != n && j != v implies #[trigger] u.rows[i][j - left_of(
            n,
            v,
            j,
        )] == t.cell(r, j) by {
            assert(ids[j - left_of(n, v, j)] == j);
            assert(keys[i][j - left_of(n, v, j)] == t.cell(r, j));
        }
        assert(same_start(t, n, v, r, u.rows[i]));
    }
    let values = column_cells(t, v);
    if !pivot_collides(t, n, v) {
        assert forall|r: int| 0 <= r < t.nrows() implies #[trigger] holds_row(t, n, v, r, u) by {
            lemma_dedup_has(tuples, r);
            lemma_dedup_has(names, r);
            let i = choose|i: int| 0 <= i < keys.len() && keys[i] == tuples[r];
            let h = choose|h: int| 0 <= h < heads.len() && heads[h] == names[r];
            assert forall|j: int| 0 <= j < w && j != n && j != v implies #[trigger] u.rows[i][j - left_of(
                n,
                v,
                j,
            )] == t.cell(r, j) by {
                assert(ids[j - left_of(n, v, j)] == j);
                assert(keys[i][j - left_of(n, v, j)] == t.cell(r, j));
            }
            assert(carries(tuples, names, keys[i], heads[h], r));
            let r2 = choose|r2: int| carries(tuples, names, keys[i], heads[h], r2);
            if r2 != r {
                if r < r2 {
                    assert(collides(tuples, names));
                } else {
                    assert(collides(tuples, names));
                }
            }
            assert(keys[i].len() == w - 2);
            assert(u.rows[i][w - 2 + h] == values[r]);
            assert(same_start(t, n, v, r, u.rows[i]));
            assert(heads[h] == t.cell(r, n));
        }
    }
    // Two rows share their identifier tuple exactly when they agree on every other column.
    assert forall|r1: int, r2: int| 0 <= r1 < t.nrows() && 0 <= r2 < t.nrows() implies (tuples[r1]
        == tuples[r2] <==> #[trigger] same_ids(t, n, v, r1, r2)) by {
        if tuples[r1] == tuples[r2] {
            assert forall|j: int| 0 <= j < w && j != n && j != v implies #[trigger] t.cell(r1, j)
                == t.cell(r2, j) by {
                assert(ids[j - left_of(n, v, j)] == j);
                assert(tuples[r1][j - left_of(n, v, j)] == tuples[r2][j - left_of(n, v, j)]);
            }
        }
        if same_ids(t, n, v, r1, r2) {
            assert forall|k: int| 0 <= k < ids.len() implies tuples[r1][k] == tuples[r2][k] by {
                let j = ids[k] as int;
                assert(j < w && !g.contains(ids[k]));
                assert(g[0] == n as usize && g[1] == v as usize);
                assert(t.cell(r1, j) == t.cell(r2, j));
            }
            assert(tuples[r1] =~= tuples[r2]);
        }
    }
    if pivot_collides(t, n, v) {
        let (r1, r2) = choose|r1: int, r2: int|
            0 <= r1 < r2 < tuples.len() && #[trigger] tuples[r1] == #[trigger] tuples[r2] && names[r1] == names[r2];
        assert(same_ids(t, n, v, r1, r2));
    }
    if exists|r1: int, r2: int|
        #![trigger same_ids(t, n, v, r1, r2)]
        0 <= r1 < r2 < t.nrows() && same_ids(t, n, v, r1, r2) && t.cell(r1, n) == t.cell(r2, n) {
        let (r1, r2) = choose|r1: int, r2: int|
            #![trigger same_ids(t, n, v, r1, r2)]
            0 <= r1 < r2 < t.nrows() && same_ids(t, n, v, r1, r2) && t.cell(r1, n) == t.cell(r2, n);
        assert(tuples[r1] == tuples[r2]);
        assert(names[r1] == names[r2]);
        assert(collides(tuples, names));
    }
}

/// `u` is `t` with column `c` cut on `sep` into `width` columns: the cells left of `c` stay,
/// the pieces of each row's cell fill the new columns in order, padded with "" when a row has
/// fewer pieces, and the cells right of `c` follow, shifted right by `width - 1`.
pub open spec fn split_laid_out(t: TableView, c: int, sep: Seq<char>, width: nat, u: TableView) -> bool {
    let w = t.width();
    &&& u.rows.len() == t.nrows()
    &&& forall|r: int| 0 <= r < t.nrows() ==> (#[trigger] u.rows[r]).len() == w - 1 + width
    &&& forall|r: int, k: int| 0 <= r < t.nrows() && 0 <= k < c ==> #[trigger] u.rows[r][k] == t.cell(r, k)
    &&& forall|r: int, i: int|
        0 <= r < t.nrows() && 0 <= i < width ==> #[trigger] u.rows[r][c + i] == if i < split_on(
            t.cell(r, c),
            sep,
        ).len() {
            split_on(t.cell(r, c), sep)[i]
        } else {
            Seq::<char>::empty()
        }
    &&& forall|r: int, j: int|
        0 <= r < t.nrows() && c < j < w ==> #[trigger] u.rows[r][j - 1 + width] == t.cell(r, j)
}

/// No row from `r` on has more than `width` pieces exactly when the search finds none.
proof fn lemma_first_overflow(t: TableView, c: int, sep: Seq<char>, width: nat, r: int)
    requires
        0 <= r,
    ensures
        first_overflow(t, c, sep, width, r) is None <==> forall|k: int|
            r <= k < t.nrows() ==> #[trigger] split_on(t.cell(k, c), sep).len() <= width,
    decreases t.nrows() - r,
{
    if r < t.nrows() {
        lemma_first_overflow(t, c, sep, width, r + 1);
        assert(pieces(t, c, sep, r) == split_on(t.cell(r, c), sep));
    }
}

/// The auto width is the most pieces any row has: no row has more, and some row (if any)
/// has exactly that many.
proof fn lemma_max_pieces_bound(t: TableView, c: int, sep: Seq<char>, n: nat)
    requires
        n <= t.nrows(),
    ensures
        forall|k: int| 0 <= k < n ==> #[trigger] split_on(t.cell(k, c), sep).len() <= max_pieces(t, c, sep, n),
        n > 0 ==> exists|k: int| 0 <= k < n && #[trigger] split_on(t.cell(k, c), sep).len() == max_pieces(t, c, sep, n),
    decreases n,
{
    if n > 0 {
        lemma_max_pieces_bound(t, c, sep, (n - 1) as nat);
        assert(pieces(t, c, sep, n - 1) == split_on(t.cell(n - 1, c), sep));
        if max_pieces(t, c, sep, n) == split_on(t.cell(n - 1, c), sep).len() {
            assert(split_on(t.cell(n - 1, c), sep).len() == max_pieces(t, c, sep, n));
        }
    }
}

/// Splitting with `--into` names succeeds exactly when no row has more pieces than names; a
/// row with fewer pieces is padded with "". The new columns carry the names. Without names,
/// splitting always succeeds, as wide as the most pieces any row has.
pub proof fn law_split_pads_short_rows(t: TableView, c: int, sep: Seq<char>, ns: Seq<Seq<char>>)
    requires
        0 <= c < t.width(),
        sep.len() > 0,
        t.width() <= usize::MAX,
    ensures
        split_col(t, c, sep, Some(ns)) is Ok <==> forall|r: int|
            0 <= r < t.nrows() ==> #[trigger] split_on(t.cell(r, c), sep).len() <= ns.len(),
        split_col(t, c, sep, Some(ns)) matches Ok(u) ==> split_laid_out(t, c, sep, ns.len(), u) && (
        u.header is Some <==> t.header is Some) && (u.header matches Some(h) ==> forall|i: int|
            0 <= i < ns.len() ==> #[trigger] h[c + i] == ns[i]),
        split_col(t, c, sep, None) matches Ok(u) && exists|width: nat|
            split_laid_out(t, c, sep, width, u) && (forall|r: int|
                0 <= r < t.nrows() ==> #[trigger] split_on(t.cell(r, c), sep).len() <= width) && (t.nrows()
                > 0 ==> exists|r: int| 0 <= r < t.nrows() && #[trigger] split_on(t.cell(r, c), sep).len() == width),
{
    lemma_first_overflow(t, c, sep, ns.len(), 0);
    let w = t.width();
    let before = crate::verbs::upto(0, c as nat);
    let after = crate::verbs::upto((c + 1) as nat, w);
    if let Ok(u) = split_col(t, c, sep, Some(ns)) {
        assert forall|r: int, i: int| 0 <= r < t.nrows() && 0 <= i < ns.len() implies #[trigger] u.rows[r][c
            + i] == if i < split_on(t.cell(r, c), sep).len() {
            split_on(t.cell(r, c), sep)[i]
        } else {
            Seq::<char>::empty()
        } by {
            assert(u.rows[r] == cells_of(t, r, before) + crate::verbs::pad(pieces(t, c, sep, r), ns.len())
                + cells_of(t, r, after));
        }
        assert forall|r: int, j: int| 0 <= r < t.nrows() && c < j < w implies #[trigger] u.rows[r][j - 1
            + ns.len()] == t.cell(r, j) by {
            assert(after[j - c - 1] == j);
        }
    }
    let width = max_pieces(t, c, sep, t.nrows());
    lemma_max_pieces_bound(t, c, sep, t.nrows());
    lemma_first_overflow(t, c, sep, width, 0);
    let u = split_col(t, c, sep, None)->Ok_0;
    assert forall|r: int, i: int| 0 <= r < t.nrows() && 0 <= i < width implies #[trigger] u.rows[r][c + i]
        == if i < split_on(t.cell(r, c), sep).len() {
        split_on(t.cell(r, c), sep)[i]
    } else {
        Seq::<char>::empty()
    } by {
        assert(u.rows[r] == cells_of(t, r, before) + crate::verbs::pad(pieces(t, c, sep, r), width)
            + cells_of(t, r, after));
    }
    assert forall|r: int, j: int| 0 <= r < t.nrows() && c < j < w implies #[trigger] u.rows[r][j - 1 + width]
        == t.cell(r, j) by {
        assert(after[j - c - 1] == j);
    }
    assert(split_laid_out(t, c, sep, width, u));
}

} // verus!
