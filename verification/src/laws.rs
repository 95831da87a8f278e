//! Properties that relate several calls or hold of every input: what a reshape keeps, which
//! reshapes undo each other, and that a skill's version stamp reads back.
use crate::model::{lemma_max_len, max_len, TableView};
use crate::text::{join, lemma_join_split, occurs_at, split_from, split_on};
use crate::verbs::{carries, collides, column_cells, dedup, id_tuples, lemma_dedup_step, lookup, pivot_collides, pivot_row, pivot_table, cells_of, complement, kept, labels_of, max_pieces, merge_row, merge_table, merge_header, min_col, pad, split_col, split_names, upto, explode_block, explode_table, grid_cell, grid_height, pieces, spec_transpose, transposed, unpivot_block, unpivot_table};
use vstd::arithmetic::div_mod::{lemma_fundamental_div_mod, lemma_mod_pos_bound};
use crate::skill::{skill_current, spec_before_write, OutcomeView, first_word, frontmatter_end, is_space, lemma_find_from, lemma_no_break, lemma_stamped_rest_concat, lemma_text_lines_concat, lemma_text_lines_first, lemma_word_end, no_break, skip_space, spec_stamp, spec_stamped_version, stamp_note, stamp_prefix, stamped_rest, text_lines, trim_dots, closing_fence, find_from};
use vstd::prelude::*;
use vstd::string::*;

verus! {

broadcast use vstd::seq_lib::group_seq_properties;

/// The table with every row, and the header if there is one, padded with "" to its width.
pub open spec fn padded(t: TableView) -> TableView {
    TableView {
        header: match t.header {
            Some(h) => Some(
                Seq::new(t.width(), |j: int| if j < h.len() {
                    h[j]
                } else {
                    Seq::<char>::empty()
                }),
            ),
            None => None,
        },
        rows: Seq::new(t.nrows(), |r: int| Seq::new(t.width(), |j: int| t.cell(r, j))),
        delim: t.delim,
    }
}

/// Rows that all have one length `n` are `n` wide (when there is at least one).
pub proof fn lemma_max_len_uniform(rows: Seq<Seq<Seq<char>>>, n: nat)
    requires
        rows.len() >= 1,
        forall|r: int| 0 <= r < rows.len() ==> #[trigger] rows[r].len() == n,
    ensures
        max_len(rows) == n,
    decreases rows.len(),
{
    assert(rows.last().len() == n);
    if rows.len() > 1 {
        assert forall|r: int| 0 <= r < rows.drop_last().len() implies #[trigger] rows.drop_last()[r].len() == n by {
            assert(rows.drop_last()[r] == rows[r]);
        }
        lemma_max_len_uniform(rows.drop_last(), n);
    } else {
        assert(rows.drop_last().len() == 0);
        assert(max_len(rows.drop_last()) == 0);
    }
}

/// Blocks of one length `g` flatten to `g` rows per block, block after block.
pub proof fn lemma_flatten_uniform<A>(blocks: Seq<Seq<A>>, g: nat)
    requires
        forall|r: int| 0 <= r < blocks.len() ==> #[trigger] blocks[r].len() == g,
    ensures
        blocks.flatten().len() == blocks.len() * g,
        forall|r: int, j: int| 0 <= r < blocks.len() && 0 <= j < g ==> #[trigger] blocks.flatten()[r * g + j]
            == blocks[r][j],
    decreases blocks.len(),
{
    if blocks.len() == 0 {
    } else {
        let init = blocks.drop_last();
        lemma_flatten_uniform(init, g);
        init.lemma_flatten_push(blocks.last());
        assert(init.push(blocks.last()) =~= blocks);
        let n = blocks.len();
        assert((n - 1) * g + g == n * g) by (nonlinear_arith);
        assert forall|r: int, j: int| 0 <= r < n && 0 <= j < g implies #[trigger] blocks.flatten()[r * g + j]
            == blocks[r][j] by {
            if r < n - 1 {
                assert(r * g + j < (n - 1) * g) by (nonlinear_arith)
                    requires
                        0 <= r < n - 1,
                        0 <= j < g,
                ;
                assert(init[r] == blocks[r]);
            } else {
                assert(r * g == (n - 1) * g);
            }
        }
    }
}

/// Blocks of at least one row each flatten to at least as many rows as there are blocks.
pub proof fn lemma_flatten_at_least<A>(blocks: Seq<Seq<A>>)
    requires
        forall|r: int| 0 <= r < blocks.len() ==> #[trigger] blocks[r].len() >= 1,
    ensures
        blocks.flatten().len() >= blocks.len(),
    decreases blocks.len(),
{
    if blocks.len() > 0 {
        let init = blocks.drop_last();
        lemma_flatten_at_least(init);
        init.lemma_flatten_push(blocks.last());
        assert(init.push(blocks.last()) =~= blocks);
    }
}

/// Transposing twice gives the table back, padded to a rectangle: every cell returns to its
/// row and column. (A table with no columns at all has no first column to become a header.)
pub proof fn law_transpose_twice(t: TableView)
    requires
        t.width() >= 1,
    ensures
        spec_transpose(spec_transpose(t)) == padded(t),
{
    let w = t.width();
    let h = grid_height(t);
    let g = transposed(t);
    let once = spec_transpose(t);
    assert forall|j: int| 0 <= j < w implies #[trigger] g[j].len() == h by {}
    match t.header {
        Some(hd) => {
            assert(h == t.nrows() + 1);
            let rows1 = g.drop_first();
            // The transposed table is h wide and w lines tall (header included).
            assert(once.header == Some(g[0]));
            assert(once.rows == rows1);
            if rows1.len() > 0 {
                assert forall|r: int| 0 <= r < rows1.len() implies #[trigger] rows1[r].len() == h by {
                    assert(rows1[r] == g[r + 1]);
                }
                lemma_max_len_uniform(rows1, h);
            }
            assert(once.width() == h);
            assert(grid_height(once) == w);
            let g2 = transposed(once);
            assert forall|i: int, j: int| 0 <= i < h && 0 <= j < w implies #[trigger] g2[i][j] == grid_cell(t, i, j) by {
                if j == 0 {
                    assert(grid_cell(once, j, i) == g[0][i]);
                } else {
                    assert(grid_cell(once, j, i) == once.cell(j - 1, i));
                    assert(rows1[j - 1] == g[j]);
                }
            }
            let twice = spec_transpose(once);
            assert(g2.len() == h);
            assert(twice.header == Some(g2[0]));
            assert(g2[0] =~= padded(t).header.unwrap());
            assert(twice.rows =~= padded(t).rows) by {
                assert forall|r: int| 0 <= r < t.nrows() implies #[trigger] twice.rows[r] =~= padded(t).rows[r] by {
                    assert(twice.rows[r] == g2[r + 1]);
                }
            }
        },
        None => {
            assert(h == t.nrows());
            assert(once.rows == g);
            assert(once.header is None);
            // Some column exists, so some row exists.
            lemma_max_len(t.rows);
            assert(t.nrows() >= 1);
            lemma_max_len_uniform(g, h);
            assert(once.width() == h);
            assert(grid_height(once) == w);
            let g2 = transposed(once);
            assert forall|i: int, j: int| 0 <= i < h && 0 <= j < w implies #[trigger] g2[i][j] == grid_cell(t, i, j) by {
                assert(grid_cell(once, j, i) == once.cell(j, i));
            }
            let twice = spec_transpose(once);
            assert(twice.rows =~= padded(t).rows) by {
                assert forall|r: int| 0 <= r < t.nrows() implies #[trigger] twice.rows[r] =~= padded(t).rows[r] by {}
            }
        },
    }
}

/// Exploding never drops a row: every input row yields at least one output row.
pub proof fn law_explode_keeps_every_row(t: TableView, c: int, sep: Seq<char>)
    requires
        sep.len() > 0,
    ensures
        explode_table(t, c, sep).rows.len() >= t.nrows(),
{
    let blocks = Seq::new(t.nrows(), |r: int| explode_block(t, c, sep, r));
    assert forall|r: int| 0 <= r < blocks.len() implies #[trigger] blocks[r].len() >= 1 by {
        lemma_join_split(t.cell(r, c), sep);
    }
    lemma_flatten_at_least(blocks);
}

/// Exploding loses nothing: the rows a cell explodes into carry its pieces in order, joining
/// them with the separator gives the cell back, and every other field is repeated unchanged.
pub proof fn law_explode_recovers_the_cell(t: TableView, c: int, sep: Seq<char>, r: int)
    requires
        sep.len() > 0,
        0 <= c < t.width(),
        0 <= r < t.nrows(),
    ensures
        ({
            let block = explode_block(t, c, sep, r);
            &&& block.len() >= 1
            &&& join(Seq::new(block.len(), |k: int| block[k][c]), sep) == t.cell(r, c)
            &&& forall|k: int, j: int| 0 <= k < block.len() && 0 <= j < t.width() && j != c
                ==> #[trigger] block[k][j] == t.cell(r, j)
        }),
{
    let block = explode_block(t, c, sep, r);
    lemma_join_split(t.cell(r, c), sep);
    assert(Seq::new(block.len(), |k: int| block[k][c]) =~= pieces(t, c, sep, r));
}

/// Unpivoting gathers every value: with distinct gathered columns, each input row becomes one
/// output row per gathered column, in order, holding the row's identifier cells, the gathered
/// column's label, and its cell exactly.
pub proof fn law_unpivot_gathers_every_cell(t: TableView, g: Seq<usize>, key: Seq<char>, value: Seq<char>)
    ensures
        ({
            let out = unpivot_table(t, g, key, value);
            let ids = complement(t.width(), g);
            &&& out.rows.len() == t.nrows() * g.len()
            &&& forall|r: int, j: int| 0 <= r < t.nrows() && 0 <= j < g.len() ==> #[trigger] out.rows[r * g.len()
                + j] == cells_of(t, r, ids) + seq![t.label(g[j] as int), t.cell(r, g[j] as int)]
        }),
{
    let ids = complement(t.width(), g);
    let blocks = Seq::new(t.nrows(), |r: int| unpivot_block(t, ids, g, r));
    lemma_flatten_uniform(blocks, g.len());
}


/// When every row splits into `n` pieces, `n` is the most any row splits into.
pub proof fn lemma_max_pieces_uniform(t: TableView, c: int, sep: Seq<char>, k: nat, n: nat)
    requires
        k <= t.nrows(),
        forall|r: int| 0 <= r < t.nrows() ==> #[trigger] pieces(t, c, sep, r).len() == n,
    ensures
        max_pieces(t, c, sep, k) == if k == 0 {
            0
        } else {
            n
        },
    decreases k,
{
    if k > 0 {
        lemma_max_pieces_uniform(t, c, sep, (k - 1) as nat, n);
        assert(pieces(t, c, sep, k - 1).len() == n);
    }
}

/// The smallest of the columns `lo..hi` is `lo`.
pub proof fn lemma_min_of_upto(lo: nat, hi: nat)
    requires
        lo < hi,
        hi <= usize::MAX,
    ensures
        min_col(upto(lo, hi)) == lo,
    decreases hi - lo,
{
    if hi - lo > 1 {
        lemma_min_of_upto(lo, (hi - 1) as nat);
        assert(upto(lo, hi).drop_last() =~= upto(lo, (hi - 1) as nat));
    }
}

/// The columns a merge of `c..c+n` keeps in a table `w` wide: those before `c`, `c` itself,
/// and those from `c+n` on.
pub proof fn lemma_kept_after_merge(w: nat, c: nat, n: nat)
    requires
        n >= 1,
        c + n <= w,
        w <= usize::MAX,
    ensures
        kept(w, upto(c, c + n), c as usize) == upto(0, c + 1) + upto(c + n, w),
    decreases w,
{
    let cs = upto(c, c + n);
    if w == 0 {
    } else if w <= c + n {
        if w <= c + 1 {
            lemma_kept_prefix(w, c, n);
        } else {
            lemma_kept_prefix(w, c, n);
        }
        assert(upto(c + n, w) =~= Seq::<usize>::empty());
    } else {
        lemma_kept_after_merge((w - 1) as nat, c, n);
        let j = (w - 1) as usize;
        assert(!cs.contains(j)) by {
            if cs.contains(j) {
                let k = choose|k: int| 0 <= k < cs.len() && cs[k] == j;
                assert(cs[k] == c + k);
            }
        }
        assert(upto(0, c + 1) + upto(c + n, w) =~= (upto(0, c + 1) + upto(c + n, (w - 1) as nat)).push(j));
    }
}

/// Below `c + n`, a merge of `c..c+n` keeps exactly the columns up to and including `c`.
proof fn lemma_kept_prefix(w: nat, c: nat, n: nat)
    requires
        n >= 1,
        w <= c + n,
        c + n <= usize::MAX,
    ensures
        kept(w, upto(c, c + n), c as usize) == upto(0, if w <= c + 1 {
            w
        } else {
            c + 1
        }),
    decreases w,
{
    let cs = upto(c, c + n);
    if w == 0 {
        assert(upto(0, 0) =~= Seq::<usize>::empty());
    } else {
        lemma_kept_prefix((w - 1) as nat, c, n);
        let j = (w - 1) as nat;
        if j < c {
            assert(!cs.contains(j as usize)) by {
                if cs.contains(j as usize) {
                    let k = choose|k: int| 0 <= k < cs.len() && cs[k] == j as usize;
                    assert(cs[k] == c + k);
                }
            }
            assert(upto(0, w) =~= upto(0, j).push(j as usize));
        } else if j == c {
            assert(upto(0, w) =~= upto(0, j).push(j as usize));
        } else {
            assert(cs[j - c] == j as usize);
            assert(cs.contains(j as usize));
        }
    }
}

/// Merging back the columns a split made, with the same separator and the split column's
/// label, gives the table back (padded) whenever every row split into the same number of pieces,
/// at least two.
pub proof fn law_merge_undoes_split(t: TableView, c: int, sep: Seq<char>, n: nat)
    requires
        sep.len() > 0,
        0 <= c < t.width(),
        t.nrows() >= 1,
        n >= 2,
        forall|r: int| 0 <= r < t.nrows() ==> #[trigger] pieces(t, c, sep, r).len() == n,
        t.width() + n <= usize::MAX,
    ensures
        split_col(t, c, sep, None) is Ok,
        ({
            let s = split_col(t, c, sep, None)->Ok_0;
            merge_table(s, upto(c as nat, (c + n) as nat), sep, t.label(c)) == TableView {
                header: match t.header {
                    Some(_) => Some(Seq::new(t.width(), |j: int| t.label(j))),
                    None => None,
                },
                rows: Seq::new(t.nrows(), |r: int| Seq::new(t.width(), |j: int| t.cell(r, j))),
                delim: t.delim,
            }
        }),
{
    let w = t.width();
    let cn = c as nat;
    lemma_max_pieces_uniform(t, c, sep, t.nrows(), n);
    let s = split_col(t, c, sep, None)->Ok_0;
    let before = upto(0, cn);
    let after = upto(cn + 1, w);
    let names = split_names(t, c, n);
    let sw = (w + n - 1) as nat;
    // The split table is rectangular, w + n - 1 wide.
    assert forall|r: int| 0 <= r < s.rows.len() implies #[trigger] s.rows[r].len() == sw by {}
    lemma_max_len_uniform(s.rows, sw);
    assert(s.width() == sw);
    let cs = upto(cn, cn + n);
    lemma_min_of_upto(cn, cn + n);
    lemma_kept_after_merge(sw, cn, n);
    let ks = kept(sw, cs, c as usize);
    assert(ks.len() == w);
    let m = merge_table(s, cs, sep, t.label(c));
    // Each kept column lands back where it came from.
    assert forall|k: int| 0 <= k < w implies #[trigger] ks[k] == (if k <= c {
        k
    } else {
        k + n - 1
    }) by {}
    assert forall|r: int| 0 <= r < t.nrows() implies #[trigger] m.rows[r] =~= Seq::new(w, |j: int| t.cell(r, j)) by {
        let row = merge_row(s, r, cs, ks, c as usize, sep);
        assert(m.rows[r] == row);
        assert forall|k: int| 0 <= k < w implies row[k] == t.cell(r, k) by {
            if k == c {
                let got = cells_of(s, r, cs);
                assert(got =~= pieces(t, c, sep, r)) by {
                    assert forall|i: int| 0 <= i < n implies got[i] == pieces(t, c, sep, r)[i] by {
                        assert(s.rows[r][c + i] == pad(pieces(t, c, sep, r), n)[i]);
                    }
                }
                lemma_join_split(t.cell(r, c), sep);
            } else if k < c {
                assert(s.rows[r][k] == cells_of(t, r, before)[k]);
            } else {
                assert(s.rows[r][k + n - 1] == cells_of(t, r, after)[k - c - 1]);
            }
        }
    }
    assert(m.rows =~= Seq::new(t.nrows(), |r: int| Seq::new(w, |j: int| t.cell(r, j))));
    match t.header {
        Some(_) => {
            let sh = s.header.unwrap();
            assert(sh.len() == sw);
            assert(m.header.unwrap() =~= Seq::new(w, |j: int| t.label(j))) by {
                assert forall|k: int| 0 <= k < w implies m.header.unwrap()[k] == t.label(k) by {
                    assert(m.header.unwrap() == merge_header(s, ks, c as usize, t.label(c)));
                    if k < c {
                        assert(sh[k] == labels_of(t, before)[k]);
                    } else if k > c {
                        assert(sh[k + n - 1] == labels_of(t, after)[k - c - 1]);
                    }
                }
            }
        },
        None => {},
    }
}


/// No value occurs twice.
pub open spec fn distinct<A>(x: Seq<A>) -> bool {
    forall|a: int, b: int| 0 <= a < b < x.len() ==> x[a] != x[b]
}

/// A position in blocks of `g` is a block number and an offset in the block.
pub proof fn lemma_split_index(k: int, g: int, n: int)
    requires
        0 <= k < n * g,
        g > 0,
    ensures
        0 <= k / g < n,
        0 <= k % g < g,
        k == (k / g) * g + k % g,
{
    lemma_fundamental_div_mod(k, g);
    lemma_mod_pos_bound(k, g);
    let q = k / g;
    let j = k % g;
    assert(k == q * g + j) by (nonlinear_arith)
        requires
            k == g * q + j,
    ;
    assert(0 <= q < n) by (nonlinear_arith)
        requires
            k == q * g + j,
            0 <= j < g,
            0 <= k < n * g,
            g > 0,
    ;
}

/// Within block `q`, the first-seen list gains the block's value at its first row only.
proof fn lemma_dedup_blocks_inner<A>(s: Seq<A>, x: Seq<A>, g: nat, q: nat, j: nat)
    requires
        g >= 1,
        s.len() == x.len() * g,
        forall|a: int, b: int| 0 <= a < x.len() && 0 <= b < g ==> #[trigger] s[a * g + b] == x[a],
        distinct(x),
        q < x.len(),
        j <= g,
        dedup(s.take((q * g) as int)) == x.take(q as int),
    ensures
        dedup(s.take((q * g + j) as int)) == x.take(if j == 0 {
            q as int
        } else {
            q + 1 as int
        }),
    decreases j,
{
    if j > 0 {
        lemma_dedup_blocks_inner(s, x, g, q, (j - 1) as nat);
        let k = q * g + j - 1;
        assert(k < s.len()) by (nonlinear_arith)
            requires
                k == q * g + j - 1,
                j <= g,
                q < x.len(),
                s.len() == x.len() * g,
        ;
        assert(s[q * g + (j - 1)] == x[q as int]);
        lemma_dedup_step(s, k);
        if j == 1 {
            assert(!x.take(q as int).contains(x[q as int])) by {
                if x.take(q as int).contains(x[q as int]) {
                    let a = choose|a: int| 0 <= a < q && x.take(q as int)[a] == x[q as int];
                    assert(x[a] != x[q as int]);
                }
            }
            assert(x.take(q as int).push(x[q as int]) =~= x.take(q + 1 as int));
        } else {
            assert(x.take(q + 1 as int)[q as int] == x[q as int]);
        }
    }
}

/// Blocks of `g` copies of distinct values: the first-seen list is the values themselves.
proof fn lemma_dedup_blocks<A>(s: Seq<A>, x: Seq<A>, g: nat, q: nat)
    requires
        g >= 1,
        s.len() == x.len() * g,
        forall|a: int, b: int| 0 <= a < x.len() && 0 <= b < g ==> #[trigger] s[a * g + b] == x[a],
        distinct(x),
        q <= x.len(),
    ensures
        dedup(s.take((q * g) as int)) == x.take(q as int),
    decreases q,
{
    if q == 0 {
        assert(q * g == 0) by (nonlinear_arith)
            requires
                q == 0,
        ;
        assert(s.take(0) =~= Seq::<A>::empty());
        assert(dedup(s.take(0)) =~= Seq::<A>::empty());
        assert(x.take(0) =~= Seq::<A>::empty());
    } else {
        let p = (q - 1) as nat;
        assert(x.take((p + 1) as int) == x.take(q as int));
        lemma_dedup_blocks(s, x, g, p);
        lemma_dedup_blocks_inner(s, x, g, p, g);
        assert(p * g + g == q * g) by (nonlinear_arith)
            requires
                p + 1 == q,
        ;
        assert(s.take((p * g + g) as int) == s.take((q * g) as int));
    }
}

/// Within later blocks, every value is already listed, so the first-seen list stays put.
proof fn lemma_dedup_repeated_inner<A>(s: Seq<A>, l: Seq<A>, n: nat, q: nat, j: nat)
    requires
        l.len() >= 1,
        s.len() == n * l.len(),
        forall|a: int, b: int| 0 <= a < n && 0 <= b < l.len() ==> #[trigger] s[a * l.len() + b] == l[b],
        distinct(l),
        q < n,
        j <= l.len(),
        q == 0 ==> dedup(s.take(0)) == Seq::<A>::empty(),
        q > 0 ==> dedup(s.take((q * l.len()) as int)) == l,
    ensures
        dedup(s.take((q * l.len() + j) as int)) == (if q == 0 {
            l.take(j as int)
        } else {
            l
        }),
    decreases j,
{
    let g = l.len();
    if j == 0 {
        if q == 0 {
            assert(l.take(0) =~= Seq::<A>::empty());
        }
    } else {
        lemma_dedup_repeated_inner(s, l, n, q, (j - 1) as nat);
        let k = q * g + j - 1;
        assert(k < s.len()) by (nonlinear_arith)
            requires
                k == q * g + j - 1,
                j <= g,
                q < n,
                s.len() == n * g,
        ;
        assert(s[q * g + (j - 1)] == l[j - 1]);
        lemma_dedup_step(s, k);
        if q == 0 {
            assert(!l.take(j - 1).contains(l[j - 1])) by {
                if l.take(j - 1).contains(l[j - 1]) {
                    let a = choose|a: int| 0 <= a < j - 1 && #[trigger] l.take(j - 1)[a] == l[j - 1];
                    assert(l[a] != l[j - 1]);
                }
            }
            assert(l.take(j - 1).push(l[j - 1]) =~= l.take(j as int));
        } else {
            assert(l[j - 1] == l[j - 1]);
        }
    }
}

/// Whole blocks of the same distinct values: the first-seen list is one block.
proof fn lemma_dedup_repeated<A>(s: Seq<A>, l: Seq<A>, n: nat, q: nat)
    requires
        l.len() >= 1,
        s.len() == n * l.len(),
        forall|a: int, b: int| 0 <= a < n && 0 <= b < l.len() ==> #[trigger] s[a * l.len() + b] == l[b],
        distinct(l),
        1 <= q <= n,
    ensures
        dedup(s.take((q * l.len()) as int)) == l,
    decreases q,
{
    let g = l.len();
    if q == 1 {
        assert(dedup(s.take(0)) == Seq::<A>::empty()) by {
            assert(s.take(0) =~= Seq::<A>::empty());
        }
        lemma_dedup_repeated_inner(s, l, n, 0, g);
        assert(l.take(g as int) =~= l);
    } else {
        let p = (q - 1) as nat;
        lemma_dedup_repeated(s, l, n, p);
        lemma_dedup_repeated_inner(s, l, n, p, g);
        assert(p * g + g == q * g) by (nonlinear_arith)
            requires
                p + 1 == q,
        ;
        assert(s.take((p * g + g) as int) == s.take((q * g) as int));
    }
}

/// Dropping columns `i` and `i + 1` from `0..w` leaves `0..i` (for `w` up to `i + 2`).
proof fn lemma_complement_tail(w: nat, i: nat)
    requires
        w <= i + 2,
        i + 1 <= usize::MAX,
    ensures
        complement(w, seq![i as usize, (i + 1) as usize]) == upto(0, if w <= i {
            w
        } else {
            i
        }),
    decreases w,
{
    let two = seq![i as usize, (i + 1) as usize];
    if w == 0 {
        assert(upto(0, 0) =~= Seq::<usize>::empty());
    } else {
        lemma_complement_tail((w - 1) as nat, i);
        let c = (w - 1) as usize;
        if w - 1 < i {
            assert(!two.contains(c)) by {
                if two.contains(c) {
                    let k = choose|k: int| 0 <= k < 2 && two[k] == c;
                }
            }
            assert(upto(0, w) =~= upto(0, (w - 1) as nat).push(c));
        } else {
            assert(two.contains(c)) by {
                if c == i as usize {
                    assert(two[0] == c);
                } else {
                    assert(two[1] == c);
                }
            }
        }
    }
}

/// Pivoting an unpivoted table on its key and value columns restores the gathered columns: the
/// identifier columns first, then the gathered ones in the order they were gathered, every cell
/// in place. It holds when the table has rows, the gathered columns have distinct labels, and no
/// two rows share their identifier cells (otherwise the pivot would rightly refuse a
/// collision).
pub proof fn law_pivot_undoes_unpivot(t: TableView, g: Seq<usize>, key: Seq<char>, value: Seq<char>)
    requires
        t.nrows() >= 1,
        g.len() >= 1,
        distinct(labels_of(t, g)),
        distinct(id_tuples(t, complement(t.width(), g))),
        complement(t.width(), g).len() + 2 <= usize::MAX,
    ensures
        ({
            let ids = complement(t.width(), g);
            let u = unpivot_table(t, g, key, value);
            let ni = ids.len() as int;
            &&& !pivot_collides(u, ni, ni + 1)
            &&& pivot_table(u, ni, ni + 1) == TableView {
                header: Some(labels_of(t, ids) + labels_of(t, g)),
                rows: Seq::new(t.nrows(), |r: int| cells_of(t, r, ids) + cells_of(t, r, g)),
                delim: t.delim,
            }
        }),
{
    let ids = complement(t.width(), g);
    let u = unpivot_table(t, g, key, value);
    let i = ids.len();
    let gl = g.len();
    let nr = t.nrows();
    let x = id_tuples(t, ids);
    let l = labels_of(t, g);
    let blocks = Seq::new(nr, |r: int| unpivot_block(t, ids, g, r));
    lemma_flatten_uniform(blocks, gl);
    // The unpivoted table: nr * gl rows of width i + 2, header included.
    assert(u.rows.len() == nr * gl);
    assert(nr * gl >= 1) by (nonlinear_arith)
        requires
            nr >= 1,
            gl >= 1,
    ;
    assert forall|k: int| 0 <= k < u.rows.len() implies #[trigger] u.rows[k].len() == i + 2 by {
        lemma_split_index(k, gl as int, nr as int);
        assert(u.rows[(k / gl as int) * gl + k % gl as int] == blocks[k / gl as int][k % gl as int]);
    }
    lemma_max_len_uniform(u.rows, i + 2);
    assert(u.width() == i + 2);
    lemma_complement_tail(i + 2, i);
    let ids2 = complement(u.width(), seq![i as usize, (i + 1) as usize]);
    assert(ids2 == upto(0, i));
    let tuples = id_tuples(u, ids2);
    let names = column_cells(u, i as int);
    let values = column_cells(u, i + 1 as int);
    // Row r * gl + j of the unpivoted table, seen through the pivot's eyes.
    assert forall|r: int, j: int| 0 <= r < nr && 0 <= j < gl implies {
        &&& #[trigger] tuples[r * gl + j] == x[r]
        &&& names[r * gl + j] == l[j]
        &&& values[r * gl + j] == t.cell(r, g[j] as int)
    } by {
        let k = r * gl + j;
        assert(0 <= k < nr * gl) by (nonlinear_arith)
            requires
                k == r * gl + j,
                0 <= r < nr,
                0 <= j < gl,
        ;
        assert(u.rows[k] == blocks[r][j]);
        assert(tuples[k] =~= x[r]);
    }
    assert forall|a: int, b: int| 0 <= a < nr && 0 <= b < gl implies #[trigger] names[a * gl + b] == l[b] by {
        assert(tuples[a * gl + b] == x[a]);
    }
    assert forall|a: int, b: int| 0 <= a < nr && 0 <= b < gl implies #[trigger] tuples[a * gl + b] == x[a] by {}
    assert(tuples.len() == nr * gl);
    lemma_dedup_blocks(tuples, x, gl, nr);
    assert(tuples.take((nr * gl) as int) =~= tuples);
    assert(dedup(tuples) == x) by {
        assert(x.take(nr as int) =~= x);
    }
    lemma_dedup_repeated(names, l, nr, nr);
    assert(names.take((nr * gl) as int) =~= names);
    // Any row of the unpivoted table is some input row's entry for some gathered column.
    assert forall|k: int| 0 <= k < nr * gl implies {
        &&& #[trigger] tuples[k] == x[k / gl as int]
        &&& names[k] == l[k % gl as int]
        &&& values[k] == t.cell(k / gl as int, g[k % gl as int] as int)
    } by {
        lemma_split_index(k, gl as int, nr as int);
    }
    // No collision: equal identifiers mean one input row, equal names one gathered column.
    assert(!collides(tuples, names)) by {
        if collides(tuples, names) {
            let (k1, k2) = choose|k1: int, k2: int| 0 <= k1 < k2 < tuples.len() && #[trigger] tuples[k1]
                == #[trigger] tuples[k2] && names[k1] == names[k2];
            lemma_split_index(k1, gl as int, nr as int);
            lemma_split_index(k2, gl as int, nr as int);
            let (r1, j1) = (k1 / gl as int, k1 % gl as int);
            let (r2, j2) = (k2 / gl as int, k2 % gl as int);
            if r1 != r2 {
                if r1 < r2 {
                    assert(x[r1] != x[r2]);
                } else {
                    assert(x[r2] != x[r1]);
                }
            } else if j1 != j2 {
                if j1 < j2 {
                    assert(l[j1] != l[j2]);
                } else {
                    assert(l[j2] != l[j1]);
                }
            }
        }
    }
    let p = pivot_table(u, i as int, i + 1 as int);
    // The header: the identifier labels come back from the unpivoted header.
    assert(labels_of(u, ids2) =~= labels_of(t, ids));
    // Each row: the identifier cells, then each gathered column's cell.
    assert forall|r: int| 0 <= r < nr implies #[trigger] p.rows[r] =~= cells_of(t, r, ids) + cells_of(t, r, g) by {
        assert(p.rows[r] == pivot_row(tuples, names, values, x[r], l));
        assert forall|j: int| 0 <= j < gl implies lookup(tuples, names, values, x[r], l[j]) == t.cell(r, g[j] as int) by {
            let k = r * gl + j;
            assert(carries(tuples, names, x[r], l[j], k)) by {
                assert(0 <= k < nr * gl) by (nonlinear_arith)
                    requires
                        k == r * gl + j,
                        0 <= r < nr,
                        0 <= j < gl,
                ;
            }
            let k0 = choose|k: int| carries(tuples, names, x[r], l[j], k);
            assert(carries(tuples, names, x[r], l[j], k0));
            lemma_split_index(k0, gl as int, nr as int);
            let (r0, j0) = (k0 / gl as int, k0 % gl as int);
            if r0 != r {
                if r0 < r {
                    assert(x[r0] != x[r]);
                } else {
                    assert(x[r] != x[r0]);
                }
            }
            if j0 != j {
                if j0 < j {
                    assert(l[j0] != l[j]);
                } else {
                    assert(l[j] != l[j0]);
                }
            }
        }
    }
    assert(p.rows =~= Seq::new(t.nrows(), |r: int| cells_of(t, r, ids) + cells_of(t, r, g)));
}

/// A stamped skill reads back the version it was stamped with (an empty version included).
/// The version holds no white space and does not end in `.`, and no line of the frontmatter above the stamp already starts the way
/// a stamp does (else that line is read first).
pub proof fn law_stamp_reads_back(body: Seq<char>, version: Seq<char>)
    requires
        forall|k: int| 0 <= k < version.len() ==> !is_space(#[trigger] version[k]),
        version.len() == 0 || version.last() != '.',
        frontmatter_end(body) matches Some(e) ==> stamped_rest(text_lines(body.take(e)), 0) is None,
    ensures
        spec_stamped_version(spec_stamp(body, version)) == Some(version),
{
    let p = stamp_prefix();
    let r = ". If `xshape -V` reports a different\n> version, the skill is stale \u{2014} run `xshape --install-skill` to refresh it.\n"@;
    reveal_strlit("> This skill documents xshape ");
    reveal_strlit(
        ". If `xshape -V` reports a different\n> version, the skill is stale \u{2014} run `xshape --install-skill` to refresh it.\n",
    );
    assert(p.len() == 30);
    assert(r[35] == 't' && r[36] == '\n' && r[0] == '.' && r[1] == ' ');
    assert(no_break(p, 0, 30)) by {
        reveal_with_fuel(no_break, 31);
    }
    assert(no_break(r, 0, 36)) by {
        reveal_with_fuel(no_break, 37);
    }
    lemma_no_break(p, 0, 30);
    lemma_no_break(r, 0, 36);
    let r1 = r.take(36);
    let tail = r.skip(37);
    let line1 = p + version + r1;
    assert forall|k: int| 0 <= k < line1.len() implies line1[k] != '\n' by {
        if k < 30 {
        } else if k < 30 + version.len() {
            assert(line1[k] == version[k - 30]);
        } else {
            assert(line1[k] == r[k - 30 - version.len()]);
        }
    }
    assert(line1.last() == 't');
    assert(stamp_note(version) =~= line1 + seq!['\n'] + tail);
    let s = spec_stamp(body, version);
    let lines = text_lines(s);
    match frontmatter_end(body) {
        None => {
            let rest = tail + seq!['\n'] + body;
            assert(s =~= line1 + seq!['\n'] + rest);
            lemma_text_lines_first(line1, rest);
            assert(lines =~= seq![line1] + text_lines(rest));
            assert(lines[0] == line1);
            assert(line1.take(30) =~= p);
        },
        Some(e) => {
            let j = find_from(body, closing_fence(), 4).unwrap();
            lemma_find_from(body, closing_fence(), 4);
            assert(body.subrange(j, j + 5) == closing_fence());
            assert(body.subrange(j, j + 5)[4] == '\n');
            let front = body.take(e);
            assert(front.last() == '\n');
            let rest = tail + body.skip(e);
            let z = line1 + seq!['\n'] + rest;
            let x = Seq::<char>::empty() + seq!['\n'] + z;
            assert(s =~= front + x);
            lemma_text_lines_concat(front, x);
            lemma_text_lines_first(Seq::<char>::empty(), z);
            lemma_text_lines_first(line1, rest);
            let after = seq![Seq::<char>::empty()] + (seq![line1] + text_lines(rest));
            assert(lines =~= text_lines(front) + after);
            lemma_stamped_rest_concat(text_lines(front), after, 0);
            assert(after[0].len() == 0);
            assert(after[1] == line1);
            assert(line1.take(30) =~= p);
            assert(stamped_rest(after, 0) == stamped_rest(after, 1));
        },
    }
    assert(line1.skip(30) =~= version + r1);
    assert(stamped_rest(lines, 0) == Some(version + r1));
    let w = version + r1;
    assert(w[version.len() + 1int] == ' ');
    assert(is_space(' '));
    assert(!is_space('.'));
    assert(w[version.len() as int] == '.');
    assert forall|k: int| 0 <= k < version.len() + 1 implies !is_space(#[trigger] w[k]) by {
        if k < version.len() {
            assert(w[k] == version[k]);
        }
    }
    assert(!is_space(w[0]));
    assert(skip_space(w, 0) == 0);
    lemma_word_end(w, 0, version.len() + 1int);
    let word = w.subrange(0, version.len() + 1int);
    assert(first_word(w) == Some(word));
    assert(word.drop_last() =~= version);
    assert(trim_dots(word) == trim_dots(version));
}

/// A text in which no line starts the way a stamp does reads back as no version.
pub proof fn law_unstamped_reads_no_version(body: Seq<char>)
    requires
        forall|i: int|
            0 <= i < text_lines(body).len() ==> !(#[trigger] text_lines(body)[i].len() >= stamp_prefix().len()
                && text_lines(body)[i].take(stamp_prefix().len() as int) == stamp_prefix()),
    ensures
        spec_stamped_version(body) is None,
{
    lemma_no_stamp_line(text_lines(body), 0);
}

/// With no stamp line from `i` on, the search finds nothing.
proof fn lemma_no_stamp_line(lines: Seq<Seq<char>>, i: int)
    requires
        0 <= i,
        forall|k: int|
            0 <= k < lines.len() ==> !(#[trigger] lines[k].len() >= stamp_prefix().len() && lines[k].take(
                stamp_prefix().len() as int,
            ) == stamp_prefix()),
    ensures
        stamped_rest(lines, i) is None,
    decreases lines.len() - i,
{
    if i < lines.len() {
        lemma_no_stamp_line(lines, i + 1);
    }
}

/// Installing again over a skill whose every file already holds the text an install would
/// write, and that is not a symbolic link, reports "already current" and writes nothing.
pub proof fn law_reinstall_writes_nothing(files: Seq<(String, String)>, on_disk: Seq<Option<String>>)
    requires
        on_disk.len() == files.len(),
        forall|i: int| 0 <= i < files.len() ==> (#[trigger] on_disk[i] matches Some(t) && t@ == files[i].1@),
    ensures
        skill_current(files, on_disk),
        spec_before_write(None, skill_current(files, on_disk)) == Some(OutcomeView::AlreadyCurrent),
{
}

/// Splitting a text at every comma gives one piece more than it has commas.
pub proof fn law_list_pieces_count_commas(s: Seq<char>)
    ensures
        split_on(s, seq![',']).len() == count_char(s, ',', 0) + 1,
{
    lemma_split_count(s, ',', 0, 0);
}

/// How many times `c` occurs in `s` from position `i` on.
pub open spec fn count_char(s: Seq<char>, c: char, i: int) -> nat
    decreases s.len() - i,
{
    if i < 0 || i >= s.len() {
        0
    } else if s[i] == c {
        1 + count_char(s, c, i + 1)
    } else {
        count_char(s, c, i + 1)
    }
}

/// Scanning for a one-character separator from `i` cuts one piece more than the separators left.
proof fn lemma_split_count(s: Seq<char>, c: char, start: int, i: int)
    requires
        0 <= start <= i <= s.len(),
    ensures
        split_from(s, seq![c], start, i).len() == count_char(s, c, i) + 1,
    decreases s.len() - i,
{
    let sep = seq![c];
    if i + 1 > s.len() {
    } else {
        assert(s.subrange(i, i + 1) =~= seq![s[i]]);
        if occurs_at(s, sep, i) {
            assert(s.subrange(i, i + 1)[0] == c);
            lemma_split_count(s, c, i + 1, i + 1);
        } else {
            assert(s[i] != c);
            lemma_split_count(s, c, start, i + 1);
        }
    }
}

} // verus!
