//! The table: the in-memory grid that the verbs reshape.
//!
//! Stringly typed, so leading zeros and long identifiers survive a reshape untouched. The
//! header is an overlay kept apart from the data rows, `None` when the file has none. Rows may
//! be ragged: a missing cell reads as "".
use crate::text::{col_letters, col_to_letter};
use vstd::prelude::*;
use vstd::string::*;

verus! {

/// A single table of text cells.
#[derive(Clone, Debug)]
pub struct Table {
    /// Column-name overlay; `None` when the file has no header row.
    pub header: Option<Vec<String>>,
    /// Data rows only (the header, if any, lives in `header`).
    pub rows: Vec<Vec<String>>,
    /// Field delimiter (`,` for CSV, tab for TSV).
    pub delim: u8,
}

/// The mathematical picture of a table.
pub struct TableView {
    pub header: Option<Seq<Seq<char>>>,
    pub rows: Seq<Seq<Seq<char>>>,
    pub delim: u8,
}

impl View for Table {
    type V = TableView;

    open spec fn view(&self) -> TableView {
        TableView {
            header: match self.header {
                Some(h) => Some(h.deep_view()),
                None => None,
            },
            rows: self.rows.deep_view(),
            delim: self.delim,
        }
    }
}

/// The length of the longest row.
pub open spec fn max_len(rows: Seq<Seq<Seq<char>>>) -> nat
    decreases rows.len(),
{
    if rows.len() == 0 {
        0
    } else {
        let m = max_len(rows.drop_last());
        if rows.last().len() > m {
            rows.last().len()
        } else {
            m
        }
    }
}

/// The first position of `name` in `h` at or after `i`.
pub open spec fn index_from(h: Seq<Seq<char>>, name: Seq<char>, i: int) -> Option<int>
    decreases h.len() - i,
{
    if i < 0 || i >= h.len() {
        None
    } else if h[i] == name {
        Some(i)
    } else {
        index_from(h, name, i + 1)
    }
}

impl TableView {
    /// Number of data rows.
    pub open spec fn nrows(self) -> nat {
        self.rows.len()
    }

    /// Logical width: the widest of the header and any data row.
    pub open spec fn width(self) -> nat {
        let h = match self.header {
            Some(h) => h.len(),
            None => 0,
        };
        let r = max_len(self.rows);
        if h > r {
            h
        } else {
            r
        }
    }

    /// The cell at 0-based `(r, c)`; "" where the row is short or absent.
    pub open spec fn cell(self, r: int, c: int) -> Seq<char> {
        if 0 <= r < self.rows.len() && 0 <= c < self.rows[r].len() {
            self.rows[r][c]
        } else {
            Seq::empty()
        }
    }

    /// The header label of a column, if the header has one.
    pub open spec fn name(self, c: int) -> Option<Seq<char>> {
        match self.header {
            Some(h) => if 0 <= c < h.len() {
                Some(h[c])
            } else {
                None
            },
            None => None,
        }
    }

    /// The label shown for a column: its header name, or its letters without one.
    pub open spec fn label(self, c: int) -> Seq<char> {
        match self.name(c) {
            Some(n) => n,
            None => col_letters(c as nat),
        }
    }

    /// The first column whose header name is exactly `name`.
    pub open spec fn name_index(self, name: Seq<char>) -> Option<int> {
        match self.header {
            Some(h) => index_from(h, name, 0),
            None => None,
        }
    }
}

/// `index_from` only ever answers with a matching position in range.
pub proof fn lemma_index_from(h: Seq<Seq<char>>, name: Seq<char>, i: int)
    requires
        0 <= i,
    ensures
        index_from(h, name, i) matches Some(k) ==> i <= k < h.len() && h[k] == name,
        index_from(h, name, i) is None ==> forall|k: int| i <= k < h.len() ==> h[k] != name,
    decreases h.len() - i,
{
    if i < 0 || i >= h.len() {
    } else if h[i] == name {
    } else {
        lemma_index_from(h, name, i + 1);
    }
}

/// Every row is no longer than `max_len`, and some row reaches it when there are rows.
pub proof fn lemma_max_len(rows: Seq<Seq<Seq<char>>>)
    ensures
        forall|r: int| 0 <= r < rows.len() ==> #[trigger] rows[r].len() <= max_len(rows),
        rows.len() == 0 ==> max_len(rows) == 0,
    decreases rows.len(),
{
    if rows.len() > 0 {
        lemma_max_len(rows.drop_last());
        assert forall|r: int| 0 <= r < rows.len() implies #[trigger] rows[r].len() <= max_len(
            rows,
        ) by {
            if r < rows.len() - 1 {
                assert(rows[r] == rows.drop_last()[r]);
            }
        }
    }
}

impl Table {
    /// Number of data rows.
    pub fn nrows(&self) -> (n: usize)
        ensures
            n == self@.nrows(),
    {
        self.rows.len()
    }

    /// Logical width: the widest of the header and any data row.
    pub fn ncols(&self) -> (n: usize)
        ensures
            n == self@.width(),
    {
        let h = match &self.header {
            Some(h) => h.len(),
            None => 0,
        };
        let mut m: usize = 0;
        let n = self.rows.len();
        let mut i: usize = 0;
        while i < n
            invariant
                i <= n,
                n == self.rows@.len(),
                m == max_len(self@.rows.take(i as int)),
            decreases n - i,
        {
            assert(self@.rows.take(i + 1).drop_last() =~= self@.rows.take(i as int));
            let len = self.rows[i].len();
            if len > m {
                m = len;
            }
            i = i + 1;
        }
        assert(self@.rows.take(n as int) =~= self@.rows);
        if h > m {
            h
        } else {
            m
        }
    }

    /// Cell value at 0-based `(r, c)`; "" if the row is short or absent (ragged).
    pub fn cell(&self, r: usize, c: usize) -> (res: &str)
        ensures
            res@ == self@.cell(r as int, c as int),
    {
        if r < self.rows.len() && c < self.rows[r].len() {
            self.rows[r][c].as_str()
        } else {
            proof {
                reveal_strlit("");
            }
            ""
        }
    }

    /// An owned copy of the cell at 0-based `(r, c)`.
    pub fn cell_text(&self, r: usize, c: usize) -> (res: String)
        ensures
            res@ == self@.cell(r as int, c as int),
    {
        String::from_str(self.cell(r, c))
    }

    /// The header label for a column, if a header overlay exists and reaches it.
    pub fn col_name(&self, c: usize) -> (res: Option<&str>)
        ensures
            match res {
                Some(s) => self@.name(c as int) == Some(s@),
                None => self@.name(c as int) is None,
            },
    {
        match &self.header {
            Some(h) => if c < h.len() {
                Some(h[c].as_str())
            } else {
                None
            },
            None => None,
        }
    }

    /// The label to show for a column: its header name, or its letters when there is none.
    pub fn col_label(&self, c: usize) -> (res: String)
        ensures
            res@ == self@.label(c as int),
    {
        match self.col_name(c) {
            Some(n) => String::from_str(n),
            None => col_to_letter(c),
        }
    }

    /// Resolve a bracketed column name to its index: exact and case-sensitive, first match.
    pub fn name_to_col(&self, name: &str) -> (res: Option<usize>)
        ensures
            match res {
                Some(k) => self@.name_index(name@) == Some(k as int),
                None => self@.name_index(name@) is None,
            },
    {
        match &self.header {
            None => None,
            Some(h) => {
                let target = String::from_str(name);
                let n = h.len();
                let mut i: usize = 0;
                while i < n
                    invariant
                        i <= n,
                        n == h@.len(),
                        target@ == name@,
                        self@.header == Some(h.deep_view()),
                        index_from(h.deep_view(), name@, 0) == index_from(
                            h.deep_view(),
                            name@,
                            i as int,
                        ),
                    decreases n - i,
                {
                    assert(h.deep_view()[i as int] == h@[i as int]@);
                    if h[i] == target {
                        return Some(i);
                    }
                    i = i + 1;
                }
                None
            },
        }
    }
}

} // verus!
