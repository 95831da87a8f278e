//! Column addressing: the shared dialect of letters (`C`, `AF`), bracketed header names
//! (`[first name]`, `]]` for a literal `]`), inclusive ranges in either direction (`A:D`),
//! open-ended ranges (`B:`, `:C`) and comma lists.
//!
//! The grammar and its resolution are `xaddr`'s. This module answers `xaddr`'s questions about
//! a table and adds the tool's policies: resolution is column-only and strict, so a row, a cell
//! or a column past the table's edge is an error rather than quietly dropped; and a
//! single-column flag takes exactly one atom.
use crate::errors::{view_result, Fault, Result, XshapeError};
use crate::model::{Table, TableView};
use crate::text::{debug_quoted, debug_text, decimal, usize_text};
use vstd::prelude::*;
use vstd::string::*;
use xaddr::ColRef::{Letters as XLetters, Name as XName};
use xaddr::Item::{Range as XRange, Single as XSingle};
use xaddr::Pos::{Cell as XCell, Column as XColumn, LastRow as XLastRow, Row as XRow};
use xaddr::{ColRef as XCol, Pos as XPos};
use AddrItem::{Range, Single};
use AddrPos::{Cell, Column, LastRow, Row};
use ColumnRef::{Letters, Name};

verus! {

/// How an address names a column: by letters (already the 0-based index) or by header name.
#[derive(Debug)]
pub enum ColumnRef {
    Letters(usize),
    Name(String),
}

/// One address atom and the axes it pins.
#[derive(Debug)]
pub enum AddrPos {
    /// A whole column.
    Column(ColumnRef),
    /// A whole row, 0-based.
    Row(usize),
    /// The last row.
    LastRow,
    /// A single cell: its column and 0-based row.
    Cell(ColumnRef, usize),
}

/// One comma-separated element of an address.
#[derive(Debug)]
pub enum AddrItem {
    Single(AddrPos),
    /// An inclusive range; an absent end runs to the table's edge.
    Range(Option<AddrPos>, Option<AddrPos>),
}

/// What `xaddr::parse` makes of an address: its items in order, or the message of its
/// syntax error.
pub uninterp spec fn parsed_address(spec: Seq<char>) -> core::result::Result<Seq<AddrItem>, Seq<char>>;

/// `xaddr::parse`, with the parsed items carried over one for one into this crate's types.
#[verifier::external_body]
fn parse_address(spec: &str) -> (res: core::result::Result<Vec<AddrItem>, String>)
    ensures
        match res {
            Ok(items) => parsed_address(spec@) == Ok::<Seq<AddrItem>, Seq<char>>(items@),
            Err(m) => parsed_address(spec@) == Err::<Seq<AddrItem>, Seq<char>>(m@),
        },
{
    let col = |c: &XCol| match c { XLetters(i) => Letters(*i), XName(n) => Name(n.clone()) };
    let pos = |p: &XPos| match p {
        XColumn(c) => Column(col(c)),
        XRow(r) => Row(*r),
        XLastRow => LastRow,
        XCell { col: c, row } => Cell(col(c), *row),
    };
    xaddr::parse(spec).map_err(|e| e.message).map(|s| s.items().iter().map(|it| match it {
        XSingle(p) => Single(pos(p)),
        XRange { start, end } => Range(start.as_ref().map(pos), end.as_ref().map(pos)),
    }).collect())
}

/// What the table tells `xaddr` about itself: its size and its header.
impl xaddr::Grid for Table {
    fn nrows(&self) -> usize {
        Table::nrows(self)
    }

    fn ncols(&self) -> usize {
        Table::ncols(self)
    }

    fn header(&self) -> Option<&[String]> {
        match &self.header {
            Some(h) => Some(h.as_slice()),
            None => None,
        }
    }
}

/// The column a position names when it is a plain column reference: letters give their
/// 0-based index, a bracketed name the first header position holding it.
pub open spec fn atom_column(p: AddrPos, t: TableView) -> Option<int> {
    match p {
        AddrPos::Column(ColumnRef::Letters(i)) => Some(i as int),
        AddrPos::Column(ColumnRef::Name(n)) => t.name_index(n@),
        _ => None,
    }
}

/// The columns `lo..=hi`, left to right.
pub open spec fn span(lo: int, hi: int) -> Seq<usize> {
    Seq::new((hi - lo + 1) as nat, |k: int| (lo + k) as usize)
}

/// The columns one item names when it resolves inside the table: a single column reference
/// its column; a range every column between its two ends, in either order, inclusive and
/// ascending, an absent end running to the table's first or last column.
pub open spec fn item_columns(item: AddrItem, t: TableView) -> Option<Seq<usize>> {
    let w = t.width();
    match item {
        AddrItem::Single(p) => match atom_column(p, t) {
            Some(c) => if c < w {
                Some(seq![c as usize])
            } else {
                None
            },
            None => None,
        },
        AddrItem::Range(s, e) => {
            let lo = match s {
                Some(p) => atom_column(p, t),
                None => Some(0int),
            };
            let hi = match e {
                Some(p) => atom_column(p, t),
                None => Some(w - 1),
            };
            match (lo, hi) {
                (Some(a), Some(b)) => {
                    let l = if a <= b { a } else { b };
                    let h = if a <= b { b } else { a };
                    if w > 0 && h < w {
                        Some(span(l, h))
                    } else {
                        None
                    }
                },
                _ => None,
            }
        },
    }
}

/// The columns a list of items names: each item's columns in turn, when every item resolves
/// inside the table.
pub open spec fn items_columns(items: Seq<AddrItem>, t: TableView) -> Option<Seq<usize>>
    decreases items.len(),
{
    if items.len() == 0 {
        Some(seq![])
    } else {
        match (items_columns(items.drop_last(), t), item_columns(items.last(), t)) {
            (Some(a), Some(b)) => Some(a + b),
            _ => None,
        }
    }
}

/// What `xaddr` resolves an address to against a table, with strict bounds: the columns in
/// order with repeats, or the message of the first parse or lookup error.
pub uninterp spec fn address_columns(spec: Seq<char>, t: TableView) -> core::result::Result<Seq<usize>, Seq<char>>;

/// `xaddr::parse` and then `Spec::columns` with `Bounds::Strict`, against the table's `Grid`
/// answers; an error as its message. Strict bounds refuse any column at or past the table's
/// width, so every column returned lies inside the table. For an address of column
/// references and ranges that all land inside the table, `Spec::columns` gives each item's
/// columns in turn (`items_columns`): a range every column between its ends, ascending
/// (`span_ends`, `ordered`, then `lo..=hi`), a name its first header position
/// (`Grid::name_to_col`).
#[verifier::external_body]
fn resolve_address(spec: &str, table: &Table) -> (res: core::result::Result<Vec<usize>, String>)
    ensures
        match res {
            Ok(cs) => address_columns(spec@, table@) == Ok::<Seq<usize>, Seq<char>>(cs@) && (parsed_address(
                spec@,
            ) matches Ok(items) ==> (items_columns(items, table@) matches Some(want) ==> cs@ == want)),
            Err(m) => address_columns(spec@, table@) == Err::<Seq<usize>, Seq<char>>(m@) && (parsed_address(
                spec@,
            ) matches Ok(items) ==> items_columns(items, table@) is None),
        },
        res matches Ok(cs) ==> forall|k: int| 0 <= k < cs@.len() ==> #[trigger] cs@[k] < table@.width(),
{
    xaddr::parse(spec).and_then(|s| s.columns(table, xaddr::Bounds::Strict)).map_err(|e| e.message)
}

/// What a column spec resolves to against a table; a failure is an address error.
pub open spec fn spec_cols(spec: Seq<char>, t: TableView) -> core::result::Result<Seq<usize>, Fault> {
    match address_columns(spec, t) {
        Err(m) => Err(Fault::Address(m)),
        Ok(cs) => Ok(cs),
    }
}

/// The spec is one atom: it parses to a single item that is not a range.
pub open spec fn single_atom(spec: Seq<char>) -> bool {
    parsed_address(spec) matches Ok(items) && items.len() == 1 && items[0] is Single
}

/// The message for a single-column flag given more or fewer than one column.
pub open spec fn single_message(n: nat, spec: Seq<char>) -> Seq<char> {
    "expected a single column, got "@ + decimal(n) + " from "@ + debug_text(spec)
}

/// The message for a single-column flag given a range that spans one column.
pub open spec fn range_message(spec: Seq<char>) -> Seq<char> {
    "expected a single column, got the range "@ + debug_text(spec)
}

/// What a single-column spec resolves to: the one column a single atom names. A spec that
/// resolves to more or fewer columns is refused with the count; a range or list is refused
/// even when it spans exactly one column.
pub open spec fn spec_one_col(spec: Seq<char>, t: TableView) -> core::result::Result<usize, Fault> {
    match spec_cols(spec, t) {
        Err(f) => Err(f),
        Ok(cs) => if cs.len() != 1 {
            Err(Fault::Address(single_message(cs.len(), spec)))
        } else if !single_atom(spec) {
            Err(Fault::Address(range_message(spec)))
        } else {
            Ok(cs[0])
        },
    }
}

/// Resolve a column spec to an ordered list of 0-based column indices.
///
/// Order is preserved and duplicates are kept; names require a header, letters do not; every
/// returned index lies inside the table.
pub fn cols(spec: &str, table: &Table) -> (res: Result<Vec<usize>>)
    ensures
        view_result(res) == spec_cols(spec@, table@),
        parsed_address(spec@) matches Ok(items) ==> (items_columns(items, table@) matches Some(want) ==> (
        res matches Ok(cs) && cs@ == want)),
        res matches Ok(cs) ==> forall|k: int| 0 <= k < cs@.len() ==> #[trigger] cs@[k] < table@.width(),
{
    match resolve_address(spec, table) {
        Err(m) => Err(XshapeError::Address(m)),
        Ok(cs) => Ok(cs),
    }
}

/// Whether a spec is one atom (a single column reference, not a range or a list).
fn is_single_atom(spec: &str) -> (res: bool)
    ensures
        res == single_atom(spec@),
{
    match parse_address(spec) {
        Err(_) => false,
        Ok(items) => items.len() == 1 && match &items[0] {
            AddrItem::Single(_) => true,
            AddrItem::Range(_, _) => false,
        },
    }
}

/// Resolve exactly one column from a spec that names a single atom, rejecting lists and
/// ranges, even a range that spans one column.
pub fn one_col(spec: &str, table: &Table) -> (res: Result<usize>)
    ensures
        view_result(res) == spec_one_col(spec@, table@),
        res matches Ok(c) ==> c < table@.width(),
{
    let cs = cols(spec, table)?;
    if cs.len() != 1 {
        let mut m = String::from_str("expected a single column, got ");
        m.append(usize_text(cs.len()).as_str());
        m.append(" from ");
        m.append(debug_quoted(spec).as_str());
        return Err(XshapeError::Address(m));
    }
    if !is_single_atom(spec) {
        let mut m = String::from_str("expected a single column, got the range ");
        m.append(debug_quoted(spec).as_str());
        return Err(XshapeError::Address(m));
    }
    Ok(cs[0])
}

/// A range between two column letters inside the table names every column from the smaller
/// to the larger, inclusive and ascending, whichever end is written first.
pub proof fn law_range_spans_its_ends(t: TableView, a: usize, b: usize)
    requires
        a < t.width(),
        b < t.width(),
    ensures
        ({
            let r = AddrItem::Range(
                Some(AddrPos::Column(ColumnRef::Letters(a))),
                Some(AddrPos::Column(ColumnRef::Letters(b))),
            );
            let lo = if a <= b { a as int } else { b as int };
            let hi = if a <= b { b as int } else { a as int };
            &&& items_columns(seq![r], t) matches Some(cs)
            &&& items_columns(seq![r], t)->Some_0.len() == hi - lo + 1
            &&& forall|k: int| 0 <= k <= hi - lo ==> #[trigger] items_columns(seq![r], t)->Some_0[k] == lo + k
        }),
{
    let r = AddrItem::Range(
        Some(AddrPos::Column(ColumnRef::Letters(a))),
        Some(AddrPos::Column(ColumnRef::Letters(b))),
    );
    assert(seq![r].drop_last() =~= Seq::<AddrItem>::empty());
    assert(items_columns(Seq::<AddrItem>::empty(), t) == Some(Seq::<usize>::empty()));
    let cs = item_columns(r, t)->Some_0;
    assert(Seq::<usize>::empty() + cs =~= cs);
}

/// A list names the columns of its first part followed by those of the rest, when each part
/// resolves inside the table.
pub proof fn law_list_concatenates(xs: Seq<AddrItem>, ys: Seq<AddrItem>, t: TableView)
    requires
        items_columns(xs, t) is Some,
        items_columns(ys, t) is Some,
    ensures
        items_columns(xs + ys, t) == Some(items_columns(xs, t)->Some_0 + items_columns(ys, t)->Some_0),
    decreases ys.len(),
{
    if ys.len() == 0 {
        assert(xs + ys =~= xs);
        assert(items_columns(xs, t)->Some_0 + Seq::<usize>::empty() =~= items_columns(xs, t)->Some_0);
    } else {
        let init = ys.drop_last();
        assert((xs + ys).drop_last() =~= xs + init);
        assert((xs + ys).last() == ys.last());
        law_list_concatenates(xs, init, t);
        let a = items_columns(xs, t)->Some_0;
        let b = items_columns(init, t)->Some_0;
        let c = item_columns(ys.last(), t)->Some_0;
        assert(a + b + c =~= a + (b + c));
    }
}

} // verus!
