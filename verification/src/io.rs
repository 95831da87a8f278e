//! Reading and writing delimited text. Tolerant on input (ragged rows, flexible widths); the
//! `csv` crate handles quoting and embedded newlines. Values stay strings, so leading zeros and
//! long identifiers survive a reshape untouched.
use crate::cli::opt_view;
use crate::errors::{view_result, Fault, Result, XshapeError};
use crate::model::{Table, TableView};
use crate::text::{join, chars_of, debug_char, debug_quoted, debug_quoted_char, debug_text};
use vstd::prelude::*;
use vstd::string::*;

verus! {

/// What the `csv` reader (no header handling, flexible widths) makes of `data` with the given
/// delimiter: every record's fields in order, or the message of the first error.
pub uninterp spec fn csv_records(data: Seq<char>, delim: u8) -> core::result::Result<Seq<Seq<Seq<char>>>, Seq<char>>;

/// What the `csv` writer (flexible widths) makes of the records with the given delimiter: the
/// text, or the message of the failure.
pub uninterp spec fn csv_text(records: Seq<Seq<Seq<char>>>, delim: u8) -> core::result::Result<Seq<char>, Seq<char>>;

/// Text with no quoting to undo: each record's fields joined by the delimiter, the records
/// joined by line breaks.
pub open spec fn plain_csv(records: Seq<Seq<Seq<char>>>, delim: u8) -> Seq<char> {
    join(Seq::new(records.len(), |i: int| join(records[i], seq![delim as char])), seq!['\n'])
}

/// A field the reader takes as it stands: it holds no delimiter, quote or line break.
pub open spec fn plain_field(f: Seq<char>, delim: u8) -> bool {
    forall|k: int| 0 <= k < f.len() ==> #[trigger] f[k] != delim as char && f[k] != '"' && f[k] != '\n' && f[k] != '\r'
}

/// Records that `plain_csv` writes without ambiguity: an ASCII delimiter that is neither the
/// quote nor a line break; plain fields; no record whose line would be blank (the reader
/// skips blank lines); and no byte-order mark at the start (the reader drops one there).
pub open spec fn plain_records(records: Seq<Seq<Seq<char>>>, delim: u8) -> bool {
    &&& delim < 128
    &&& delim != 34 && delim != 10 && delim != 13
    &&& forall|i: int| 0 <= i < records.len() ==> #[trigger] records[i].len() >= 1 && !(records[i].len() == 1
        && records[i][0].len() == 0)
    &&& forall|i: int, j: int| 0 <= i < records.len() && 0 <= j < records[i].len() ==> plain_field(
        #[trigger] records[i][j],
        delim,
    )
    &&& records.len() > 0 && records[0][0].len() > 0 ==> records[0][0][0] != '\u{FEFF}'
}

/// `data` is `records` written plainly, with or without a final line break.
pub open spec fn plainly_written(data: Seq<char>, records: Seq<Seq<Seq<char>>>, delim: u8) -> bool {
    plain_records(records, delim) && (data == plain_csv(records, delim) || data == plain_csv(records, delim)
        + seq!['\n'])
}

/// `csv::Reader::records`, on a reader built over `data` without header handling and with
/// flexible record widths; each record's fields copied out as strings. Text written plainly
/// (`plainly_written`) reads as exactly its records: with no quote in it the reader splits
/// each line at the delimiter, ends a record at each line break, yields the last record
/// whether or not a line break follows it, and skips no non-blank line.
#[verifier::external_body]
fn csv_read(data: &str, delim: u8) -> (res: core::result::Result<Vec<Vec<String>>, String>)
    ensures
        match res {
            Ok(recs) => csv_records(data@, delim) == Ok::<Seq<Seq<Seq<char>>>, Seq<char>>(recs.deep_view())
                && forall|rs: Seq<Seq<Seq<char>>>| #[trigger] plainly_written(data@, rs, delim) ==> recs.deep_view()
                == rs,
            Err(m) => csv_records(data@, delim) == Err::<Seq<Seq<Seq<char>>>, Seq<char>>(m@) && forall|
                rs: Seq<Seq<Seq<char>>>,
            | !#[trigger] plainly_written(data@, rs, delim),
        },
{
    let mut rdr = csv::ReaderBuilder::new().delimiter(delim).has_headers(false).flexible(true).from_reader(data.as_bytes());
    let mut out = Vec::new();
    for rec in rdr.records() {
        let rec = rec.map_err(|e| e.to_string())?;
        out.push(rec.iter().map(|s| s.to_string()).collect());
    }
    Ok(out)
}

/// Records that the default `csv` reader reads back exactly as the default writer wrote them:
/// the delimiter is ASCII and neither the quote nor a line break (the writer then quotes every
/// field holding the delimiter, a quote or a line break, and the reader undoes it); every record
/// has a field (an empty record is written as one empty field); and the text does not start
/// with a byte-order mark (the reader drops one there).
pub open spec fn csv_round_trips(records: Seq<Seq<Seq<char>>>, delim: u8) -> bool {
    &&& delim < 128
    &&& delim != 34 && delim != 10 && delim != 13
    &&& forall|i: int| 0 <= i < records.len() ==> #[trigger] records[i].len() >= 1
    &&& records.len() > 0 && records[0][0].len() > 0 ==> records[0][0][0] != '\u{FEFF}'
}

/// `csv::Writer::write_record` for each record in turn, on a writer over an in-memory buffer
/// with flexible record widths; the buffer then read back as UTF-8 text. With the reader
/// `csv_read` configures, the text reads back as the same records when `csv_round_trips`
/// holds: the writer quotes (`QuoteStyle::Necessary`) every field that holds the delimiter,
/// the quote or a line break, and a record's only field when it is empty.
#[verifier::external_body]
fn csv_write(records: &Vec<Vec<String>>, delim: u8) -> (res: core::result::Result<String, String>)
    ensures
        match res {
            Ok(s) => csv_text(records.deep_view(), delim) == Ok::<Seq<char>, Seq<char>>(s@) && (
            csv_round_trips(records.deep_view(), delim) ==> csv_records(s@, delim) == Ok::<
                Seq<Seq<Seq<char>>>,
                Seq<char>,
            >(records.deep_view())),
            Err(m) => csv_text(records.deep_view(), delim) == Err::<Seq<char>, Seq<char>>(m@),
        },
{
    let mut wtr = csv::WriterBuilder::new().delimiter(delim).flexible(true).from_writer(Vec::new());
    for rec in records {
        wtr.write_record(rec).map_err(|e| e.to_string())?;
    }
    let bytes = wtr.into_inner().map_err(|e| e.to_string())?;
    String::from_utf8(bytes).map_err(|e| e.to_string())
}

/// What `std::path::Path::extension` finds in a path: the part of its file name after the
/// last `.`, when there is one and the name is not just a leading dot.
pub uninterp spec fn path_ext(path: Seq<char>) -> Option<Seq<char>>;

/// `std::path::Path::extension` of the path, as text. The extension is a piece of the path
/// that follows a `.`.
#[verifier::external_body]
fn path_extension(path: &str) -> (res: Option<String>)
    ensures
        match res {
            Some(e) => path_ext(path@) == Some(e@),
            None => path_ext(path@) is None,
        },
        res matches Some(e) ==> exists|i: int|
            0 <= i && i + e@.len() < path@.len() && path@[i] == '.' && path@.subrange(i + 1, i + 1 + e@.len()) == e@,
{
    std::path::Path::new(path).extension().and_then(|e| e.to_str()).map(|e| e.to_string())
}

/// A copy of a row, cell by cell.
pub fn copy_row(row: &Vec<String>) -> (res: Vec<String>)
    ensures
        res.deep_view() == row.deep_view(),
{
    let mut out: Vec<String> = Vec::new();
    let n = row.len();
    let mut i: usize = 0;
    while i < n
        invariant
            i <= n,
            n == row@.len(),
            out.deep_view() == row.deep_view().take(i as int),
        decreases n - i,
    {
        let ghost before = out.deep_view();
        let cell = row[i].clone();
        out.push(cell);
        assert(out.deep_view() =~= before.push(row.deep_view()[i as int]));
        i = i + 1;
        assert(out.deep_view() =~= row.deep_view().take(i as int));
    }
    assert(row.deep_view().take(n as int) =~= row.deep_view());
    out
}

/// The table a list of records makes: with `has_header` and at least one record, the first
/// record is the name overlay and the rest are data; otherwise every record is data.
pub open spec fn spec_table_of(records: Seq<Seq<Seq<char>>>, delim: u8, has_header: bool) -> TableView {
    if has_header && records.len() > 0 {
        TableView { header: Some(records[0]), rows: records.drop_first(), delim }
    } else {
        TableView { header: None, rows: records, delim }
    }
}

/// Build a table from parsed records, promoting the first record to the header when asked.
pub fn table_from_records(records: Vec<Vec<String>>, delim: u8, has_header: bool) -> (res: Table)
    ensures
        res@ == spec_table_of(records.deep_view(), delim, has_header),
{
    let mut records = records;
    if has_header && records.len() > 0 {
        let ghost all = records.deep_view();
        let h = records.remove(0);
        assert(records.deep_view() =~= all.drop_first());
        Table { header: Some(h), rows: records, delim }
    } else {
        Table { header: None, rows: records, delim }
    }
}

/// What reading delimited text gives: the parsed records made into a table, or an I/O fault.
pub open spec fn spec_read_str(data: Seq<char>, delim: u8, has_header: bool) -> core::result::Result<TableView, Fault> {
    match csv_records(data, delim) {
        Err(m) => Err(Fault::Io(m)),
        Ok(recs) => Ok(spec_table_of(recs, delim, has_header)),
    }
}

/// Parse delimited text into a table. With `has_header`, the first record becomes the name
/// overlay; otherwise every record is data (columns reachable only by letter).
pub fn read_str(data: &str, delim: u8, has_header: bool) -> (res: Result<Table>)
    ensures
        view_result(res) == spec_read_str(data@, delim, has_header),
        forall|rs: Seq<Seq<Seq<char>>>| #[trigger] plainly_written(data@, rs, delim) ==> (res matches Ok(t)
            && t@ == spec_table_of(rs, delim, has_header)),
{
    match csv_read(data, delim) {
        Err(m) => Err(XshapeError::Io(m)),
        Ok(records) => Ok(table_from_records(records, delim, has_header)),
    }
}

/// The records a table is written as: the header first, if any, then the data rows.
pub open spec fn spec_records(t: TableView) -> Seq<Seq<Seq<char>>> {
    match t.header {
        Some(h) => seq![h] + t.rows,
        None => t.rows,
    }
}

/// What writing a table gives: the writer's text, or an I/O fault.
pub open spec fn spec_serialize(t: TableView) -> core::result::Result<Seq<char>, Fault> {
    match csv_text(spec_records(t), t.delim) {
        Ok(s) => Ok(s),
        Err(m) => Err(Fault::Io(m)),
    }
}

/// Serialize the whole table to delimited text: the header overlay first, then the data rows.
pub fn serialize(table: &Table) -> (res: Result<String>)
    ensures
        view_result(res) == spec_serialize(table@),
        res matches Ok(s) ==> (csv_round_trips(spec_records(table@), table.delim) ==> spec_read_str(
            s@,
            table.delim,
            table@.header is Some,
        ) == Ok::<TableView, Fault>(table@)),
{
    let mut records: Vec<Vec<String>> = Vec::new();
    if let Some(h) = &table.header {
        records.push(copy_row(h));
        assert(records.deep_view() =~= seq![h.deep_view()]);
    }
    let n = table.rows.len();
    let ghost first = records.deep_view();
    let mut i: usize = 0;
    while i < n
        invariant
            i <= n,
            n == table.rows@.len(),
            records.deep_view() == first + table@.rows.take(i as int),
        decreases n - i,
    {
        let ghost before = records.deep_view();
        let row = copy_row(&table.rows[i]);
        records.push(row);
        assert(records.deep_view() =~= before.push(table@.rows[i as int]));
        i = i + 1;
        assert(records.deep_view() =~= first + table@.rows.take(i as int));
    }
    assert(table@.rows.take(n as int) =~= table@.rows);
    assert(records.deep_view() =~= spec_records(table@));
    assert(spec_table_of(spec_records(table@), table.delim, table@.header is Some) =~= table@) by {
        if let Some(h) = table@.header {
            assert((seq![h] + table@.rows).drop_first() =~= table@.rows);
        }
    }
    match csv_write(&records, table.delim) {
        Ok(s) => Ok(s),
        Err(m) => Err(XshapeError::Io(m)),
    }
}

/// The message for a delimiter that is not one character.
pub open spec fn not_one_char_message(s: Seq<char>) -> Seq<char> {
    "expected one character (or \\t for tab), got "@ + debug_text(s)
}

/// The message for a delimiter outside ASCII.
pub open spec fn not_ascii_message(c: char) -> Seq<char> {
    "expected an ASCII character, got "@ + debug_char(c)
}

/// What a `--delim` value means: one ASCII character as its byte, the two-character escape
/// `\t` or a literal tab as tab; a refusal otherwise.
pub open spec fn spec_parse_delim(s: Seq<char>) -> core::result::Result<u8, Seq<char>> {
    let c = if s == seq!['\\', 't'] || s == seq!['\t'] {
        Some('\t')
    } else if s.len() == 1 {
        Some(s[0])
    } else {
        None
    };
    match c {
        None => Err(not_one_char_message(s)),
        Some(c) => if (c as u32) < 128 {
            Ok(c as u8)
        } else {
            Err(not_ascii_message(c))
        },
    }
}

/// Parse a `--delim` value: one ASCII character, or the escape `\t` for tab.
pub fn parse_delim(s: &str) -> (res: core::result::Result<u8, String>)
    ensures
        match res {
            Ok(b) => spec_parse_delim(s@) == Ok::<u8, Seq<char>>(b),
            Err(m) => spec_parse_delim(s@) == Err::<u8, Seq<char>>(m@),
        },
{
    let cs = chars_of(s);
    let c = if (cs.len() == 2 && cs[0] == '\\' && cs[1] == 't') || (cs.len() == 1 && cs[0] == '\t') {
        assert(cs@ == seq!['\\', 't'] || cs@ == seq!['\t']);
        '\t'
    } else if cs.len() == 1 {
        assert(!(cs@ =~= seq!['\\', 't']));
        assert(!(cs@ =~= seq!['\t']));
        cs[0]
    } else {
        assert(!(cs@ =~= seq!['\\', 't']));
        assert(!(cs@ =~= seq!['\t']));
        let mut m = String::from_str("expected one character (or \\t for tab), got ");
        m.append(debug_quoted(s).as_str());
        return Err(m);
    };
    if (c as u32) >= 128 {
        let mut m = String::from_str("expected an ASCII character, got ");
        m.append(debug_quoted_char(c).as_str());
        return Err(m);
    }
    Ok(c as u8)
}

/// The delimiter an extension implies: tab for `tsv`, a comma otherwise.
pub open spec fn delim_for(ext: Option<Seq<char>>) -> u8 {
    if ext == Some(seq!['t', 's', 'v']) {
        9
    } else {
        44
    }
}

/// The delimiter a file's extension implies: tab for `tsv`, a comma otherwise.
pub fn delim_for_extension(ext: Option<&str>) -> (res: u8)
    ensures
        res == delim_for(match ext {
            Some(e) => Some(e@),
            None => None,
        }),
{
    match ext {
        None => 44u8,
        Some(e) => {
            let cs = chars_of(e);
            if cs.len() == 3 && cs[0] == 't' && cs[1] == 's' && cs[2] == 'v' {
                assert(cs@ =~= seq!['t', 's', 'v']);
                9u8
            } else {
                assert(!(cs@ =~= seq!['t', 's', 'v']));
                44u8
            }
        },
    }
}

/// Tab for a path whose extension is exactly `tsv`, a comma otherwise.
pub fn default_delim(path: &str) -> (res: u8)
    ensures
        res == delim_for(path_ext(path@)),
        res == 9 ==> exists|i: int|
            0 <= i && i + 3 < path@.len() && path@[i] == '.' && path@.subrange(i + 1, i + 4) == seq!['t', 's', 'v'],
{
    let ext = path_extension(path);
    match &ext {
        Some(e) => delim_for_extension(Some(e.as_str())),
        None => delim_for_extension(None),
    }
}

/// The text with one leading byte-order mark removed, if it has one.
pub open spec fn spec_strip_bom(s: Seq<char>) -> Seq<char> {
    if s.len() > 0 && s[0] == '\u{FEFF}' {
        s.drop_first()
    } else {
        s
    }
}

/// Strip a UTF-8 byte-order mark (as spreadsheet "CSV UTF-8" exports write) so the first
/// column's name does not carry it.
pub fn strip_bom(data: &str) -> (res: &str)
    ensures
        res@ == spec_strip_bom(data@),
{
    let n = data.unicode_len();
    if n > 0 && data.get_char(0) == '\u{FEFF}' {
        let rest = data.substring_char(1, n);
        assert(data@.subrange(1, n as int) =~= data@.drop_first());
        rest
    } else {
        data
    }
}

/// What reading a file's text gives: the byte-order mark stripped, the delimiter given or else
/// the one the path's extension implies, then `spec_read_str`.
pub open spec fn spec_read_text(data: Seq<char>, path: Seq<char>, delim: Option<u8>, has_header: bool) -> core::result::Result<TableView, Fault> {
    let d = match delim {
        Some(d) => d,
        None => delim_for(path_ext(path)),
    };
    spec_read_str(spec_strip_bom(data), d, has_header)
}

/// Parse the text read from the file at `path`: strip a leading byte-order mark, take the
/// delimiter given or the one the extension implies (tab for `.tsv`), then read the table.
pub fn read_text(data: &str, path: &str, delim: Option<u8>, has_header: bool) -> (res: Result<Table>)
    ensures
        view_result(res) == spec_read_text(data@, path@, delim, has_header),
{
    let trimmed = strip_bom(data);
    let d = match delim {
        Some(d) => d,
        None => default_delim(path),
    };
    read_str(trimmed, d, has_header)
}

/// What an encoding sniff of a file reports: nothing unless the sniff says to warn and names
/// the encoding; then a warning naming it, followed by the `iconv` hint when there is one.
pub open spec fn spec_encoding_warning(path: Seq<char>, warn: bool, encoding: Option<Seq<char>>, hint: Option<Seq<char>>) -> Seq<Seq<char>> {
    match encoding {
        Some(enc) if warn => {
            let first = "warning: "@ + path + " appears to be "@ + enc + " encoded."@;
            match hint {
                Some(h) => seq![first, "hint: "@ + h],
                None => seq![first],
            }
        },
        _ => seq![],
    }
}

/// The lines to print after sniffing a file's encoding (`warn`: the sniff's verdict is to
/// warn; `encoding`: the encoding it names; `hint`: its `iconv` command).
pub fn encoding_warning(path: &str, warn: bool, encoding: Option<String>, hint: Option<String>) -> (lines: Vec<String>)
    ensures
        lines.deep_view() == spec_encoding_warning(path@, warn, opt_view(encoding), opt_view(hint)),
{
    let mut lines: Vec<String> = Vec::new();
    if !warn {
        return lines;
    }
    match encoding {
        None => {},
        Some(enc) => {
            let mut first = String::from_str("warning: ");
            first.append(path);
            first.append(" appears to be ");
            first.append(enc.as_str());
            first.append(" encoded.");
            lines.push(first);
            if let Some(h) = hint {
                let mut second = String::from_str("hint: ");
                second.append(h.as_str());
                lines.push(second);
            }
        },
    }
    assert(lines.deep_view() =~= spec_encoding_warning(path@, warn, opt_view(encoding), opt_view(hint)));
    lines
}

} // verus!
