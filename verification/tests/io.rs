use xshape::io::{default_delim, encoding_warning, parse_delim, read_str, read_text, serialize, strip_bom};
use xshape::model::Table;

#[test]
fn tab_is_reachable_by_escape_and_literally() {
    assert_eq!(parse_delim("\\t"), Ok(b'\t'));
    assert_eq!(parse_delim("\t"), Ok(b'\t'));
}

#[test]
fn ordinary_single_characters_pass_through() {
    assert_eq!(parse_delim(","), Ok(b','));
    assert_eq!(parse_delim("|"), Ok(b'|'));
    assert_eq!(parse_delim(";"), Ok(b';'));
}

#[test]
fn multi_character_and_non_ascii_are_refused() {
    assert!(parse_delim("ab").is_err());
    assert!(parse_delim("").is_err());
    assert!(parse_delim("§").is_err());
}

#[test]
fn delimiter_refusals_say_why() {
    assert_eq!(
        parse_delim("ab"),
        Err("expected one character (or \\t for tab), got \"ab\"".to_string())
    );
    assert_eq!(parse_delim("§"), Err("expected an ASCII character, got '§'".to_string()));
}

#[test]
fn tsv_paths_default_to_tab() {
    assert_eq!(default_delim("data/report.tsv"), b'\t');
    assert_eq!(default_delim("report.csv"), b',');
    assert_eq!(default_delim("report"), b',');
    assert_eq!(default_delim("report.tsv.bak"), b',');
}

#[test]
fn a_byte_order_mark_is_stripped_once() {
    assert_eq!(strip_bom("\u{FEFF}id,name"), "id,name");
    assert_eq!(strip_bom("id,name"), "id,name");
    assert_eq!(strip_bom("\u{FEFF}\u{FEFF}x"), "\u{FEFF}x");
}

#[test]
fn read_promotes_the_first_record_to_the_header() {
    let t = read_str("id,name\n007,Ann\n008,Bob\n", b',', true).unwrap();
    assert_eq!(t.header, Some(vec!["id".to_string(), "name".to_string()]));
    assert_eq!(t.rows, vec![vec!["007".to_string(), "Ann".to_string()], vec!["008".to_string(), "Bob".to_string()]]);
    let raw = read_str("id,name\n007,Ann\n", b',', false).unwrap();
    assert_eq!(raw.header, None);
    assert_eq!(raw.nrows(), 2);
}

#[test]
fn read_tolerates_ragged_rows_and_quotes() {
    let t = read_str("a,b,c\n1,\"x, y\"\n2,3,4,5\n", b',', true).unwrap();
    assert_eq!(t.rows[0], vec!["1".to_string(), "x, y".to_string()]);
    assert_eq!(t.ncols(), 4);
    assert_eq!(t.cell(0, 2), "");
}

#[test]
fn serialize_writes_header_then_rows_with_quoting() {
    let t = Table {
        header: Some(vec!["id".into(), "vendor".into()]),
        rows: vec![vec!["0042".into(), "Beta, Inc.".into()]],
        delim: b',',
    };
    assert_eq!(serialize(&t).unwrap(), "id,vendor\n0042,\"Beta, Inc.\"\n");
}

#[test]
fn serialize_honours_the_delimiter() {
    let t = Table { header: None, rows: vec![vec!["a".into(), "b".into()]], delim: b'\t' };
    assert_eq!(serialize(&t).unwrap(), "a\tb\n");
}

#[test]
fn only_an_exact_tsv_extension_means_tab() {
    assert_eq!(default_delim("data.tsv"), b'\t');
    assert_eq!(default_delim("dir/data.tsv"), b'\t');
    assert_eq!(default_delim("data.csv"), b',');
    assert_eq!(default_delim("data"), b',');
    assert_eq!(default_delim("a.tsv.bak"), b',');
    assert_eq!(default_delim(".tsv"), b',');
    assert_eq!(default_delim("a.TSV"), b',');
}

#[test]
fn read_text_strips_the_mark_and_picks_the_delimiter() {
    let t = read_text("\u{FEFF}id\tname\n1\tAnn\n", "x.tsv", None, true).unwrap();
    assert_eq!(t.header, Some(vec!["id".to_string(), "name".to_string()]));
    assert_eq!(t.rows, vec![vec!["1".to_string(), "Ann".to_string()]]);
    assert_eq!(t.delim, b'\t');
    let t = read_text("a;b\n", "x.tsv", Some(b';'), false).unwrap();
    assert_eq!(t.rows, vec![vec!["a".to_string(), "b".to_string()]]);
    assert_eq!(t.header, None);
}

#[test]
fn an_encoding_warning_names_the_encoding_and_the_hint() {
    let lines = encoding_warning("f.csv", true, Some("UTF-16 little-endian".to_string()), Some("iconv -f UTF-16LE -t UTF-8 f.csv".to_string()));
    assert_eq!(lines, vec![
        "warning: f.csv appears to be UTF-16 little-endian encoded.".to_string(),
        "hint: iconv -f UTF-16LE -t UTF-8 f.csv".to_string(),
    ]);
    assert!(encoding_warning("f.csv", false, Some("UTF-7".to_string()), None).is_empty());
    assert!(encoding_warning("f.csv", true, None, Some("iconv".to_string())).is_empty());
    assert_eq!(encoding_warning("f.csv", true, Some("UTF-7".to_string()), None).len(), 1);
}

#[test]
fn what_serialize_writes_reads_back() {
    let t = Table {
        header: Some(vec!["id".to_string(), "note".to_string()]),
        rows: vec![
            vec!["007".to_string(), "a, \"b\"\nc".to_string()],
            vec!["".to_string()],
            vec!["x".to_string(), "".to_string(), "\r".to_string()],
        ],
        delim: b',',
    };
    let text = serialize(&t).unwrap();
    let back = read_str(&text, b',', true).unwrap();
    assert_eq!(back.header, t.header);
    assert_eq!(back.rows, t.rows);
    assert_eq!(back.delim, t.delim);
}
