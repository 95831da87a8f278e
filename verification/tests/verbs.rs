use xshape::io::{read_str, serialize};
use xshape::model::Table;
use xshape::verbs::{explode, explode_column, merge, merge_columns, pivot, pivot_columns, split, split_column, transpose, unpivot, unpivot_columns};
use xshape::XshapeError;

fn s(v: &[&str]) -> Vec<String> {
    v.iter().map(|x| x.to_string()).collect()
}

fn wide() -> Table {
    Table {
        header: Some(vec!["contract".into(), "fy2024".into(), "fy2025".into()]),
        rows: vec![
            vec!["A-1".into(), "100".into(), "200".into()],
            vec!["B-2".into(), "0".into(), "50".into()],
        ],
        delim: b',',
    }
}

fn long() -> Table {
    Table {
        header: Some(s(&["contract", "fy", "amount"])),
        rows: vec![
            s(&["A-1", "fy2024", "100"]),
            s(&["A-1", "fy2025", "200"]),
            s(&["B-2", "fy2024", "0"]),
            s(&["B-2", "fy2025", "50"]),
        ],
        delim: b',',
    }
}

#[test]
fn unpivot_gathers_to_long() {
    let out = unpivot(&wide(), "[fy2024]:[fy2025]", "fy", "amount").unwrap();
    assert_eq!(out.header.as_ref().unwrap(), &["contract", "fy", "amount"]);
    assert_eq!(out.nrows(), 4);
    assert_eq!(out.rows[0], vec!["A-1", "fy2024", "100"]);
    assert_eq!(out.rows[1], vec!["A-1", "fy2025", "200"]);
    assert_eq!(out.rows[2], vec!["B-2", "fy2024", "0"]);
    assert_eq!(out.rows[3], vec!["B-2", "fy2025", "50"]);
}

#[test]
fn unpivot_preserves_values_exactly() {
    let mut t = wide();
    t.rows[0][1] = "007".into();
    let out = unpivot(&t, "B", "k", "v").unwrap();
    assert_eq!(out.header.as_ref().unwrap(), &["contract", "fy2025", "k", "v"]);
    assert_eq!(out.rows[0], vec!["A-1", "200", "fy2024", "007"]);
}

#[test]
fn unpivot_requires_header() {
    let t = Table { header: None, rows: vec![vec!["x".into()]], delim: b',' };
    assert!(unpivot(&t, "A", "k", "v").is_err());
}

#[test]
fn unpivot_rejects_duplicate_gather() {
    assert!(unpivot(&wide(), "B,B", "k", "v").is_err());
}

#[test]
fn unpivot_duplicate_message_names_the_column() {
    let e = unpivot(&wide(), "B,C,B", "k", "v").unwrap_err();
    assert_eq!(
        e.message(),
        "address error: column B appears twice in --cols; each gathered column must be distinct"
    );
}

#[test]
fn unpivot_gathers_in_spec_order() {
    let out = unpivot(&wide(), "C,B", "fy", "amount").unwrap();
    assert_eq!(out.rows[0], vec!["A-1", "fy2025", "200"]);
    assert_eq!(out.rows[1], vec!["A-1", "fy2024", "100"]);
}

#[test]
fn unpivot_fixture_round_trips_values() {
    let csv = "contract_id,vendor,fy2024,fy2025,fy2026\n0007,Acme LLC,100,0,5\n0042,\"Beta, Inc.\",7,50,9\n";
    let table = read_str(csv, b',', true).unwrap();
    let long = unpivot(&table, "[fy2024]:[fy2026]", "fiscal_year", "spend").unwrap();
    assert_eq!(long.nrows(), 6);
    assert_eq!(long.header.as_ref().unwrap(), &["contract_id", "vendor", "fiscal_year", "spend"]);
    let out = serialize(&long).unwrap();
    assert!(out.contains("0007,Acme LLC,fy2024,100"));
    assert!(out.contains("0042,"));
    assert!(out.contains("\"Beta, Inc.\""));
    assert!(out.contains("0042,\"Beta, Inc.\",fy2025,50"));
}

#[test]
fn transpose_swaps_the_axes_header_included() {
    let t = read_str("id,name,qty\n007,Ann,5\n008,Bob,3\n", b',', true).unwrap();
    let out = transpose(&t).unwrap();
    assert_eq!(out.header, Some(s(&["id", "007", "008"])));
    assert_eq!(out.rows, vec![s(&["name", "Ann", "Bob"]), s(&["qty", "5", "3"])]);
    assert_eq!(serialize(&out).unwrap(), "id,007,008\nname,Ann,Bob\nqty,5,3\n");
}

#[test]
fn transpose_pads_ragged_rows_and_twice_restores_them_padded() {
    let t = Table { header: Some(s(&["a", "b", "c"])), rows: vec![s(&["1"]), s(&["2", "3"])], delim: b',' };
    let once = transpose(&t).unwrap();
    assert_eq!(once.header, Some(s(&["a", "1", "2"])));
    assert_eq!(once.rows, vec![s(&["b", "", "3"]), s(&["c", "", ""])]);
    let twice = transpose(&once).unwrap();
    assert_eq!(twice.header, Some(s(&["a", "b", "c"])));
    assert_eq!(twice.rows, vec![s(&["1", "", ""]), s(&["2", "3", ""])]);
}

#[test]
fn transpose_without_a_header_transposes_everything() {
    let t = Table { header: None, rows: vec![s(&["1", "2"]), s(&["3", "4"])], delim: b',' };
    let out = transpose(&t).unwrap();
    assert_eq!(out.header, None);
    assert_eq!(out.rows, vec![s(&["1", "3"]), s(&["2", "4"])]);
}

#[test]
fn explode_emits_one_row_per_piece() {
    let t = Table {
        header: Some(s(&["id", "apps"])),
        rows: vec![s(&["1", "a; b; c"]), s(&["2", ""]), s(&["3", "x"])],
        delim: b',',
    };
    let out = explode(&t, "[apps]", "; ").unwrap();
    assert_eq!(out.header, Some(s(&["id", "apps"])));
    assert_eq!(
        out.rows,
        vec![s(&["1", "a"]), s(&["1", "b"]), s(&["1", "c"]), s(&["2", ""]), s(&["3", "x"])]
    );
}

#[test]
fn explode_cuts_on_the_literal_separator_without_trimming() {
    let t = Table { header: None, rows: vec![s(&["a; b"])], delim: b',' };
    let out = explode(&t, "A", ";").unwrap();
    assert_eq!(out.rows, vec![s(&["a"]), s(&[" b"])]);
}

#[test]
fn an_empty_separator_is_refused() {
    let t = wide();
    let e = explode(&t, "A", "").unwrap_err();
    assert!(matches!(e, XshapeError::Input(_)));
    assert!(split(&t, "A", "", None).is_err());
}

#[test]
fn split_auto_width_pads_short_rows() {
    let t = Table {
        header: Some(s(&["name", "code", "n"])),
        rows: vec![s(&["x", "A/B/C", "1"]), s(&["y", "D", "2"])],
        delim: b',',
    };
    let out = split(&t, "[code]", "/", None).unwrap();
    assert_eq!(out.header, Some(s(&["name", "code_1", "code_2", "code_3", "n"])));
    assert_eq!(out.rows, vec![s(&["x", "A", "B", "C", "1"]), s(&["y", "D", "", "", "2"])]);
}

#[test]
fn split_into_names_the_columns() {
    let t = Table { header: Some(s(&["full"])), rows: vec![s(&["Doe, Jane"])], delim: b',' };
    let into = s(&["last", "first"]);
    let out = split(&t, "A", ", ", Some(&into)).unwrap();
    assert_eq!(out.header, Some(s(&["last", "first"])));
    assert_eq!(out.rows, vec![s(&["Doe", "Jane"])]);
}

#[test]
fn split_refuses_to_drop_an_overflowing_piece() {
    let t = Table { header: Some(s(&["k"])), rows: vec![s(&["a/b"]), s(&["a/b/c"])], delim: b',' };
    let into = s(&["x", "y"]);
    let e = split(&t, "A", "/", Some(&into)).unwrap_err();
    assert_eq!(e.message(), "row 2 splits into 3 pieces but --into names only 2 columns; xshape never drops a piece");
}

#[test]
fn split_without_header_uses_no_names() {
    let t = Table { header: None, rows: vec![s(&["1-2"])], delim: b',' };
    let out = split(&t, "A", "-", None).unwrap();
    assert_eq!(out.header, None);
    assert_eq!(out.rows, vec![s(&["1", "2"])]);
}

#[test]
fn merge_joins_in_spec_order_at_the_leftmost_column() {
    let t = Table { header: Some(s(&["first", "last", "n"])), rows: vec![s(&["Ann", "Lee", "1"])], delim: b',' };
    let out = merge(&t, "[last],[first]", ", ", "name").unwrap();
    assert_eq!(out.header, Some(s(&["name", "n"])));
    assert_eq!(out.rows, vec![s(&["Lee, Ann", "1"])]);
}

#[test]
fn merge_joins_empty_values_too() {
    let t = Table { header: None, rows: vec![s(&["a", "", "z"])], delim: b',' };
    let out = merge(&t, "A:B", ";", "m").unwrap();
    assert_eq!(out.rows, vec![s(&["a;", "z"])]);
}

#[test]
fn merge_needs_two_columns() {
    let t = wide();
    let e = merge(&t, "A", ";", "m").unwrap_err();
    assert_eq!(e.message(), "merge needs at least two columns in --cols");
}

#[test]
fn merge_undoes_a_uniform_split() {
    let t = Table { header: Some(s(&["code"])), rows: vec![s(&["a/b"]), s(&["c/d"])], delim: b',' };
    let parts = split(&t, "A", "/", None).unwrap();
    let back = merge(&parts, "A:B", "/", "code").unwrap();
    assert_eq!(back.header, t.header);
    assert_eq!(back.rows, t.rows);
}

#[test]
fn pivot_spreads_names_into_headers() {
    let out = pivot(&long(), "[fy]", "[amount]").unwrap();
    assert_eq!(out.header, Some(s(&["contract", "fy2024", "fy2025"])));
    assert_eq!(out.rows, vec![s(&["A-1", "100", "200"]), s(&["B-2", "0", "50"])]);
}

#[test]
fn pivot_leaves_missing_combinations_empty() {
    let mut t = long();
    t.rows.remove(3);
    let out = pivot(&t, "B", "C").unwrap();
    assert_eq!(out.rows, vec![s(&["A-1", "100", "200"]), s(&["B-2", "0", ""])]);
}

#[test]
fn pivot_refuses_a_collision_rather_than_aggregate() {
    let mut t = long();
    t.rows.push(s(&["A-1", "fy2024", "7"]));
    let e = pivot(&t, "[fy]", "[amount]").unwrap_err();
    assert!(matches!(e, XshapeError::Collision(_)));
    assert!(e.message().starts_with("collision: "));
    assert!(e.message().contains("xql"));
}

#[test]
fn pivot_needs_two_different_columns() {
    let e = pivot(&long(), "B", "[fy]").unwrap_err();
    assert_eq!(e.message(), "--names-from and --values-from must name different columns");
}

#[test]
fn pivot_undoes_unpivot() {
    let t = wide();
    let longer = unpivot(&t, "B:C", "fy", "amount").unwrap();
    let back = pivot(&longer, "[fy]", "[amount]").unwrap();
    assert_eq!(back.header, t.header);
    assert_eq!(back.rows, t.rows);
}

#[test]
fn the_resolved_column_forms_agree_with_the_verbs() {
    let t = read_str("id,a,b\n1,x;y,2\n", b',', true).unwrap();
    let e = explode_column(&t, 1, ";");
    assert_eq!(e.rows, explode(&t, "B", ";").unwrap().rows);
    let m = merge_columns(&t, &vec![1, 2], "-", "ab");
    assert_eq!(m.header, Some(vec!["id".to_string(), "ab".to_string()]));
    assert_eq!(m.rows, vec![vec!["1".to_string(), "x;y-2".to_string()]]);
    let u = unpivot_columns(&t, &vec![1, 2], "k", "v");
    assert_eq!(u.rows.len(), 2);
    let p = pivot_columns(&u, 1, 2).unwrap();
    assert_eq!(p.header, t.header);
    assert_eq!(p.rows, t.rows);
    let s = split_column(&t, 1, ";", None).unwrap();
    assert_eq!(s.header, Some(vec!["id".to_string(), "a_1".to_string(), "a_2".to_string(), "b".to_string()]));
}
