use xshape::addr::{cols, one_col};
use xshape::model::Table;

fn table() -> Table {
    Table {
        header: Some(vec![
            "id".into(),
            "first name".into(),
            "last name".into(),
            "fy2024".into(),
            "fy2025".into(),
        ]),
        rows: vec![],
        delim: b',',
    }
}

fn headerless() -> Table {
    Table {
        header: None,
        rows: vec![vec!["a".into(), "b".into()]],
        delim: b',',
    }
}

#[test]
fn single_letter_and_name() {
    let t = table();
    assert_eq!(cols("A", &t).unwrap(), vec![0]);
    assert_eq!(cols("[first name]", &t).unwrap(), vec![1]);
}

#[test]
fn letter_range_expands_inclusive() {
    let t = table();
    assert_eq!(cols("A:C", &t).unwrap(), vec![0, 1, 2]);
}

#[test]
fn reversed_range_normalizes() {
    let t = table();
    assert_eq!(cols("C:A", &t).unwrap(), vec![0, 1, 2]);
}

#[test]
fn name_range() {
    let t = table();
    assert_eq!(cols("[fy2024]:[fy2025]", &t).unwrap(), vec![3, 4]);
}

#[test]
fn list_preserves_order_and_dups() {
    let t = table();
    assert_eq!(cols("D,B,B", &t).unwrap(), vec![3, 1, 1]);
}

#[test]
fn mixed_list_and_range() {
    let t = table();
    assert_eq!(cols("[id],D:E", &t).unwrap(), vec![0, 3, 4]);
}

#[test]
fn one_col_rejects_multiple() {
    let t = table();
    assert!(one_col("A:C", &t).is_err());
    assert_eq!(one_col("B", &t).unwrap(), 1);
}

#[test]
fn unknown_name_errors() {
    let t = table();
    assert!(cols("[nope]", &t).is_err());
}

#[test]
fn name_without_header_errors_clearly() {
    let t = headerless();
    let e = cols("[x]", &t).unwrap_err().message();
    assert!(e.contains("needs a header row"), "got: {e}");
}

#[test]
fn escaped_bracket_in_name() {
    let mut t = table();
    t.header = Some(vec!["weird]name".into()]);
    assert_eq!(cols("[weird]]name]", &t).unwrap(), vec![0]);
}

#[test]
fn empty_spec_errors() {
    let t = table();
    assert!(cols("", &t).is_err());
    assert!(cols("A,,B", &t).is_err());
}

#[test]
fn open_ended_ranges_now_resolve() {
    let t = table();
    assert_eq!(cols("B:", &t).unwrap(), vec![1, 2, 3, 4]);
    assert_eq!(cols(":C", &t).unwrap(), vec![0, 1, 2]);
    assert_eq!(cols("[last name]:", &t).unwrap(), vec![2, 3, 4]);
    assert_eq!(cols(":[last name]", &t).unwrap(), vec![0, 1, 2]);
}

#[test]
fn past_the_last_column_is_refused_not_clamped() {
    let t = table();
    let e = cols("A:Z", &t).unwrap_err().message();
    assert!(e.contains("beyond the table's 5 columns"), "got: {e}");
}

#[test]
fn row_and_cell_addresses_are_rejected() {
    let t = table();
    assert!(cols("3", &t).is_err());
    assert!(cols("$", &t).is_err());
    assert!(cols("B2", &t).is_err());
}

#[test]
fn one_col_names_the_count_and_the_spec() {
    let t = table();
    let e = one_col("A:C", &t).unwrap_err().message();
    assert_eq!(e, "address error: expected a single column, got 3 from \"A:C\"");
}

#[test]
fn unknown_name_message_names_it() {
    let t = table();
    let e = cols("[nope]", &t).unwrap_err().message();
    assert_eq!(e, "address error: no column named [nope]");
}

#[test]
fn row_address_message_says_columns_only() {
    let t = table();
    let e = cols("3", &t).unwrap_err().message();
    assert_eq!(e, "address error: this names a row, but only columns can be addressed here");
    let e = cols("B2", &t).unwrap_err().message();
    assert_eq!(e, "address error: this names a single cell, but only columns can be addressed here");
}

#[test]
fn letters_past_z_resolve_against_a_wide_table() {
    let t = Table { header: None, rows: vec![vec![String::new(); 30]], delim: b',' };
    assert_eq!(cols("AA:AB", &t).unwrap(), vec![26, 27]);
    let e = cols("AE", &t).unwrap_err().message();
    assert_eq!(e, "address error: column AE is beyond the table's 30 columns");
}

#[test]
fn an_empty_table_has_no_columns_to_address() {
    let t = Table { header: None, rows: vec![], delim: b',' };
    let e = cols("A", &t).unwrap_err().message();
    assert_eq!(e, "address error: the table has no columns");
}

#[test]
fn a_one_column_range_is_not_a_single_column() {
    let t = table();
    let e = one_col("B:B", &t).unwrap_err().message();
    assert_eq!(e, "address error: expected a single column, got the range \"B:B\"");
    assert_eq!(cols("B:B", &t).unwrap(), vec![1]);
    assert_eq!(one_col("[first name]", &t).unwrap(), 1);
}

#[test]
fn names_map_to_their_first_position() {
    let t = table();
    assert_eq!(t.name_to_col("first name"), Some(1));
    assert_eq!(t.name_to_col("First Name"), None);
    assert_eq!(headerless().name_to_col("x"), None);
}
