use xshape::cli::{destination, input_path, normalize_in_place, parse_list, parse_pair, Destination};

fn s(v: &[&str]) -> Vec<String> {
    v.iter().map(|x| x.to_string()).collect()
}

#[test]
fn attached_suffixes_gain_an_equals_sign() {
    let out = normalize_in_place(s(&["xshape", "-i.bak", "-i", "--in-place=.x", "-i=.y", "--into"]));
    assert_eq!(out, s(&["xshape", "-i=.bak", "-i", "--in-place=.x", "-i=.y", "--into"]));
}

#[test]
fn a_pair_splits_at_its_comma() {
    assert_eq!(parse_pair("k,v", "--into").unwrap(), ("k".to_string(), "v".to_string()));
}

#[test]
fn a_pair_needs_two_names() {
    for bad in ["kv", ",v", "k,", "", "a,b,c", "a,b,"] {
        let e = parse_pair(bad, "--into").unwrap_err();
        assert_eq!(e.message(), format!("--into takes two comma-separated names, KEY,VALUE (got {bad:?})"));
    }
}

#[test]
fn a_list_keeps_empty_names() {
    assert_eq!(parse_list("a,,b"), s(&["a", "", "b"]));
    assert_eq!(parse_list("x"), s(&["x"]));
}

#[test]
fn a_dash_means_standard_input() {
    assert_eq!(input_path(Some("-".to_string())), None);
    assert_eq!(input_path(None), None);
    assert_eq!(input_path(Some("f.csv".to_string())), Some("f.csv".to_string()));
}

#[test]
fn in_place_needs_a_file() {
    let e = destination(Some(String::new()), None).unwrap_err();
    assert!(e.message().contains("needs a file argument"));
    assert!(matches!(destination(None, None).unwrap(), Destination::Stdout));
    match destination(Some(".bak".to_string()), Some("f.csv".to_string())).unwrap() {
        Destination::File { path, backup } => {
            assert_eq!(path, "f.csv");
            assert_eq!(backup.as_deref(), Some("f.csv.bak"));
        }
        Destination::Stdout => panic!("expected a file"),
    }
    match destination(Some(String::new()), Some("f.csv".to_string())).unwrap() {
        Destination::File { backup, .. } => assert_eq!(backup, None),
        Destination::Stdout => panic!("expected a file"),
    }
}

#[test]
fn a_list_has_one_name_more_than_commas() {
    assert_eq!(parse_list(""), s(&[""]));
    assert_eq!(parse_list(",,").len(), 3);
}
