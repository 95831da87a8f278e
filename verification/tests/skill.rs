use xshape::skill::{before_write, home_dir, skill_dir, install_report, payload, removal, skill_is_current, stamp, stamped_version, uninstall_report, write_outcome, Outcome, Removal};
use xshape::skill_text::{REFERENCE_MD, SKILL_MD};

#[test]
fn the_stamp_sits_under_the_frontmatter_not_inside_it() {
    let body = "---\nname: xshape\ndescription: x\n---\n\n# xshape\n";
    let out = stamp(body, "9.9.9");
    let fm_end = out.find("\n---\n").map(|i| i + 5).unwrap();
    assert!(
        !out[..fm_end].contains("This skill documents"),
        "the stamp must not land inside the YAML block"
    );
    assert!(out[fm_end..].contains("This skill documents xshape 9.9.9"));
    assert!(out.ends_with("# xshape\n"));
}

#[test]
fn a_stamp_round_trips_through_the_reader() {
    let stamped = stamp("---\nname: xshape\n---\n\nbody\n", "0.5.1");
    assert_eq!(stamped_version(&stamped).as_deref(), Some("0.5.1"));
}

#[test]
fn an_unstamped_skill_reads_back_as_no_version() {
    assert_eq!(stamped_version("---\nname: xshape\n---\n\nbody\n"), None);
}

#[test]
fn the_shipped_skill_keeps_its_frontmatter() {
    let out = stamp(SKILL_MD, "1.2.3");
    assert!(out.starts_with("---\nname: xshape\n"));
    assert_eq!(out.matches("\n---\n").count(), SKILL_MD.matches("\n---\n").count());
}

#[test]
fn a_body_without_frontmatter_is_stamped_at_the_top() {
    let out = stamp("# notes\n", "2.0.0");
    assert!(out.starts_with("> This skill documents xshape 2.0.0. If `xshape -V`"));
    assert!(out.ends_with("\n\n# notes\n"));
    assert_eq!(stamped_version(&out).as_deref(), Some("2.0.0"));
}

#[test]
fn the_exact_stamp_text() {
    let out = stamp("---\na: b\n---\nrest", "1.0");
    assert_eq!(
        out,
        "---\na: b\n---\n\n> This skill documents xshape 1.0. If `xshape -V` reports a different\n> version, the skill is stale \u{2014} run `xshape --install-skill` to refresh it.\nrest"
    );
}

#[test]
fn a_stamp_line_with_crlf_still_reads_back() {
    let body = "x\r\n> This skill documents xshape 3.1.4. If\r\n";
    assert_eq!(stamped_version(body).as_deref(), Some("3.1.4"));
}

#[test]
fn the_payload_stamps_only_the_skill_page() {
    let files = payload("1.2.3");
    assert_eq!(files.len(), 2);
    assert_eq!(files[0].0, "SKILL.md");
    assert_eq!(files[0].1, stamp(SKILL_MD, "1.2.3"));
    assert_eq!(files[1].0, "reference.md");
    assert_eq!(files[1].1, REFERENCE_MD);
}

#[test]
fn an_install_is_current_only_when_every_file_matches() {
    let files = payload("1.2.3");
    let same: Vec<Option<String>> = files.iter().map(|(_, t)| Some(t.clone())).collect();
    assert!(skill_is_current(&files, &same));
    let missing = vec![Some(files[0].1.clone()), None];
    assert!(!skill_is_current(&files, &missing));
    let stale = vec![Some(stamp(SKILL_MD, "1.0.0")), Some(files[1].1.clone())];
    assert!(!skill_is_current(&files, &stale));
}

#[test]
fn an_update_reports_the_old_version() {
    assert!(matches!(write_outcome(true, None), Outcome::Installed));
    match write_outcome(false, Some(stamp(SKILL_MD, "0.9.0"))) {
        Outcome::Updated(Some(v)) => assert_eq!(v, "0.9.0"),
        _ => panic!("expected an update naming 0.9.0"),
    }
    assert!(matches!(write_outcome(false, Some("no stamp".to_string())), Outcome::Updated(None)));
}

#[test]
fn an_empty_version_reads_back_empty() {
    assert_eq!(stamped_version(&stamp("body\n", "")).as_deref(), Some(""));
}

#[test]
fn a_link_is_left_alone_and_a_current_skill_is_not_rewritten() {
    assert!(matches!(before_write(Some("/src/skill".to_string()), true), Some(Outcome::Linked(t)) if t == "/src/skill"));
    assert!(matches!(before_write(None, true), Some(Outcome::AlreadyCurrent)));
    assert!(before_write(None, false).is_none());
    let files = payload("1.2.3");
    let on_disk: Vec<Option<String>> = files.iter().map(|(_, t)| Some(t.clone())).collect();
    assert!(matches!(before_write(None, skill_is_current(&files, &on_disk)), Some(Outcome::AlreadyCurrent)));
}

#[test]
fn the_home_directory_must_be_set() {
    assert_eq!(home_dir(Some("/home/ann".to_string()), false).unwrap(), "/home/ann");
    assert_eq!(
        home_dir(None, false).unwrap_err().message(),
        "cannot find your home directory: HOME is not set"
    );
    assert_eq!(
        home_dir(Some(String::new()), true).unwrap_err().message(),
        "cannot find your home directory: USERPROFILE is not set"
    );
}

#[test]
fn install_reports_name_what_happened() {
    let r = install_report("xshape", "/h/s", "1.0.0", &Outcome::Installed);
    assert_eq!(r, vec!["xshape: installed skill to /h/s (xshape 1.0.0)".to_string()]);
    let r = install_report("xshape", "/h/s", "1.0.0", &Outcome::AlreadyCurrent);
    assert_eq!(r, vec!["xshape: skill already current at /h/s (xshape 1.0.0)".to_string()]);
    let r = install_report("xshape", "/h/s", "1.0.0", &Outcome::Updated(Some("0.9.0".to_string())));
    assert_eq!(r, vec!["xshape: updated skill at /h/s (0.9.0 \u{2192} 1.0.0)".to_string()]);
    let r = install_report("xshape", "/h/s", "1.0.0", &Outcome::Updated(Some("1.0.0".to_string())));
    assert_eq!(r[0], "xshape: updated skill at /h/s (xshape 1.0.0)");
    let r = install_report("xshape", "/h/s", "1.0.0", &Outcome::Updated(None));
    assert_eq!(r, vec!["xshape: updated skill at /h/s (xshape 1.0.0)".to_string()]);
    let r = install_report("xshape", "/h/s", "1.0.0", &Outcome::Linked("/src".to_string()));
    assert_eq!(r.len(), 2);
    assert_eq!(r[0], "xshape: /h/s is a symlink to /src");
    assert!(r[1].starts_with("xshape: leaving it alone"));
}

#[test]
fn the_skill_lives_three_levels_under_home() {
    assert_eq!(skill_dir("/home/ann", ".agent", false), "/home/ann/.agent/skills/xshape");
    assert_eq!(skill_dir("/home/ann/", ".agent", false), "/home/ann/.agent/skills/xshape");
    assert_eq!(skill_dir("C:\\Users\\ann", ".agent", true), "C:\\Users\\ann\\.agent\\skills\\xshape");
    assert_eq!(skill_dir("C:/Users/ann/", ".agent", true), "C:/Users/ann/.agent\\skills\\xshape");
}

#[test]
fn uninstall_removes_a_link_or_the_directory() {
    assert!(matches!(removal(true, true), Removal::Link));
    assert!(matches!(removal(false, true), Removal::Dir));
    assert!(matches!(removal(false, false), Removal::Nothing));
    assert_eq!(uninstall_report("xshape", "/h/s", &Removal::Nothing, None), "xshape: no skill installed at /h/s");
    assert_eq!(uninstall_report("xshape", "/h/s", &Removal::Dir, None), "xshape: removed the skill at /h/s");
    assert_eq!(
        uninstall_report("xshape", "/h/s", &Removal::Link, Some("/src".to_string())),
        "xshape: removed the symlink at /h/s (it pointed at /src)"
    );
}
