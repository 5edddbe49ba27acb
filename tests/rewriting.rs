use verinc::{inc, inc_with_notices, list_versions, IncError, Position, Version};

#[test]
fn patch_first_of_one() {
    assert_eq!(inc("1.0.0", Position::Nth(0), Version::Patch).unwrap(), "1.0.1");
}

#[test]
fn patch_every_occurrence() {
    assert_eq!(inc("1.0.0 1.0.0", Position::All, Version::Patch).unwrap(), "1.0.1 1.0.1");
}

#[test]
fn minor_second_occurrence() {
    assert_eq!(inc("1.0.0 1.2.1", Position::Nth(1), Version::Minor).unwrap(), "1.0.0 1.3.0");
}

#[test]
fn major_every_occurrence() {
    assert_eq!(inc("3.0.2 1.0.1", Position::All, Version::Major).unwrap(), "4.0.0 2.0.0");
}

#[test]
fn minor_across_lines() {
    assert_eq!(
        inc("1.1.0\nhello\nworld\n12.13.14", Position::Nth(1), Version::Minor).unwrap(),
        "1.1.0\nhello\nworld\n12.14.0"
    );
}

#[test]
fn list_skips_leading_zero() {
    assert_eq!(list_versions("1.01.0 12.13.14"), vec!["12.13.14"]);
}

#[test]
fn no_versions_any_policy() {
    let text = "no numbers here, just 1.2 and v3 and a.b.c\n";
    for position in [Position::All, Position::Nth(0), Position::Nth(3)] {
        for version in [Version::Major, Version::Minor, Version::Patch] {
            assert_eq!(inc(text, position, version).unwrap(), text);
        }
    }
    assert_eq!(inc("", Position::All, Version::Patch).unwrap(), "");
    assert!(list_versions("").is_empty());
}

#[test]
fn single_version_each_kind() {
    let text = "version = \"7.8.9\"\n";
    assert_eq!(inc(text, Position::Nth(0), Version::Patch).unwrap(), "version = \"7.8.10\"\n");
    assert_eq!(inc(text, Position::Nth(0), Version::Minor).unwrap(), "version = \"7.9.0\"\n");
    assert_eq!(inc(text, Position::Nth(0), Version::Major).unwrap(), "version = \"8.0.0\"\n");
}

#[test]
fn all_keeps_text_between() {
    assert_eq!(
        inc("a 1.2.3, b 0.0.9;\nc 10.20.30!", Position::All, Version::Patch).unwrap(),
        "a 1.2.4, b 0.0.10;\nc 10.20.31!"
    );
    assert_eq!(inc("9.9.9 1.9.9", Position::All, Version::Minor).unwrap(), "9.10.0 1.10.0");
}

#[test]
fn nth_touches_only_one() {
    let text = "1.1.1 x 2.2.2 y 3.3.3";
    assert_eq!(inc(text, Position::Nth(0), Version::Major).unwrap(), "2.0.0 x 2.2.2 y 3.3.3");
    assert_eq!(inc(text, Position::Nth(1), Version::Major).unwrap(), "1.1.1 x 3.0.0 y 3.3.3");
    assert_eq!(inc(text, Position::Nth(2), Version::Major).unwrap(), "1.1.1 x 2.2.2 y 4.0.0");
}

#[test]
fn nth_past_end_is_unchanged() {
    let text = "1.0.0 2.0.0";
    assert_eq!(inc(text, Position::Nth(2), Version::Patch).unwrap(), text);
    assert_eq!(inc(text, Position::Nth(u32::MAX), Version::Major).unwrap(), text);
}

#[test]
fn list_is_stable() {
    let text = "a 1.2.3 b 4.5.6 c 1.01.0";
    let first = list_versions(text);
    let second = list_versions(text);
    assert_eq!(first, second);
    assert_eq!(first, vec!["1.2.3", "4.5.6"]);
}

#[test]
fn leading_zero_numerals() {
    assert_eq!(list_versions("01.2.3"), vec!["1.2.3"]);
    assert_eq!(list_versions("1.0.05"), vec!["1.0.0"]);
    assert_eq!(list_versions("1.00.0"), Vec::<&str>::new());
    assert_eq!(inc("1.0.05", Position::Nth(0), Version::Patch).unwrap(), "1.0.15");
    assert_eq!(inc("1.01.0", Position::All, Version::Major).unwrap(), "1.01.0");
}

#[test]
fn no_word_boundary() {
    assert_eq!(list_versions("v12.13.14x"), vec!["12.13.14"]);
    assert_eq!(list_versions("1.2.3.4.5"), vec!["1.2.3"]);
    assert_eq!(inc("1.2.3.4.5", Position::All, Version::Patch).unwrap(), "1.2.4.4.5");
}

#[test]
fn non_ascii_text_is_kept() {
    assert_eq!(list_versions("é1.2.3ü"), vec!["1.2.3"]);
    assert_eq!(inc("é1.2.3ü ✓ 4.5.6", Position::All, Version::Patch).unwrap(), "é1.2.4ü ✓ 4.5.7");
    assert_eq!(list_versions("1.2.٣"), Vec::<&str>::new());
}

#[test]
fn overflow_is_an_error() {
    assert_eq!(inc("4294967296.0.0", Position::Nth(5), Version::Patch), Err(IncError::Overflow));
    assert_eq!(inc("1.0.0 0.99999999999.0", Position::Nth(0), Version::Patch), Err(IncError::Overflow));
    assert_eq!(inc("4294967295.0.0", Position::Nth(0), Version::Major), Err(IncError::Overflow));
    assert_eq!(inc("0.0.4294967295", Position::All, Version::Patch), Err(IncError::Overflow));
    assert_eq!(
        inc("4294967295.0.0", Position::Nth(0), Version::Minor).unwrap(),
        "4294967295.1.0"
    );
    assert_eq!(inc("4294967295.0.0", Position::Nth(1), Version::Major).unwrap(), "4294967295.0.0");
}

#[test]
fn notices_list_each_rewrite() {
    let (text, notes) = inc_with_notices("1.0.0 x 2.3.4", Position::All, Version::Minor).unwrap();
    assert_eq!(text, "1.1.0 x 2.4.0");
    assert_eq!(
        notes,
        vec![
            ("1.0.0".to_string(), "1.1.0".to_string()),
            ("2.3.4".to_string(), "2.4.0".to_string())
        ]
    );
    let (text, notes) = inc_with_notices("1.0.0 x 2.3.4", Position::Nth(1), Version::Patch).unwrap();
    assert_eq!(text, "1.0.0 x 2.3.5");
    assert_eq!(notes, vec![("2.3.4".to_string(), "2.3.5".to_string())]);
    let (text, notes) = inc_with_notices("1.0.0", Position::Nth(4), Version::Patch).unwrap();
    assert_eq!(text, "1.0.0");
    assert!(notes.is_empty());
}
