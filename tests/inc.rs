use verinc::{inc, Position, Version};

#[test]
fn no_versions() {
    assert_eq!(
        inc("foo bar baz", Position::Nth(1), Version::Patch).unwrap(),
        "foo bar baz"
    );
}

#[test]
fn patch() {
    assert_eq!(inc("1.0.0", Position::Nth(0), Version::Patch).unwrap(), "1.0.1");
    assert_eq!(inc("1.0.0", Position::All, Version::Patch).unwrap(), "1.0.1");

    assert_eq!(
        inc("1.0.0 foo 1.0.0", Position::Nth(0), Version::Patch).unwrap(),
        "1.0.1 foo 1.0.0"
    );
    assert_eq!(
        inc("1.0.0 1.0.0", Position::All, Version::Patch).unwrap(),
        "1.0.1 1.0.1"
    );

    assert_eq!(
        inc("1.0.0 1.0.0", Position::Nth(1), Version::Patch).unwrap(),
        "1.0.0 1.0.1"
    );
}

#[test]
fn minor() {
    assert_eq!(inc("1.0.0", Position::Nth(0), Version::Minor).unwrap(), "1.1.0");
    assert_eq!(inc("1.0.1", Position::Nth(0), Version::Minor).unwrap(), "1.1.0");
    assert_eq!(inc("1.0.0", Position::All, Version::Minor).unwrap(), "1.1.0");
    assert_eq!(inc("1.0.1", Position::All, Version::Minor).unwrap(), "1.1.0");

    assert_eq!(
        inc("1.0.0 1.0.0", Position::Nth(0), Version::Minor).unwrap(),
        "1.1.0 1.0.0"
    );
    assert_eq!(
        inc("1.0.0 1.0.0", Position::All, Version::Minor).unwrap(),
        "1.1.0 1.1.0"
    );
    assert_eq!(
        inc("1.0.1 1.0.2", Position::Nth(0), Version::Minor).unwrap(),
        "1.1.0 1.0.2"
    );
    assert_eq!(
        inc("1.0.2 1.0.1", Position::All, Version::Minor).unwrap(),
        "1.1.0 1.1.0"
    );

    assert_eq!(
        inc("1.0.0 1.2.1", Position::Nth(1), Version::Minor).unwrap(),
        "1.0.0 1.3.0"
    );
}

#[test]
fn major() {
    assert_eq!(inc("1.0.0", Position::Nth(0), Version::Major).unwrap(), "2.0.0");
    assert_eq!(inc("1.0.1", Position::Nth(0), Version::Major).unwrap(), "2.0.0");
    assert_eq!(inc("1.0.0", Position::All, Version::Major).unwrap(), "2.0.0");
    assert_eq!(inc("1.0.1", Position::All, Version::Major).unwrap(), "2.0.0");

    assert_eq!(
        inc("1.0.0 1.0.0", Position::Nth(0), Version::Major).unwrap(),
        "2.0.0 1.0.0"
    );
    assert_eq!(
        inc("1.0.0 1.0.0", Position::All, Version::Major).unwrap(),
        "2.0.0 2.0.0"
    );
    assert_eq!(
        inc("3.0.1 1.0.2", Position::Nth(0), Version::Major).unwrap(),
        "4.0.0 1.0.2"
    );
    assert_eq!(
        inc("3.0.2 1.0.1", Position::All, Version::Major).unwrap(),
        "4.0.0 2.0.0"
    );

    assert_eq!(
        inc("1.0.0 1.2.1", Position::Nth(1), Version::Major).unwrap(),
        "1.0.0 2.0.0"
    );
}

#[test]
fn leading_zeros() {
    assert_eq!(
        inc("1.01.0 12.13.14", Position::Nth(0), Version::Major).unwrap(),
        "1.01.0 13.0.0"
    );
}

#[test]
fn multiline() {
    assert_eq!(
        inc(
            "1.1.0\nhello\nworld\n12.13.14",
            Position::Nth(1),
            Version::Minor
        ).unwrap(),
        "1.1.0\nhello\nworld\n12.14.0"
    );
}
