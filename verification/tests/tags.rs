use migrant_lib::tags::new_migration_name;
use migrant_lib::{invalid_full_tag, invalid_optional_stamp_tag, invalid_tag, ErrorKind};

#[test]
fn tags_hold_only_lowercase_digits_and_dashes() {
    assert!(!invalid_tag("create-users-table"));
    assert!(!invalid_tag("abc-123"));
    assert!(!invalid_tag(""));
    assert!(invalid_tag("Create"));
    assert!(invalid_tag("with space"));
    assert!(invalid_tag("under_score"));
    assert!(invalid_tag("caf\u{e9}"));
}

#[test]
fn full_tags_are_timestamped() {
    assert!(!invalid_full_tag("20180105040947_initial"));
    assert!(invalid_full_tag("x20180105040947_a"));
    assert!(invalid_full_tag("x20180105040947_init!"));
    assert!(invalid_full_tag("20180105040947_init!"));
    assert!(invalid_full_tag("20180105040947_init_x"));
    assert!(invalid_full_tag("20180105040947_a\n"));
    assert!(invalid_full_tag("initial"));
    assert!(invalid_full_tag("2018010504094_initial"));
    assert!(invalid_full_tag("20180105040947_"));
    assert!(invalid_full_tag("20180105040947_A"));
}

#[test]
fn optional_stamp_tags_match_once() {
    assert!(!invalid_optional_stamp_tag("initial"));
    assert!(!invalid_optional_stamp_tag("20180105040947_initial"));
    assert!(invalid_optional_stamp_tag("two words"));
    assert!(invalid_optional_stamp_tag(""));
    assert!(invalid_optional_stamp_tag("UPPER"));
    assert!(invalid_optional_stamp_tag("Initial"));
    assert!(invalid_optional_stamp_tag("init!"));
    assert!(invalid_optional_stamp_tag("a_b"));
    assert!(invalid_optional_stamp_tag("2018010504094_initial"));
    assert!(!invalid_optional_stamp_tag("20180105040947-x"));
}

#[test]
fn new_migration_names() {
    let n = new_migration_name("create-users", 1704164645, 0).unwrap();
    assert_eq!(n, "20240102030405_create-users");
    assert!(!invalid_full_tag(&n));
    let e = new_migration_name("Bad Tag", 1704164645, 0).unwrap_err();
    match e.kind {
        ErrorKind::Migration(m) => assert_eq!(m, "Invalid tag `Bad Tag`. Tags can contain [a-z0-9-]"),
        other => panic!("unexpected kind {:?}", other),
    }
}

#[test]
fn new_migration_name_time_out_of_range() {
    let e = new_migration_name("create-users", i64::MAX, 0).unwrap_err();
    match e.kind {
        ErrorKind::Migration(m) => assert_eq!(m, "Timestamp out of range"),
        other => panic!("unexpected kind {:?}", other),
    }
}
