use migrant_lib::discovery::{search_for_migrations_checked, split_stamp_tag, stamped_migration};
use migrant_lib::{search_for_migrations, ErrorKind, SqlFileEntry};

fn entry(dir_name: &str, stem: &str) -> SqlFileEntry {
    SqlFileEntry {
        extension: Some("sql".to_string()),
        dir: format!("migrations/{}", dir_name),
        dir_name: Some(dir_name.to_string()),
        stem: Some(stem.to_string()),
        path: format!("migrations/{}/{}.sql", dir_name, stem),
    }
}

#[test]
fn migrations_come_out_in_chronological_order() {
    let entries = vec![
        entry("20200102000000_second", "up"),
        entry("20200101120000_first", "down"),
        entry("20200102000000_second", "down"),
        entry("20200101120000_first", "up"),
        SqlFileEntry {
            extension: Some("md".to_string()),
            dir: "migrations".to_string(),
            dir_name: Some("migrations".to_string()),
            stem: Some("README".to_string()),
            path: "migrations/README.md".to_string(),
        },
        SqlFileEntry {
            extension: None,
            dir: "migrations".to_string(),
            dir_name: Some("migrations".to_string()),
            stem: Some("20200101120000_first".to_string()),
            path: "migrations/20200101120000_first".to_string(),
        },
    ];
    let found = search_for_migrations(entries).unwrap();
    assert_eq!(found.len(), 2);
    assert_eq!(found[0].tag, "first");
    assert_eq!(found[0].stamp, Some((1577880000, 0)));
    assert_eq!(found[0].up.as_deref(), Some("migrations/20200101120000_first/up.sql"));
    assert_eq!(found[0].down.as_deref(), Some("migrations/20200101120000_first/down.sql"));
    assert_eq!(found[1].tag, "second");
    assert_eq!(found[1].stamp, Some((1577923200, 0)));
}

#[test]
fn no_sql_files_means_no_migrations() {
    assert!(search_for_migrations(vec![]).unwrap().is_empty());
}

#[test]
fn tag_is_the_second_underscore_piece() {
    let found = search_for_migrations(vec![
        entry("20200101120000_create_users", "up"),
        entry("20200101120000_create_users", "down"),
    ])
    .unwrap();
    assert_eq!(found[0].tag, "create");
    assert_eq!(
        split_stamp_tag("20200101120000_create_users"),
        Some(("20200101120000".to_string(), "create".to_string()))
    );
    assert_eq!(split_stamp_tag("abc_"), Some(("abc".to_string(), "".to_string())));
    assert_eq!(split_stamp_tag("nounderscore"), None);
}

fn kind_of(entries: Vec<SqlFileEntry>) -> ErrorKind {
    search_for_migrations(entries).unwrap_err().kind
}

#[test]
fn missing_down_file() {
    match kind_of(vec![entry("20200101120000_first", "up")]) {
        ErrorKind::MigrationNotFound(m) => assert_eq!(m, "Down migration not found for tag: first"),
        other => panic!("unexpected kind {:?}", other),
    }
    match kind_of(vec![entry("20200101120000_first", "down")]) {
        ErrorKind::MigrationNotFound(m) => assert_eq!(m, "Up migration not found for tag: first"),
        other => panic!("unexpected kind {:?}", other),
    }
}

#[test]
fn bad_directory_names() {
    match kind_of(vec![entry("nostamp", "up")]) {
        ErrorKind::TagError(m) => assert_eq!(m, "Invalid tag format: \"nostamp\", must follow `<timestamp>_<tag>`"),
        other => panic!("unexpected kind {:?}", other),
    }
    let e = search_for_migrations(vec![entry("2020_first", "up")]).unwrap_err();
    match &e.kind {
        ErrorKind::TagError(m) => assert_eq!(
            m,
            "Invalid timestamp format \"2020\", on tag: \"2020_first\", must follow `%Y%m%d%H%M%S`"
        ),
        other => panic!("unexpected kind {:?}", other),
    }
    assert!(matches!(e.cause.as_ref().unwrap().kind, ErrorKind::ChronoParse(_)));
    let mut no_name = entry("x", "up");
    no_name.dir_name = None;
    match kind_of(vec![no_name]) {
        ErrorKind::PathError(m) => assert_eq!(m, "Error extracting file-name from: \"migrations/x\""),
        other => panic!("unexpected kind {:?}", other),
    }
    let mut no_stem = entry("20200101120000_first", "up");
    no_stem.stem = None;
    match kind_of(vec![no_stem, entry("20200101120000_first", "down")]) {
        ErrorKind::PathError(m) => assert_eq!(m, "Error extracting file-stem from: \"20200101120000_first\""),
        other => panic!("unexpected kind {:?}", other),
    }
}

#[test]
fn leap_second_comes_after_the_second_before() {
    let found = search_for_migrations(vec![
        entry("20161231235960_leap", "up"),
        entry("20161231235960_leap", "down"),
        entry("20161231235959_before", "up"),
        entry("20161231235959_before", "down"),
    ])
    .unwrap();
    assert_eq!(found[0].tag, "before");
    assert_eq!(found[1].tag, "leap");
    assert_eq!(found[0].stamp.unwrap().0, found[1].stamp.unwrap().0);
    assert!(found[1].stamp.unwrap().1 >= 1_000_000_000);
}

#[test]
fn stamped_migration_decisions() {
    let m = stamped_migration(
        "20200101120000_a",
        "20200101120000",
        "a".to_string(),
        Ok((5, 0)),
        Some("u".to_string()),
        Some("d".to_string()),
        false,
    )
    .unwrap();
    assert_eq!(m.stamp, Some((5, 0)));
    assert_eq!(m.up.as_deref(), Some("u"));
    let e = stamped_migration("x_a", "x", "a".to_string(), Err("bad".to_string()), None, None, false).unwrap_err();
    assert_eq!(
        e.to_string(),
        "TagError: Invalid timestamp format \"x\", on tag: \"x_a\", must follow `%Y%m%d%H%M%S`"
    );
    assert_eq!(e.cause.unwrap().to_string(), "bad");
    let e = stamped_migration("n", "s", "a".to_string(), Ok((1, 0)), Some("u".to_string()), None, false)
        .unwrap_err();
    assert_eq!(e.to_string(), "MigrationNotFound: Down migration not found for tag: a");
    let e = stamped_migration("n", "s", "a".to_string(), Ok((1, 0)), None, None, true).unwrap_err();
    assert_eq!(e.to_string(), "PathError: Error extracting file-stem from: \"n\"");
}

#[test]
fn badly_named_directory_with_other_sql_file() {
    match kind_of(vec![entry("nostamp", "notes")]) {
        ErrorKind::TagError(m) => assert_eq!(m, "Invalid tag format: \"nostamp\", must follow `<timestamp>_<tag>`"),
        other => panic!("unexpected kind {:?}", other),
    }
    match kind_of(vec![entry("2020_first", "notes")]) {
        ErrorKind::TagError(m) => assert!(m.starts_with("Invalid timestamp format \"2020\"")),
        other => panic!("unexpected kind {:?}", other),
    }
}

#[test]
fn checked_search_refuses_other_sql_file_in_timestamped_directory() {
    let entries = vec![
        entry("20200101120000_first", "up"),
        entry("20200101120000_first", "notes"),
        entry("20200101120000_first", "down"),
    ];
    assert!(search_for_migrations_checked(entries).is_none());
    let mut no_stem = entry("20200101120000_first", "up");
    no_stem.stem = None;
    let entries = vec![no_stem, entry("20200101120000_first", "notes")];
    match search_for_migrations_checked(entries) {
        Some(Err(e)) => assert!(matches!(e.kind, ErrorKind::PathError(_))),
        other => panic!("unexpected result {:?}", other),
    }
    let entries = vec![entry("nostamp", "notes"), entry("20200101120000_first", "up"), entry("20200101120000_first", "down")];
    assert!(matches!(search_for_migrations_checked(entries), Some(Err(_))));
    let entries = vec![entry("20200101120000_first", "up"), entry("20200101120000_first", "down")];
    let found = search_for_migrations_checked(entries).unwrap().unwrap();
    assert_eq!(found.len(), 1);
    assert_eq!(found[0].tag, "first");
}
