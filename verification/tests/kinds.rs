use migrant_lib::kinds::{DbKind, Direction};
use migrant_lib::ErrorKind;

#[test]
fn db_kind_names_read_back() {
    for k in [DbKind::Sqlite, DbKind::Postgres, DbKind::MySql] {
        assert_eq!(DbKind::parse(k.as_str()).unwrap(), k);
    }
    assert_eq!(DbKind::Sqlite.as_str(), "sqlite");
    assert_eq!(DbKind::Postgres.as_str(), "postgres");
    assert_eq!(DbKind::MySql.as_str(), "mysql");
}

#[test]
fn db_kind_from_str_trait() {
    let k: DbKind = "postgres".parse().unwrap();
    assert_eq!(k, DbKind::Postgres);
}

#[test]
fn db_kind_invalid_name() {
    let e = DbKind::parse("oracle").unwrap_err();
    match &e.kind {
        ErrorKind::InvalidDbKind(m) => assert_eq!(m, "Invalid Database Kind: oracle"),
        other => panic!("unexpected kind {:?}", other),
    }
    assert_eq!(e.to_string(), "InvalidDbKind: Invalid Database Kind: oracle");
    assert!(DbKind::parse("Sqlite").is_err());
    assert!(DbKind::parse("").is_err());
}

#[test]
fn direction_names() {
    assert_eq!(Direction::Up.as_str(), "Up");
    assert_eq!(Direction::Down.as_str(), "Down");
}
