use migrant_lib::cli::{
    edit_choice, encode, migration_status, read_selection, shell_command, EditChoice, NumberFault, Selection,
};
use migrant_lib::{DbKind, ErrorKind};

fn s(v: &[&str]) -> Vec<String> {
    v.iter().map(|x| x.to_string()).collect()
}

#[test]
fn status_marks_applied() {
    assert_eq!(migration_status(&s(&["a", "b", "c"]), &s(&["c", "a"])), vec![true, false, true]);
    assert!(migration_status(&[], &s(&["a"])).is_empty());
}

#[test]
fn edit_choices() {
    assert!(matches!(edit_choice(&[], "x").unwrap(), EditChoice::NothingAvailable));
    match edit_choice(&s(&["create-users", "alter"]), "zzz").unwrap_err().kind {
        ErrorKind::Config(m) => assert_eq!(m, "No migrations found with tag: zzz"),
        other => panic!("unexpected kind {:?}", other),
    }
    assert!(matches!(edit_choice(&s(&["create-users", "alter"]), "users").unwrap(), EditChoice::Only(0)));
    match edit_choice(&s(&["create-users", "alter", "users-index"]), "users").unwrap() {
        EditChoice::Choose(v) => assert_eq!(v, vec![0, 2]),
        other => panic!("unexpected choice {:?}", other),
    }
    assert!(matches!(edit_choice(&s(&["a", "b"]), "").unwrap(), EditChoice::Choose(_)));
}

#[test]
fn selections() {
    assert_eq!(read_selection(" 2\n", 3), Selection::Chosen(1));
    assert_eq!(read_selection("+1", 3), Selection::Chosen(0));
    assert_eq!(read_selection("0", 3), Selection::OutOfRange);
    assert_eq!(read_selection("4", 3), Selection::OutOfRange);
    assert_eq!(read_selection("", 3), Selection::NotANumber(NumberFault::Empty));
    assert_eq!(read_selection("x", 3), Selection::NotANumber(NumberFault::InvalidDigit));
    assert_eq!(read_selection("-1", 3), Selection::NotANumber(NumberFault::InvalidDigit));
    assert_eq!(read_selection("+", 3), Selection::NotANumber(NumberFault::InvalidDigit));
    assert_eq!(
        read_selection("99999999999999999999999", 3),
        Selection::NotANumber(NumberFault::PosOverflow)
    );
    for t in ["", "x", "+", "99999999999999999999999"] {
        let std_msg = t.parse::<usize>().unwrap_err().to_string();
        let ours = match read_selection(t, 3) {
            Selection::NotANumber(f) => f.message(),
            other => panic!("unexpected selection {:?}", other),
        };
        assert_eq!(ours, std_msg);
    }
}

#[test]
fn shell_commands() {
    let c = shell_command(DbKind::MySql, "mysql://u@h/db");
    assert_eq!(c.program, "mysqlsh");
    assert_eq!(c.args, vec!["--sql", "--uri", "mysql://u@h/db"]);
    let c = shell_command(DbKind::Sqlite, "db.db");
    assert_eq!(c.program, "sqlite3");
    assert_eq!(c.args, vec!["db.db"]);
    let c = shell_command(DbKind::Postgres, "postgres://x");
    assert_eq!(c.program, "psql");
    assert_eq!(c.unavailable, "Error running command `psql`. Is it available on your PATH?");
}

#[test]
fn percent_encoding() {
    assert_eq!(encode("foo bar?"), "foo%20bar%3F");
    assert_eq!(encode("p@ss/w0rd"), "p%40ss%2Fw0rd");
    assert_eq!(encode("\u{e9}"), "%C3%A9");
    assert_eq!(encode(""), "");
}

#[test]
fn selection_rows_show_stamp_and_tag() {
    let mig = migrant_lib::FileMigration {
        up: None,
        down: None,
        tag: "first".to_string(),
        stamp: Some((1577880000, 0)),
    };
    assert_eq!(migrant_lib::cli::selection_row(0, &mig).unwrap(), "    1) 20200101120000_first");
    assert_eq!(migrant_lib::cli::selection_row(9, &mig).unwrap(), "    10) 20200101120000_first");
}
