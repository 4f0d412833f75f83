use migrant_lib::drivers::mysql::{
    self, can_connect, fix_json_output, mysql_cmd_outcome, Row, ShellError, ShellOutput,
};
use migrant_lib::drivers::{fill_template, pg};
use migrant_lib::{Error, ErrorKind};

#[test]
fn templates_take_the_tag() {
    assert_eq!(
        fill_template("insert into __migrant_migrations (tag) values ('__VAL__');", "initial"),
        "insert into __migrant_migrations (tag) values ('initial');"
    );
    assert_eq!(pg::insert_migration_tag("a __VAL__ b __VAL__", "t"), "a t b t");
    assert_eq!(pg::remove_migration_tag("delete __VAL__", "alter1"), "delete alter1");
    assert_eq!(mysql::insert_migration_tag("ins '__VAL__'", "x"), "ins 'x'");
    assert_eq!(mysql::remove_migration_tag("del '__VAL__'", "y"), "del 'y'");
}

#[test]
fn psql_output_success_and_failure() {
    assert_eq!(pg::psql_output(true, b"t\n".to_vec(), b"").unwrap(), "t\n");
    let e = pg::psql_output(false, vec![], b"ERROR: boom").unwrap_err();
    match e.kind {
        ErrorKind::Migration(m) => assert_eq!(m, "Error executing statement, stderr: `ERROR: boom`"),
        other => panic!("unexpected kind {:?}", other),
    }
    assert!(matches!(pg::psql_output(true, vec![0xff], b"").unwrap_err().kind, ErrorKind::StringUtf8Error(_)));
    assert!(matches!(pg::psql_output(false, vec![], &[0xc3]).unwrap_err().kind, ErrorKind::StrUtf8Error(_)));
}

#[test]
fn psql_table_and_tags() {
    assert!(pg::migration_table_exists(" t\n"));
    assert!(!pg::migration_table_exists("f\n"));
    assert!(!pg::migration_table_exists(""));
    assert_eq!(pg::select_migrations("initial\nalter1\nalter2\n"), vec!["initial", "alter1", "alter2"]);
    assert!(pg::select_migrations("\n").is_empty());
}

#[test]
fn mysql_json_lines_become_an_array() {
    assert_eq!(fix_json_output(b"{\"a\":1}\n{\"b\":2}\n".to_vec()).unwrap(), "[{\"a\":1},{\"b\":2}]");
    assert_eq!(fix_json_output(b"".to_vec()).unwrap(), "[]");
    assert_eq!(fix_json_output(b"{\"a\":1},\n".to_vec()).unwrap(), "[{\"a\":1}]");
    assert!(matches!(fix_json_output(vec![0xff]).unwrap_err().kind, ErrorKind::StringUtf8Error(_)));
}

fn rows(tags: &[&str]) -> ShellOutput<String> {
    ShellOutput { rows: Some(tags.iter().map(|t| Row { tag: t.to_string() }).collect()), error: None }
}

#[test]
fn mysql_outcomes() {
    let err = ShellOutput::<String> {
        rows: None,
        error: Some(ShellError {
            code: 1064,
            message: "syntax".to_string(),
            state: "42000".to_string(),
            type_: "MySQL Error".to_string(),
        }),
    };
    let e = mysql_cmd_outcome(false, vec![ShellOutput { rows: None, error: None }, err.clone()], "bad").unwrap_err();
    match e.kind {
        ErrorKind::Migration(m) => assert_eq!(m, "Error executing statement. MySQL Error[code: 1064]: syntax"),
        other => panic!("unexpected kind {:?}", other),
    }
    let e = mysql_cmd_outcome::<String>(false, vec![], "q").unwrap_err();
    match e.kind {
        ErrorKind::ShellCommand(m) => assert_eq!(m, "Command exited in error with any output: \"q\""),
        other => panic!("unexpected kind {:?}", other),
    }
    let out = mysql_cmd_outcome(true, vec![ShellOutput { rows: None, error: None }, rows(&["a"]), rows(&["b"])], "q")
        .unwrap();
    assert_eq!(out.rows.unwrap()[0].tag, "a");
    let e = mysql_cmd_outcome::<String>(true, vec![], "").unwrap_err();
    assert!(e.is_shell_command_no_output());
    assert_eq!(e.to_string(), "ShellCommandNoOutput: No row output received from mysql command: \"\"");
}

#[test]
fn mysql_can_connect_decisions() {
    assert!(can_connect(Ok(rows(&[])), "c").unwrap());
    let none = Error::from_kind(ErrorKind::ShellCommandNoOutput("x".to_string()));
    assert!(can_connect(Err(none), "c").unwrap());
    let other = Error::from_kind(ErrorKind::ShellCommand("down".to_string()));
    let e = can_connect(Err(other), "mysql://u@h/db").unwrap_err();
    assert_eq!(e.to_string(), "Unable to connect to mysql database with conn str: \"mysql://u@h/db\"");
    assert_eq!(e.cause.unwrap().to_string(), "ShellCommandError: down");
}

#[test]
fn mysql_rows() {
    let one = ShellOutput::<u32> { rows: Some(vec![Row { tag: 1 }]), error: None };
    assert!(mysql::migration_table_exists(one).unwrap());
    let zero = ShellOutput::<u32> { rows: Some(vec![Row { tag: 0 }]), error: None };
    assert!(!mysql::migration_table_exists(zero).unwrap());
    let missing = ShellOutput::<u32> { rows: None, error: None };
    assert_eq!(
        mysql::migration_table_exists(missing).unwrap_err().to_string(),
        "ShellCommandError: Incomplete json output. Missing `rows`."
    );
    assert_eq!(mysql::select_migrations(rows(&["initial", "alter1"])).unwrap(), vec!["initial", "alter1"]);
    assert!(mysql::select_migrations(ShellOutput { rows: None, error: None }).is_err());
}

#[test]
fn psql_run_migration_depends_on_status_and_stderr() {
    assert!(pg::run_migration(true, b"").is_ok());
    assert!(pg::run_migration(true, &[0xff]).is_ok());
    let e = pg::run_migration(false, b"ERROR: x").unwrap_err();
    assert_eq!(e.to_string(), "MigrationError: Error executing statement, stderr: `ERROR: x`");
    assert!(matches!(pg::run_migration(false, &[0xff]).unwrap_err().kind, ErrorKind::StrUtf8Error(_)));
}

#[test]
fn shell_tool_arguments() {
    assert_eq!(
        pg::command_args("postgres://db", "select 1"),
        vec!["postgres://db", "-v", "ON_ERROR_STOP=1", "-t", "-A", "-F,", "-c", "select 1"]
    );
    assert_eq!(pg::file_args("c", "up.sql"), vec!["c", "-v", "ON_ERROR_STOP=1", "-f", "up.sql"]);
    assert_eq!(pg::connect_args("c"), vec!["c", "-c", ""]);
    assert_eq!(mysql::mysqlsh_args("m"), vec!["--json=raw", "--sql", "--classic", "--uri", "m"]);
}
