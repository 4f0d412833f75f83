use migrant_lib::{Error, ErrorKind};

#[test]
fn migration_complete_is_recognised() {
    let e = Error::from_kind(ErrorKind::MigrationComplete("done".to_string()));
    assert!(e.is_migration_complete());
    assert!(!e.is_shell_command_no_output());
    assert_eq!(e.to_string(), "MigrationComplete: done");
    let e = Error::from_kind(ErrorKind::Migration("boom".to_string()));
    assert!(!e.is_migration_complete());
    assert_eq!(e.to_string(), "MigrationError: boom");
}

#[test]
fn chained_error_keeps_cause() {
    let e = Error::from_kind(ErrorKind::ShellCommand("x".to_string()));
    let c = e.chain(ErrorKind::Msg("context".to_string()));
    assert_eq!(c.to_string(), "context");
    assert_eq!(c.cause.unwrap().to_string(), "ShellCommandError: x");
}
