//! Postgres, through the `psql` shell tool: its output read into results.
use vstd::prelude::*;
use vstd::string::*;
use vstd::utf8::{valid_utf8, decode_utf8};
use crate::errors::{Error, ErrorKind};
use crate::text::{join3, trim, trim_spec, lines, lines_spec, strings_view, replaced, str_eq};
use super::{str_from_utf8, string_from_utf8, fill_template, placeholder};

verus! {

/// What a `psql` command gives, from its exit status and its output: its
/// standard output as text on success; else a `Migration` error that quotes
/// its error output. Output that is not valid UTF-8 is an error of its own.
pub fn psql_output(success: bool, stdout: Vec<u8>, stderr: &[u8]) -> (r: Result<String, Error>)
    ensures
        success && valid_utf8(stdout@) ==> (r matches Ok(s) && s@ == decode_utf8(stdout@)),
        success && !valid_utf8(stdout@) ==> (r matches Err(e) && e.kind is StringUtf8Error),
        !success && valid_utf8(stderr@) ==> (r matches Err(e) && e.kind matches ErrorKind::Migration(m)
            && m@ == "Error executing statement, stderr: `"@ + decode_utf8(stderr@) + "`"@),
        !success && !valid_utf8(stderr@) ==> (r matches Err(e) && e.kind is StrUtf8Error),
{
    if !success {
        return Err(psql_failure(stderr));
    }
    match string_from_utf8(stdout) {
        Err(e) => Err(Error::from_kind(ErrorKind::StringUtf8Error(e.to_string()))),
        Ok(text) => Ok(text),
    }
}

/// Whether the migration table exists, from what `psql` printed for the
/// query that checks it: `t`, give or take white space.
pub fn migration_table_exists(stdout: &str) -> (r: bool)
    ensures
        r == (trim_spec(stdout@) == "t"@),
{
    str_eq(trim(stdout), "t")
}

/// The applied tags, from what `psql` printed for the query that selects
/// them: one per line, without white space around the whole output.
pub fn select_migrations(stdout: &str) -> (r: Vec<String>)
    ensures
        strings_view(r@) == lines_spec(trim_spec(stdout@)),
{
    lines(trim(stdout))
}

/// The statement that records `tag` as applied: the insert template with
/// its placeholder replaced by the tag.
pub fn insert_migration_tag(template: &str, tag: &str) -> (r: String)
    ensures
        r@ == replaced(template@, placeholder(), tag@),
{
    fill_template(template, tag)
}

/// The statement that removes `tag` from the applied tags: the delete
/// template with its placeholder replaced by the tag.
pub fn remove_migration_tag(template: &str, tag: &str) -> (r: String)
    ensures
        r@ == replaced(template@, placeholder(), tag@),
{
    fill_template(template, tag)
}

/// The error for a failed `psql` command: a `Migration` error that quotes
/// its error output, or an error of its own when that output is not UTF-8.
fn psql_failure(stderr: &[u8]) -> (e: Error)
    ensures
        valid_utf8(stderr@) ==> (e.kind matches ErrorKind::Migration(m)
            && m@ == "Error executing statement, stderr: `"@ + decode_utf8(stderr@) + "`"@),
        !valid_utf8(stderr@) ==> e.kind is StrUtf8Error,
{
    match str_from_utf8(stderr) {
        Err(e) => Error::from_kind(ErrorKind::StrUtf8Error(e.to_string())),
        Ok(text) => {
            let m = join3("Error executing statement, stderr: `", text, "`");
            Error::from_kind(ErrorKind::Migration(m))
        },
    }
}

/// The result of applying a migration file with `psql`, from its exit
/// status and its error output: success when `psql` succeeded; else a
/// `Migration` error that quotes its error output (an error of its own when
/// that output is not UTF-8). What `psql` prints on its standard output does
/// not count.
pub fn run_migration(success: bool, stderr: &[u8]) -> (r: Result<(), Error>)
    ensures
        success ==> r == Ok::<(), Error>(()),
        !success && valid_utf8(stderr@) ==> (r matches Err(e) && e.kind matches ErrorKind::Migration(m)
            && m@ == "Error executing statement, stderr: `"@ + decode_utf8(stderr@) + "`"@),
        !success && !valid_utf8(stderr@) ==> (r matches Err(e) && e.kind is StrUtf8Error),
{
    if success {
        Ok(())
    } else {
        Err(psql_failure(stderr))
    }
}

/// The arguments of `psql` for running one command on a database: stop on
/// the first error, print tuples only, unaligned, comma separated.
pub fn command_args(conn_str: &str, cmd: &str) -> (r: Vec<String>)
    ensures
        strings_view(r@) == seq![conn_str@, "-v"@, "ON_ERROR_STOP=1"@, "-t"@, "-A"@, "-F,"@, "-c"@, cmd@],
{
    let mut v: Vec<String> = Vec::new();
    v.push(String::from_str(conn_str));
    v.push(String::from_str("-v"));
    v.push(String::from_str("ON_ERROR_STOP=1"));
    v.push(String::from_str("-t"));
    v.push(String::from_str("-A"));
    v.push(String::from_str("-F,"));
    v.push(String::from_str("-c"));
    v.push(String::from_str(cmd));
    assert(strings_view(v@) =~= seq![conn_str@, "-v"@, "ON_ERROR_STOP=1"@, "-t"@, "-A"@, "-F,"@, "-c"@, cmd@]);
    v
}

/// The arguments of `psql` for applying a migration file, stopping on the
/// first error.
pub fn file_args(conn_str: &str, filename: &str) -> (r: Vec<String>)
    ensures
        strings_view(r@) == seq![conn_str@, "-v"@, "ON_ERROR_STOP=1"@, "-f"@, filename@],
{
    let mut v: Vec<String> = Vec::new();
    v.push(String::from_str(conn_str));
    v.push(String::from_str("-v"));
    v.push(String::from_str("ON_ERROR_STOP=1"));
    v.push(String::from_str("-f"));
    v.push(String::from_str(filename));
    assert(strings_view(v@) =~= seq![conn_str@, "-v"@, "ON_ERROR_STOP=1"@, "-f"@, filename@]);
    v
}

/// The arguments of `psql` for checking that a database can be reached: an
/// empty command.
pub fn connect_args(conn_str: &str) -> (r: Vec<String>)
    ensures
        strings_view(r@) == seq![conn_str@, "-c"@, ""@],
{
    let mut v: Vec<String> = Vec::new();
    v.push(String::from_str(conn_str));
    v.push(String::from_str("-c"));
    v.push(String::from_str(""));
    assert(strings_view(v@) =~= seq![conn_str@, "-c"@, ""@]);
    v
}

} // verus!
