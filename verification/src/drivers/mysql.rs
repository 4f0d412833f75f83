//! MySQL, through the `mysqlsh` shell tool in JSON mode: its output read
//! into results.
use vstd::prelude::*;
use vstd::string::*;
use vstd::utf8::{valid_utf8, decode_utf8};
use crate::errors::{Error, ErrorKind};
use crate::text::{
    debug_str, debug_text, decimal, decimal_text, join2, join3, lines, lines_spec, replaced, strings_view,
    string_from_chars, to_chars,
};
use super::{string_from_utf8, fill_template, placeholder};

verus! {

/// An error reported by `mysqlsh`.
#[derive(Debug, Clone)]
pub struct ShellError {
    pub code: u32,
    pub message: String,
    pub state: String,
    pub type_: String,
}

/// A row of a query's result: a single column, named `tag`.
#[derive(Debug, Clone)]
pub struct Row<T> {
    pub tag: T,
}

/// A chunk of `mysqlsh` JSON output: rows, an error, or neither.
#[derive(Debug, Clone)]
pub struct ShellOutput<T> {
    pub rows: Option<Vec<Row<T>>>,
    pub error: Option<ShellError>,
}

/// The lines, each followed by a comma.
pub open spec fn comma_joined(ls: Seq<Seq<char>>) -> Seq<char>
    decreases ls.len(),
{
    if ls.len() == 0 {
        Seq::empty()
    } else {
        comma_joined(ls.drop_last()) + ls.last().push(',')
    }
}

/// `s` without the commas at its end.
pub open spec fn strip_trailing_commas(s: Seq<char>) -> Seq<char>
    decreases s.len(),
{
    if s.len() > 0 && s.last() == ',' {
        strip_trailing_commas(s.drop_last())
    } else {
        s
    }
}

/// The JSON array that holds the JSON documents `mysqlsh` prints one per
/// line: `[`, the lines separated by commas (with the commas at the end of
/// the whole dropped), `]`.
pub open spec fn fixed_json(text: Seq<char>) -> Seq<char> {
    strip_trailing_commas(seq!['['] + comma_joined(lines_spec(text))) + seq![']']
}

/// The lines separated by commas: no comma before the first nor after the
/// last.
pub open spec fn comma_separated(ls: Seq<Seq<char>>) -> Seq<char>
    decreases ls.len(),
{
    if ls.len() == 0 {
        Seq::empty()
    } else if ls.len() == 1 {
        ls[0]
    } else {
        comma_separated(ls.drop_last()) + seq![','] + ls.last()
    }
}

proof fn lemma_comma_joined_separated(ls: Seq<Seq<char>>)
    requires
        ls.len() > 0,
    ensures
        comma_joined(ls) == comma_separated(ls).push(','),
    decreases ls.len(),
{
    if ls.len() == 1 {
        assert(ls.drop_last() =~= Seq::<Seq<char>>::empty());
        assert(comma_joined(ls.drop_last()) == Seq::<char>::empty());
        assert(ls.last() == ls[0]);
        assert(comma_joined(ls) =~= ls[0].push(','));
    } else {
        lemma_comma_joined_separated(ls.drop_last());
        assert(comma_joined(ls) =~= comma_separated(ls).push(','));
    }
}

/// Every line `mysqlsh` prints becomes an element of the array, in order:
/// no lines give `[]`, and lines of which the last is not empty and does not
/// end in a comma give `[`, the lines separated by commas, `]`.
pub proof fn lemma_fixed_json_holds_every_line(text: Seq<char>)
    ensures
        lines_spec(text).len() == 0 ==> fixed_json(text) == seq!['[', ']'],
        (lines_spec(text).len() > 0 && lines_spec(text).last().len() > 0 && lines_spec(text).last().last() != ',')
            ==> fixed_json(text) == seq!['['] + comma_separated(lines_spec(text)) + seq![']'],
{
    let ls = lines_spec(text);
    if ls.len() == 0 {
        assert(seq!['['] + comma_joined(ls) =~= seq!['[']);
        assert(fixed_json(text) =~= seq!['[', ']']);
    } else if ls.last().len() > 0 && ls.last().last() != ',' {
        lemma_comma_joined_separated(ls);
        let body = seq!['['] + comma_separated(ls);
        assert(seq!['['] + comma_joined(ls) =~= body.push(','));
        assert(body.push(',').drop_last() =~= body);
        if ls.len() == 1 {
            assert(body.last() == ls[0].last());
        } else {
            assert(body.last() == ls.last().last());
        }
        assert(strip_trailing_commas(body) == body);
    }
}

/// The output of `mysqlsh` made into one JSON array. Output that is not valid
/// UTF-8 is a `StringUtf8Error`.
pub fn fix_json_output(out: Vec<u8>) -> (r: Result<String, Error>)
    ensures
        valid_utf8(out@) ==> (r matches Ok(s) && s@ == fixed_json(decode_utf8(out@))),
        !valid_utf8(out@) ==> (r matches Err(e) && e.kind is StringUtf8Error),
{
    let ghost bytes = out@;
    let text = match string_from_utf8(out) {
        Err(e) => return Err(Error::from_kind(ErrorKind::StringUtf8Error(e.to_string()))),
        Ok(t) => t,
    };
    let ls = lines(text.as_str());
    let ghost lv = strings_view(ls@);
    let mut acc: Vec<char> = Vec::new();
    acc.push('[');
    let mut k: usize = 0;
    while k < ls.len()
        invariant
            lv == strings_view(ls@),
            k <= ls@.len(),
            acc@ == seq!['['] + comma_joined(lv.take(k as int)),
        decreases ls@.len() - k,
    {
        let cs = to_chars(ls[k].as_str());
        let ghost before = acc@;
        let mut j: usize = 0;
        while j < cs.len()
            invariant
                j <= cs@.len(),
                acc@ == before + cs@.take(j as int),
            decreases cs@.len() - j,
        {
            acc.push(cs[j]);
            j = j + 1;
            assert(acc@ =~= before + cs@.take(j as int));
        }
        acc.push(',');
        proof {
            assert(cs@.take(cs@.len() as int) =~= cs@);
            assert(lv.take(k + 1).drop_last() =~= lv.take(k as int));
            assert(lv.take(k + 1).last() == lv[k as int]);
            assert(lv[k as int] == cs@);
            assert(acc@ =~= seq!['['] + comma_joined(lv.take(k + 1)));
        }
        k = k + 1;
    }
    assert(lv.take(ls@.len() as int) =~= lv);
    let ghost full = acc@;
    while acc.len() > 0 && acc[acc.len() - 1] == ','
        invariant
            strip_trailing_commas(acc@) == strip_trailing_commas(full),
        decreases acc@.len(),
    {
        let ghost a = acc@;
        acc.pop();
        assert(acc@ =~= a.drop_last());
    }
    acc.push(']');
    Ok(string_from_chars(&acc))
}

/// The text of an error reported by `mysqlsh`.
pub open spec fn shell_error_text(err: ShellError) -> Seq<char> {
    "Error executing statement. "@ + err.type_@ + "[code: "@ + decimal_text(err.code as nat) + "]: "@
        + err.message@
}

/// `i` is the first chunk that reports an error.
pub open spec fn is_first_error<T>(chunks: Seq<ShellOutput<T>>, i: int) -> bool {
    &&& 0 <= i < chunks.len()
    &&& chunks[i].error is Some
    &&& forall|j: int| 0 <= j < i ==> (#[trigger] chunks[j]).error is None
}

/// `i` is the first chunk that holds rows.
pub open spec fn is_first_rows<T>(chunks: Seq<ShellOutput<T>>, i: int) -> bool {
    &&& 0 <= i < chunks.len()
    &&& chunks[i].rows is Some
    &&& forall|j: int| 0 <= j < i ==> (#[trigger] chunks[j]).rows is None
}

fn error_text(err: &ShellError) -> (r: String)
    ensures
        r@ == shell_error_text(*err),
{
    let s = join3("Error executing statement. ", err.type_.as_str(), "[code: ");
    let s = s.concat(decimal(err.code).as_str());
    s.concat("]: ").concat(err.message.as_str())
}

/// What a `mysqlsh` command gives, from its exit status and its output read
/// as JSON chunks. On failure: a `Migration` error with the first error a
/// chunk reports, else a `ShellCommand` error. On success: the first chunk
/// that holds rows, else a `ShellCommandNoOutput` error.
pub fn mysql_cmd_outcome<T>(success: bool, chunks: Vec<ShellOutput<T>>, cmd: &str) -> (r: Result<ShellOutput<T>, Error>)
    ensures
        !success ==> (if exists|i: int| is_first_error(chunks@, i) {
            let i = choose|i: int| is_first_error(chunks@, i);
            r matches Err(e) && e.kind matches ErrorKind::Migration(m)
                && m@ == shell_error_text(chunks@[i].error->0)
        } else {
            r matches Err(e) && e.kind matches ErrorKind::ShellCommand(m)
                && m@ == "Command exited in error with any output: "@ + debug_text(cmd@)
        }),
        success ==> (if exists|i: int| is_first_rows(chunks@, i) {
            let i = choose|i: int| is_first_rows(chunks@, i);
            r == Ok::<ShellOutput<T>, Error>(chunks@[i])
        } else {
            r matches Err(e) && e.kind matches ErrorKind::ShellCommandNoOutput(m)
                && m@ == "No row output received from mysql command: "@ + debug_text(cmd@)
        }),
{
    let ghost cv = chunks@;
    if !success {
        let mut i: usize = 0;
        while i < chunks.len()
            invariant
                !success,
                cv == chunks@,
                i <= cv.len(),
                forall|j: int| 0 <= j < i ==> (#[trigger] cv[j]).error is None,
            decreases cv.len() - i,
        {
            match &chunks[i].error {
                Some(err) => {
                    proof {
                        assert(is_first_error(cv, i as int));
                        let c = choose|c: int| is_first_error(cv, c);
                        if c < i { assert(cv[c].error is None); }
                        if i < c { assert(cv[i as int].error is None); }
                    }
                    let m = error_text(err);
                    return Err(Error::from_kind(ErrorKind::Migration(m)));
                },
                None => {},
            }
            i = i + 1;
        }
        let m = join2("Command exited in error with any output: ", debug_str(cmd).as_str());
        return Err(Error::from_kind(ErrorKind::ShellCommand(m)));
    }
    let mut owned = chunks;
    let mut i: usize = 0;
    while i < owned.len()
        invariant
            success,
            cv == chunks@,
            cv == owned@,
            i <= cv.len(),
            forall|j: int| 0 <= j < i ==> (#[trigger] cv[j]).rows is None,
        decreases cv.len() - i,
    {
        if owned[i].rows.is_some() {
            proof {
                assert(is_first_rows(cv, i as int));
                let c = choose|c: int| is_first_rows(cv, c);
                if c < i { assert(cv[c].rows is None); }
                if i < c { assert(cv[i as int].rows is None); }
            }
            let chunk = owned.swap_remove(i);
            return Ok(chunk);
        }
        i = i + 1;
    }
    let m = join2("No row output received from mysql command: ", debug_str(cmd).as_str());
    Err(Error::from_kind(ErrorKind::ShellCommandNoOutput(m)))
}

/// Whether the database can be reached, from the outcome of an empty
/// command: success, or success without row output, means it can; any other
/// error is returned, chained with a message that names the connection.
pub fn can_connect(outcome: Result<ShellOutput<String>, Error>, conn_str: &str) -> (r: Result<bool, Error>)
    ensures
        match outcome {
            Ok(_) => r == Ok::<bool, Error>(true),
            Err(e) => if e.kind is ShellCommandNoOutput {
                r == Ok::<bool, Error>(true)
            } else {
                r matches Err(c) && c.kind matches ErrorKind::Msg(m)
                    && m@ == "Unable to connect to mysql database with conn str: "@ + debug_text(conn_str@)
                    && c.cause == Some(Box::new(e))
            },
        },
{
    match outcome {
        Ok(_) => Ok(true),
        Err(e) => {
            if e.is_shell_command_no_output() {
                return Ok(true);
            }
            let m = join2("Unable to connect to mysql database with conn str: ", debug_str(conn_str).as_str());
            Err(e.chain(ErrorKind::Msg(m)))
        },
    }
}

/// The error for output that lacks its rows.
pub open spec fn is_missing_rows_error(e: Error) -> bool {
    e.kind matches ErrorKind::ShellCommand(m) && m@ == "Incomplete json output. Missing `rows`."@
}

fn missing_rows() -> (e: Error)
    ensures
        is_missing_rows_error(e),
{
    Error::from_kind(ErrorKind::ShellCommand(String::from_str("Incomplete json output. Missing `rows`.")))
}

/// Whether the migration table exists, from the output of the query that
/// checks it: its single row holds 1.
pub fn migration_table_exists(out: ShellOutput<u32>) -> (r: Result<bool, Error>)
    requires
        out.rows matches Some(rows) ==> rows@.len() == 1,
    ensures
        match out.rows {
            None => r matches Err(e) && is_missing_rows_error(e),
            Some(rows) => r == Ok::<bool, Error>(rows@[0].tag == 1),
        },
{
    match &out.rows {
        None => Err(missing_rows()),
        Some(rows) => Ok(rows[0].tag == 1),
    }
}

/// The applied tags, from the output of the query that selects them.
pub fn select_migrations(out: ShellOutput<String>) -> (r: Result<Vec<String>, Error>)
    ensures
        match out.rows {
            None => r matches Err(e) && is_missing_rows_error(e),
            Some(rows) => r matches Ok(tags) && tags@.len() == rows@.len()
                && forall|i: int| 0 <= i < rows@.len() ==> (#[trigger] tags@[i])@ == rows@[i].tag@,
        },
{
    match &out.rows {
        None => Err(missing_rows()),
        Some(rows) => {
            let mut tags: Vec<String> = Vec::new();
            let mut i: usize = 0;
            while i < rows.len()
                invariant
                    i <= rows@.len(),
                    tags@.len() == i,
                    forall|j: int| 0 <= j < i ==> (#[trigger] tags@[j])@ == rows@[j].tag@,
                decreases rows@.len() - i,
            {
                tags.push(rows[i].tag.clone());
                i = i + 1;
            }
            Ok(tags)
        },
    }
}

/// The statement that records `tag` as applied: the insert template with
/// its placeholder replaced by the tag.
pub fn insert_migration_tag(template: &str, tag: &str) -> (r: String)
    ensures
        r@ == replaced(template@, placeholder(), tag@),
{
    fill_template(template, tag)
}

/// The statement that removes `tag` from the applied tags: the delete
/// template with its placeholder replaced by the tag.
pub fn remove_migration_tag(template: &str, tag: &str) -> (r: String)
    ensures
        r@ == replaced(template@, placeholder(), tag@),
{
    fill_template(template, tag)
}

/// The arguments of `mysqlsh` for running statements read from its input on
/// a database: raw JSON output, SQL mode, classic session.
pub fn mysqlsh_args(conn_str: &str) -> (r: Vec<String>)
    ensures
        strings_view(r@) == seq!["--json=raw"@, "--sql"@, "--classic"@, "--uri"@, conn_str@],
{
    let mut v: Vec<String> = Vec::new();
    v.push(String::from_str("--json=raw"));
    v.push(String::from_str("--sql"));
    v.push(String::from_str("--classic"));
    v.push(String::from_str("--uri"));
    v.push(String::from_str(conn_str));
    assert(strings_view(v@) =~= seq!["--json=raw"@, "--sql"@, "--classic"@, "--uri"@, conn_str@]);
    v
}

} // verus!
