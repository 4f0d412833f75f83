//! The decisions behind the operations on migration files: the status of
//! each migration, which migration to edit, the selection a user types, the
//! shell command for a database, and percent-encoding.
use vstd::prelude::*;
use vstd::string::*;
use crate::errors::{Error, ErrorKind};
use crate::kinds::DbKind;
use crate::discovery::{FileMigration, format_utc, opt_view, stamp_format, utc_format};
use crate::text::{
    decimal_text, decimal_usize, join3, contains_string, join2, matches_at, strings_view, string_from_chars, to_chars, trim, trim_spec,
};

verus! {

/// For each available migration, whether its tag has been applied.
pub fn migration_status(available: &[String], applied: &[String]) -> (r: Vec<bool>)
    ensures
        r@.len() == available@.len(),
        forall|i: int| 0 <= i < available@.len()
            ==> #[trigger] r@[i] == strings_view(applied@).contains(available@[i]@),
{
    let mut r: Vec<bool> = Vec::new();
    let mut i: usize = 0;
    while i < available.len()
        invariant
            i <= available@.len(),
            r@.len() == i,
            forall|j: int| 0 <= j < i ==> #[trigger] r@[j] == strings_view(applied@).contains(available@[j]@),
        decreases available@.len() - i,
    {
        r.push(contains_string(applied, available[i].as_str()));
        i = i + 1;
    }
    r
}

/// `p` stands somewhere in `s`.
pub open spec fn contains_text(s: Seq<char>, p: Seq<char>) -> bool {
    exists|i: int| 0 <= i && i + p.len() <= s.len() && #[trigger] s.subrange(i, i + p.len()) == p
}

/// Whether `p` stands somewhere in `s` (as `str::contains`).
pub fn str_contains(s: &str, p: &str) -> (r: bool)
    ensures
        r == contains_text(s@, p@),
{
    let cs = to_chars(s);
    let ps = to_chars(p);
    let mut i: usize = 0;
    while i < cs.len()
        invariant
            cs@ == s@,
            ps@ == p@,
            i <= cs@.len(),
            forall|j: int| 0 <= j < i && j + p@.len() <= s@.len() ==> #[trigger] s@.subrange(j, j + p@.len()) != p@,
        decreases cs@.len() - i,
    {
        if matches_at(&cs, i, &ps) {
            return true;
        }
        i = i + 1;
    }
    matches_at(&cs, i, &ps)
}

/// The line that shows the migration numbered `row + 1` when a user picks
/// one: `    <number>) <stamp>_<tag>`, the stamp written `%Y%m%d%H%M%S`;
/// `None` when chrono has no time for the stamp.
pub fn selection_row(row: usize, mig: &FileMigration) -> (r: Option<String>)
    requires
        row < usize::MAX,
        mig.stamp is Some,
    ensures
        match utc_format((mig.stamp->0).0, (mig.stamp->0).1, stamp_format()) {
            Some(t) => r matches Some(line) && line@ == "    "@ + decimal_text((row + 1) as nat) + ") "@ + t + "_"@ + mig.tag@,
            None => r is None,
        },
{
    let (secs, nanos) = match mig.stamp {
        Some(st) => st,
        None => (0, 0),
    };
    let text = match format_utc(secs, nanos, "%Y%m%d%H%M%S") {
        Some(t) => t,
        None => return None,
    };
    let line = join3("    ", decimal_usize(row + 1).as_str(), ") ");
    let line = line.concat(text.as_str()).concat("_").concat(mig.tag.as_str());
    Some(line)
}

/// Which migration to edit, among those whose tag contains the text given.
#[derive(Debug)]
pub enum EditChoice {
    /// No migration is available at all.
    NothingAvailable,
    /// Exactly one migration matches: the one at this index.
    Only(usize),
    /// Several migrations match, at these indices: the user picks one.
    Choose(Vec<usize>),
}

/// The indices of the tags that contain `tag`.
pub fn matching_tags(tags: &[String], tag: &str) -> (r: Vec<usize>)
    ensures
        forall|k: int| 0 <= k < r@.len() ==> #[trigger] r@[k] < tags@.len()
            && contains_text(tags@[r@[k] as int]@, tag@),
        forall|k: int, l: int| 0 <= k < l < r@.len() ==> #[trigger] r@[k] < #[trigger] r@[l],
        forall|i: int| 0 <= i < tags@.len() && #[trigger] contains_text(tags@[i]@, tag@) ==> r@.contains(i as usize),
{
    let mut r: Vec<usize> = Vec::new();
    let mut i: usize = 0;
    while i < tags.len()
        invariant
            i <= tags@.len(),
            forall|k: int| 0 <= k < r@.len() ==> #[trigger] r@[k] < i && contains_text(tags@[r@[k] as int]@, tag@),
            forall|k: int, l: int| 0 <= k < l < r@.len() ==> #[trigger] r@[k] < #[trigger] r@[l],
            forall|j: int| 0 <= j < i && #[trigger] contains_text(tags@[j]@, tag@) ==> r@.contains(j as usize),
        decreases tags@.len() - i,
    {
        let ghost before = r@;
        if str_contains(tags[i].as_str(), tag) {
            r.push(i);
            assert(r@[before.len() as int] == i);
            assert forall|j: int| 0 <= j < i + 1 && #[trigger] contains_text(tags@[j]@, tag@) implies r@.contains(j as usize) by {
                if j < i {
                    let k = before.index_of(j as usize);
                    assert(r@[k] == before[k]);
                }
            }
        }
        i = i + 1;
    }
    r
}

/// Which migration to edit: none when none is available; else an error of
/// kind `Config` when no tag contains `tag`, the one whose tag does when it
/// is one, and the list of them when they are several.
pub fn edit_choice(tags: &[String], tag: &str) -> (r: Result<EditChoice, Error>)
    ensures
        tags@.len() == 0 ==> r matches Ok(EditChoice::NothingAvailable),
        r matches Ok(EditChoice::NothingAvailable) ==> tags@.len() == 0,
        tags@.len() > 0 && (forall|i: int| 0 <= i < tags@.len() ==> !contains_text(#[trigger] tags@[i]@, tag@))
            ==> (r matches Err(e) && e.kind matches ErrorKind::Config(m) && m@ == "No migrations found with tag: "@ + tag@),
        r matches Ok(EditChoice::Only(i)) ==> i < tags@.len() && contains_text(tags@[i as int]@, tag@)
            && forall|j: int| 0 <= j < tags@.len() && j != i ==> !contains_text(#[trigger] tags@[j]@, tag@),
        r matches Ok(EditChoice::Choose(v)) ==> v@.len() > 1
            && (forall|k: int| 0 <= k < v@.len() ==> #[trigger] v@[k] < tags@.len() && contains_text(tags@[v@[k] as int]@, tag@))
            && (forall|k: int, l: int| 0 <= k < l < v@.len() ==> #[trigger] v@[k] < #[trigger] v@[l])
            && (forall|i: int| 0 <= i < tags@.len() && #[trigger] contains_text(tags@[i]@, tag@) ==> v@.contains(i as usize)),
        (exists|i: int| 0 <= i < tags@.len() && #[trigger] contains_text(tags@[i]@, tag@)) ==> r is Ok,
{
    if tags.len() == 0 {
        return Ok(EditChoice::NothingAvailable);
    }
    let found = matching_tags(tags, tag);
    if found.len() == 0 {
        proof {
            assert forall|i: int| 0 <= i < tags@.len() implies !contains_text(#[trigger] tags@[i]@, tag@) by {
                if contains_text(tags@[i]@, tag@) {
                    assert(found@.contains(i as usize));
                }
            }
        }
        return Err(Error::from_kind(ErrorKind::Config(join2("No migrations found with tag: ", tag))));
    }
    if found.len() == 1 {
        let i = found[0];
        proof {
            assert forall|j: int| 0 <= j < tags@.len() && j != i implies !contains_text(#[trigger] tags@[j]@, tag@) by {
                if contains_text(tags@[j]@, tag@) {
                    assert(found@.contains(j as usize));
                    let k = found@.index_of(j as usize);
                    assert(k == 0);
                }
            }
        }
        return Ok(EditChoice::Only(i));
    }
    assert(found@[0] < tags@.len());
    assert(contains_text(tags@[found@[0] as int]@, tag@));
    Ok(EditChoice::Choose(found))
}

/// Why a typed number is not read.
#[derive(Debug, Clone, Copy, PartialEq, Eq, Structural)]
pub enum NumberFault {
    Empty,
    InvalidDigit,
    PosOverflow,
}

pub open spec fn is_digit_char(c: char) -> bool {
    '0' <= c && c <= '9'
}

pub open spec fn digit_value(c: char) -> nat {
    (c as int - '0' as int) as nat
}

/// The digits of `s` from position `i` on, read after the value `acc`.
pub open spec fn read_digits(s: Seq<char>, i: int, acc: nat) -> Result<nat, NumberFault>
    decreases s.len() - i,
{
    if i >= s.len() || i < 0 {
        Ok(acc)
    } else if !is_digit_char(s[i]) {
        Err(NumberFault::InvalidDigit)
    } else if acc * 10 + digit_value(s[i]) > usize::MAX {
        Err(NumberFault::PosOverflow)
    } else {
        read_digits(s, i + 1, acc * 10 + digit_value(s[i]))
    }
}

/// What reading `s` as a `usize` gives (as `str::parse::<usize>`): an
/// optional `+`, then decimal digits.
pub open spec fn read_usize(s: Seq<char>) -> Result<nat, NumberFault> {
    if s.len() == 0 {
        Err(NumberFault::Empty)
    } else if (s[0] == '+' || s[0] == '-') && s.len() == 1 {
        Err(NumberFault::InvalidDigit)
    } else if s[0] == '+' {
        read_digits(s, 1, 0)
    } else {
        read_digits(s, 0, 0)
    }
}

proof fn lemma_read_digits_bound(s: Seq<char>, i: int, acc: nat)
    requires
        acc <= usize::MAX,
    ensures
        read_digits(s, i, acc) matches Ok(n) ==> n <= usize::MAX,
    decreases s.len() - i,
{
    if !(i >= s.len() || i < 0) && is_digit_char(s[i]) && acc * 10 + digit_value(s[i]) <= usize::MAX {
        lemma_read_digits_bound(s, i + 1, acc * 10 + digit_value(s[i]));
    }
}

/// Every character of `s` is a decimal digit.
pub open spec fn all_digits(s: Seq<char>) -> bool {
    forall|j: int| 0 <= j < s.len() ==> is_digit_char(#[trigger] s[j])
}

/// The number the decimal digits `s` write: each digit is worth ten times
/// the one after it.
pub open spec fn decimal_value(s: Seq<char>) -> nat
    decreases s.len(),
{
    if s.len() == 0 {
        0
    } else {
        decimal_value(s.drop_last()) * 10 + digit_value(s.last())
    }
}

/// `s` without the `+` it may start with.
pub open spec fn unsigned_body(s: Seq<char>) -> Seq<char> {
    if s.len() > 0 && s[0] == '+' { s.skip(1) } else { s }
}

proof fn lemma_decimal_prefix_le(s: Seq<char>, a: int, b: int)
    requires
        0 <= a <= b <= s.len(),
    ensures
        decimal_value(s.take(a)) <= decimal_value(s.take(b)),
    decreases b - a,
{
    if a < b {
        lemma_decimal_prefix_le(s, a, b - 1);
        assert(s.take(b).drop_last() =~= s.take(b - 1));
    }
}

proof fn lemma_read_digits_decimal(s: Seq<char>, start: int, i: int, acc: nat)
    requires
        0 <= start <= i <= s.len(),
        all_digits(s.subrange(start, s.len() as int)),
        acc == decimal_value(s.subrange(start, i)),
        acc <= usize::MAX,
    ensures
        decimal_value(s.subrange(start, s.len() as int)) <= usize::MAX
            ==> read_digits(s, i, acc) == Ok::<nat, NumberFault>(decimal_value(s.subrange(start, s.len() as int))),
        decimal_value(s.subrange(start, s.len() as int)) > usize::MAX
            ==> read_digits(s, i, acc) == Err::<nat, NumberFault>(NumberFault::PosOverflow),
    decreases s.len() - i,
{
    let t = s.subrange(start, s.len() as int);
    if i < s.len() {
        assert(t[i - start] == s[i]);
        assert(is_digit_char(s[i]));
        let next = s.subrange(start, i + 1);
        assert(next.drop_last() =~= s.subrange(start, i));
        assert(next.last() == s[i]);
        assert(t.take(i + 1 - start) =~= next);
        assert(t.take(t.len() as int) =~= t);
        lemma_decimal_prefix_le(t, i + 1 - start, t.len() as int);
        if acc * 10 + digit_value(s[i]) <= usize::MAX {
            lemma_read_digits_decimal(s, start, i + 1, acc * 10 + digit_value(s[i]));
        }
    } else {
        assert(s.subrange(start, i) =~= t);
    }
}

proof fn lemma_read_digits_ok_digits(s: Seq<char>, i: int, acc: nat)
    requires
        0 <= i <= s.len(),
        read_digits(s, i, acc) is Ok,
    ensures
        forall|j: int| i <= j < s.len() ==> is_digit_char(#[trigger] s[j]),
    decreases s.len() - i,
{
    if i < s.len() {
        lemma_read_digits_ok_digits(s, i + 1, acc * 10 + digit_value(s[i]));
    }
}

/// Reading a number gives the decimal value of its digits: `s` is read
/// exactly when, past an optional `+`, it is one or more decimal digits, and
/// then as the number they write in base ten. Digits that write a number
/// above `usize::MAX` are an overflow.
pub proof fn lemma_read_usize_is_decimal(s: Seq<char>)
    ensures
        read_usize(s) matches Ok(n) ==> (unsigned_body(s).len() > 0 && all_digits(unsigned_body(s))
            && n == decimal_value(unsigned_body(s))),
        (unsigned_body(s).len() > 0 && all_digits(unsigned_body(s)) && decimal_value(unsigned_body(s)) <= usize::MAX)
            ==> read_usize(s) == Ok::<nat, NumberFault>(decimal_value(unsigned_body(s))),
        (unsigned_body(s).len() > 0 && all_digits(unsigned_body(s)) && decimal_value(unsigned_body(s)) > usize::MAX)
            ==> read_usize(s) == Err::<nat, NumberFault>(NumberFault::PosOverflow),
{
    let start: int = if s.len() > 0 && s[0] == '+' { 1 } else { 0 };
    let b = unsigned_body(s);
    if s.len() > 0 {
        assert(b =~= s.subrange(start, s.len() as int));
        assert(s.subrange(start, start) =~= Seq::<char>::empty());
        if read_usize(s) is Ok {
            lemma_read_digits_ok_digits(s, start, 0);
            assert forall|j: int| 0 <= j < b.len() implies is_digit_char(#[trigger] b[j]) by {
                assert(b[j] == s[j + start]);
            }
        }
        if all_digits(b) && b.len() > 0 {
            if start == 0 {
                assert(is_digit_char(b[0]));
            }
            lemma_read_digits_decimal(s, start, start, 0);
        }
    }
}

fn read_digits_from(cs: &Vec<char>, start: usize) -> (r: Result<usize, NumberFault>)
    requires
        start <= cs@.len(),
    ensures
        match read_digits(cs@, start as int, 0) {
            Ok(n) => r == Ok::<usize, NumberFault>(n as usize),
            Err(f) => r == Err::<usize, NumberFault>(f),
        },
{
    let mut acc: usize = 0;
    let mut i: usize = start;
    while i < cs.len()
        invariant
            start <= i <= cs@.len(),
            read_digits(cs@, i as int, acc as nat) == read_digits(cs@, start as int, 0),
        decreases cs@.len() - i,
    {
        let c = cs[i];
        if !(c >= '0' && c <= '9') {
            return Err(NumberFault::InvalidDigit);
        }
        let d = (c as u32 - '0' as u32) as usize;
        assert(d as nat == digit_value(c));
        if acc > (usize::MAX - d) / 10 {
            assert(acc * 10 + d > usize::MAX) by (nonlinear_arith)
                requires acc > (usize::MAX - d) / 10, d <= 9;
            return Err(NumberFault::PosOverflow);
        }
        assert(acc * 10 + d <= usize::MAX) by (nonlinear_arith)
            requires acc <= (usize::MAX - d) / 10, d <= 9;
        acc = acc * 10 + d;
        i = i + 1;
    }
    Ok(acc)
}

/// Reads a `usize` from `s`.
pub fn parse_usize(s: &str) -> (r: Result<usize, NumberFault>)
    ensures
        read_usize(s@) matches Ok(n) ==> n <= usize::MAX,
        match read_usize(s@) {
            Ok(n) => r == Ok::<usize, NumberFault>(n as usize),
            Err(f) => r == Err::<usize, NumberFault>(f),
        },
{
    let cs = to_chars(s);
    proof {
        lemma_read_digits_bound(s@, 0, 0);
        lemma_read_digits_bound(s@, 1, 0);
    }
    if cs.len() == 0 {
        return Err(NumberFault::Empty);
    }
    if (cs[0] == '+' || cs[0] == '-') && cs.len() == 1 {
        return Err(NumberFault::InvalidDigit);
    }
    if cs[0] == '+' {
        read_digits_from(&cs, 1)
    } else {
        read_digits_from(&cs, 0)
    }
}

impl NumberFault {
    /// The message std gives for this fault.
    pub fn message(&self) -> (r: &'static str)
        ensures
            *self == NumberFault::Empty ==> r@ == "cannot parse integer from empty string"@,
            *self == NumberFault::InvalidDigit ==> r@ == "invalid digit found in string"@,
            *self == NumberFault::PosOverflow ==> r@ == "number too large to fit in target type"@,
    {
        match self {
            NumberFault::Empty => "cannot parse integer from empty string",
            NumberFault::InvalidDigit => "invalid digit found in string",
            NumberFault::PosOverflow => "number too large to fit in target type",
        }
    }
}

/// What a user typed to pick one of `max` migrations, numbered from 1.
#[derive(Debug, Clone, Copy, PartialEq, Eq, Structural)]
pub enum Selection {
    /// The migration at this index (the number typed, less one).
    Chosen(usize),
    /// Not a number.
    NotANumber(NumberFault),
    /// A number outside `1..=max`.
    OutOfRange,
}

/// Reads what a user typed, white space around it ignored, as the number of
/// one of `max` migrations.
pub fn read_selection(input: &str, max: usize) -> (r: Selection)
    ensures
        match read_usize(trim_spec(input@)) {
            Err(f) => r == Selection::NotANumber(f),
            Ok(n) => if 1 <= n <= max { r == Selection::Chosen((n - 1) as usize) } else { r == Selection::OutOfRange },
        },
{
    match parse_usize(trim(input)) {
        Err(f) => Selection::NotANumber(f),
        Ok(n) => if 1 <= n && n <= max { Selection::Chosen(n - 1) } else { Selection::OutOfRange },
    }
}

/// A database shell to start: the program, its arguments, and the message
/// for when it cannot be started.
#[derive(Debug)]
pub struct ShellCommand {
    pub program: String,
    pub args: Vec<String>,
    pub unavailable: String,
}

/// The shell for a database kind: `sqlite3` on the database file, `psql` or
/// `mysqlsh --sql --uri` on the connection string.
pub fn shell_command(kind: DbKind, target: &str) -> (r: ShellCommand)
    ensures
        kind == DbKind::Sqlite ==> r.program@ == "sqlite3"@ && strings_view(r.args@) == seq![target@]
            && r.unavailable@ == "Error running command `sqlite3`. Is it available on your PATH?"@,
        kind == DbKind::Postgres ==> r.program@ == "psql"@ && strings_view(r.args@) == seq![target@]
            && r.unavailable@ == "Error running command `psql`. Is it available on your PATH?"@,
        kind == DbKind::MySql ==> r.program@ == "mysqlsh"@
            && strings_view(r.args@) == seq!["--sql"@, "--uri"@, target@]
            && r.unavailable@ == "Error running command `mysqhlsh`. Is it available on your PATH?"@,
{
    let mut args: Vec<String> = Vec::new();
    match kind {
        DbKind::Sqlite => {
            args.push(String::from_str(target));
            assert(strings_view(args@) =~= seq![target@]);
            ShellCommand {
                program: String::from_str("sqlite3"),
                args,
                unavailable: String::from_str("Error running command `sqlite3`. Is it available on your PATH?"),
            }
        },
        DbKind::Postgres => {
            args.push(String::from_str(target));
            assert(strings_view(args@) =~= seq![target@]);
            ShellCommand {
                program: String::from_str("psql"),
                args,
                unavailable: String::from_str("Error running command `psql`. Is it available on your PATH?"),
            }
        },
        DbKind::MySql => {
            args.push(String::from_str("--sql"));
            args.push(String::from_str("--uri"));
            args.push(String::from_str(target));
            assert(strings_view(args@) =~= seq!["--sql"@, "--uri"@, target@]);
            ShellCommand {
                program: String::from_str("mysqlsh"),
                args,
                unavailable: String::from_str("Error running command `mysqhlsh`. Is it available on your PATH?"),
            }
        },
    }
}

/// An ASCII letter or digit.
pub open spec fn is_ascii_alnum(b: u8) -> bool {
    (48 <= b && b <= 57) || (65 <= b && b <= 90) || (97 <= b && b <= 122)
}

/// The upper-case hexadecimal digit `d`.
pub open spec fn hex_upper(d: nat) -> char {
    seq!['0', '1', '2', '3', '4', '5', '6', '7', '8', '9', 'A', 'B', 'C', 'D', 'E', 'F'][d as int]
}

/// A byte, percent-encoded: ASCII letters and digits stand for themselves,
/// every other byte is `%` and its two upper-case hexadecimal digits.
pub open spec fn encode_byte(b: u8) -> Seq<char> {
    if is_ascii_alnum(b) {
        seq![b as char]
    } else {
        seq!['%', hex_upper((b / 16) as nat), hex_upper((b % 16) as nat)]
    }
}

/// The bytes, percent-encoded one after another.
pub open spec fn percent_encoded(bs: Seq<u8>) -> Seq<char>
    decreases bs.len(),
{
    if bs.len() == 0 {
        Seq::empty()
    } else {
        percent_encoded(bs.drop_last()) + encode_byte(bs.last())
    }
}

fn hex_digit(d: u8) -> (c: char)
    requires
        d < 16,
    ensures
        c == hex_upper(d as nat),
{
    match d {
        0 => '0',
        1 => '1',
        2 => '2',
        3 => '3',
        4 => '4',
        5 => '5',
        6 => '6',
        7 => '7',
        8 => '8',
        9 => '9',
        10 => 'A',
        11 => 'B',
        12 => 'C',
        13 => 'D',
        14 => 'E',
        _ => 'F',
    }
}

/// Percent encode a string: the bytes of its UTF-8 encoding, every byte
/// that is not an ASCII letter or digit written `%XX`.
pub fn encode(s: &str) -> (r: String)
    ensures
        r@ == percent_encoded(s.spec_bytes()),
{
    let bytes = s.as_bytes();
    let mut out: Vec<char> = Vec::new();
    let mut i: usize = 0;
    while i < bytes.len()
        invariant
            bytes@ == s.spec_bytes(),
            i <= bytes@.len(),
            out@ == percent_encoded(bytes@.take(i as int)),
        decreases bytes@.len() - i,
    {
        let b = bytes[i];
        let ghost before = out@;
        if (48 <= b && b <= 57) || (65 <= b && b <= 90) || (97 <= b && b <= 122) {
            out.push(b as char);
        } else {
            out.push('%');
            out.push(hex_digit(b / 16));
            out.push(hex_digit(b % 16));
        }
        proof {
            assert(bytes@.take(i + 1).drop_last() =~= bytes@.take(i as int));
            assert(bytes@.take(i + 1).last() == b);
            assert(out@ =~= before + encode_byte(b));
        }
        i = i + 1;
    }
    assert(bytes@.take(bytes@.len() as int) =~= bytes@);
    string_from_chars(&out)
}

} // verus!
