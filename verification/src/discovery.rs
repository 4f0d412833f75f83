//! Migrations found as files: `.sql` files grouped by their directory, whose
//! name is `<timestamp>_<tag>`, each directory holding an `up` and a `down`
//! file; the migrations come out in chronological order.
use vstd::prelude::*;
use vstd::string::*;
use vstd::multiset::Multiset;
use chrono::TimeZone;
use crate::errors::{Error, ErrorKind};
use crate::text::{debug_str, debug_text, first_pos_of, lemma_first_pos_of_unique, str_eq, join2, join3};

verus! {

broadcast use vstd::seq_lib::group_to_multiset_ensures;

#[verifier::external_type_specification]
#[verifier::external_body]
pub struct ExChronoParseError(chrono::ParseError);

/// The UTC time that chrono reads from `s` with the format `fmt`, if it reads
/// one: seconds since the epoch, and nanoseconds within the second (from one
/// billion on for a leap second).
pub uninterp spec fn utc_timestamp(s: Seq<char>, fmt: Seq<char>) -> Option<(i64, u32)>;

/// Calls chrono's `TimeZone::datetime_from_str` on `Utc` and takes the
/// timestamp of the time read, with its nanoseconds. Claims that whether it succeeds, and the time
/// it reads, depend on `s` and `fmt` alone (named `utc_timestamp`); nothing
/// is said of the error.
#[verifier::external_body]
#[allow(deprecated)]
fn datetime_from_str_utc(s: &str, fmt: &str) -> (r: Result<(i64, u32), chrono::ParseError>)
    ensures
        (r is Ok) == (utc_timestamp(s@, fmt@) is Some),
        r matches Ok(t) ==> utc_timestamp(s@, fmt@) == Some(t),
{
    match chrono::Utc.datetime_from_str(s, fmt) {
        Ok(d) => Ok((d.timestamp(), d.timestamp_subsec_nanos())),
        Err(e) => Err(e),
    }
}

/// The text chrono writes for the UTC time `secs` seconds and `nanos`
/// nanoseconds after the epoch with the format `fmt`, if that time exists.
pub uninterp spec fn utc_format(secs: i64, nanos: u32, fmt: Seq<char>) -> Option<Seq<char>>;

/// Calls chrono's `TimeZone::timestamp_opt` on `Utc` and, when it gives a
/// single time, `DateTime::format` and `to_string`, with the timestamp
/// format (which is valid, so formatting does not fail). Claims that the
/// result depends on the arguments alone (named `utc_format`).
#[verifier::external_body]
pub(crate) fn format_utc(secs: i64, nanos: u32, fmt: &str) -> (r: Option<String>)
    requires
        fmt@ == stamp_format(),
    ensures
        opt_view(r) == utc_format(secs, nanos, fmt@),
{
    match chrono::Utc.timestamp_opt(secs, nanos).single() {
        Some(d) => Some(d.format(fmt).to_string()),
        None => None,
    }
}

/// The format of the timestamp that starts a migration directory's name.
pub open spec fn stamp_format() -> Seq<char> {
    "%Y%m%d%H%M%S"@
}

/// A file found under the migration directory, as plain text: its
/// extension, its directory as displayed, the last component of that
/// directory and its own name without extension (`None` where these are not
/// valid text), and its path.
#[derive(Debug, Clone)]
pub struct SqlFileEntry {
    pub extension: Option<String>,
    pub dir: String,
    pub dir_name: Option<String>,
    pub stem: Option<String>,
    pub path: String,
}

pub struct EntryView {
    pub extension: Option<Seq<char>>,
    pub dir: Seq<char>,
    pub dir_name: Option<Seq<char>>,
    pub stem: Option<Seq<char>>,
    pub path: Seq<char>,
}

pub open spec fn opt_view(o: Option<String>) -> Option<Seq<char>> {
    match o {
        Some(s) => Some(s@),
        None => None,
    }
}

impl View for SqlFileEntry {
    type V = EntryView;

    open spec fn view(&self) -> EntryView {
        EntryView {
            extension: opt_view(self.extension),
            dir: self.dir@,
            dir_name: opt_view(self.dir_name),
            stem: opt_view(self.stem),
            path: self.path@,
        }
    }
}

/// A migration kept as files: the paths of its up and down files, its tag
/// and its timestamp (seconds since the epoch, UTC, and nanoseconds).
#[derive(Debug, Clone)]
pub struct FileMigration {
    pub up: Option<String>,
    pub down: Option<String>,
    pub tag: String,
    pub stamp: Option<(i64, u32)>,
}

pub struct MigrationView {
    pub up: Option<Seq<char>>,
    pub down: Option<Seq<char>>,
    pub tag: Seq<char>,
    pub stamp: Option<(i64, u32)>,
}

impl View for FileMigration {
    type V = MigrationView;

    open spec fn view(&self) -> MigrationView {
        MigrationView { up: opt_view(self.up), down: opt_view(self.down), tag: self.tag@, stamp: self.stamp }
    }
}

pub open spec fn entries_view(s: Seq<SqlFileEntry>) -> Seq<EntryView> {
    s.map_values(|e: SqlFileEntry| e@)
}

pub open spec fn migrations_view(s: Seq<FileMigration>) -> Seq<MigrationView> {
    s.map_values(|m: FileMigration| m@)
}

/// The file is an `.sql` file.
pub open spec fn is_sql(e: EntryView) -> bool {
    e.extension == Some("sql"@)
}

/// The file is an `.sql` file of the directory `dir`.
pub open spec fn in_group(e: EntryView, dir: Seq<char>) -> bool {
    is_sql(e) && e.dir == dir
}

/// Some `.sql` file lies in the directory `dir`.
pub open spec fn is_sql_dir(es: Seq<EntryView>, dir: Seq<char>) -> bool {
    exists|i: int| 0 <= i < es.len() && #[trigger] in_group(es[i], dir)
}

/// `i` is the first `.sql` file of the directory `dir`.
pub open spec fn is_first_of_group(es: Seq<EntryView>, dir: Seq<char>, i: int) -> bool {
    &&& 0 <= i < es.len()
    &&& in_group(es[i], dir)
    &&& forall|k: int| 0 <= k < i ==> !in_group(#[trigger] es[k], dir)
}

/// The last component of the directory `dir`, as its first `.sql` file
/// gives it.
pub open spec fn group_dir_name(es: Seq<EntryView>, dir: Seq<char>) -> Option<Seq<char>> {
    es[choose|i: int| is_first_of_group(es, dir, i)].dir_name
}

/// The path of the last `.sql` file of `dir` named `stem`.
pub open spec fn last_path_with_stem(es: Seq<EntryView>, dir: Seq<char>, stem: Seq<char>) -> Option<Seq<char>>
    decreases es.len(),
{
    if es.len() == 0 {
        None
    } else if in_group(es.last(), dir) && es.last().stem == Some(stem) {
        Some(es.last().path)
    } else {
        last_path_with_stem(es.drop_last(), dir, stem)
    }
}

/// Some `.sql` file of `dir` has a name that is not valid text.
pub open spec fn has_unnamed_stem(es: Seq<EntryView>, dir: Seq<char>) -> bool {
    exists|i: int| 0 <= i < es.len() && #[trigger] in_group(es[i], dir) && es[i].stem is None
}

/// A file name the migration files may have: `up` or `down`.
pub open spec fn stem_known(stem: Seq<char>) -> bool {
    stem == "up"@ || stem == "down"@
}

/// Among the `.sql` files of `dir`, one is named other than `up` or `down`
/// before any file whose name is not valid text: looking at such a file is
/// a program error.
pub open spec fn panics_in_group(es: Seq<EntryView>, dir: Seq<char>) -> bool {
    exists|i: int| {
        &&& 0 <= i < es.len()
        &&& #[trigger] in_group(es[i], dir)
        &&& es[i].stem matches Some(st) && !stem_known(st)
        &&& forall|k: int| 0 <= k < i && in_group(es[k], dir) ==> (#[trigger] es[k]).stem is Some
    }
}

/// The directory's name splits into a timestamp and a tag, and the
/// timestamp is read: its files are looked at.
pub open spec fn reaches_files(es: Seq<EntryView>, dir: Seq<char>) -> bool {
    group_dir_name(es, dir) matches Some(n) && name_parts(n) matches Some((stamp, tag))
        && utc_timestamp(stamp, stamp_format()) is Some
}

/// No directory whose files are looked at holds a file named other than
/// `up` or `down` before one whose name is not valid text.
pub open spec fn never_panics(es: Seq<EntryView>) -> bool {
    forall|d: Seq<char>| is_sql_dir(es, d) && #[trigger] reaches_files(es, d) ==> !panics_in_group(es, d)
}

/// The first two `_`-separated pieces of a directory name: its timestamp
/// and its tag; `None` when the name holds no `_`.
pub open spec fn name_parts(n: Seq<char>) -> Option<(Seq<char>, Seq<char>)> {
    let p = first_pos_of(n, '_');
    if p == n.len() {
        None
    } else {
        let rest = n.skip(p + 1);
        Some((n.take(p), rest.take(first_pos_of(rest, '_'))))
    }
}

/// The kinds of error that reading a migration directory can give.
pub enum Fault {
    Path,
    Tag,
    NotFound,
}

/// What a migration directory gives: a migration, or an error of a kind
/// with a message.
pub enum GroupOutcome {
    Built(MigrationView),
    Fails(Fault, Seq<char>),
}

/// What a migration directory named `name` gives, once its name has been
/// split into `stamp` and `tag`, the timestamp read (`parsed`), and its files
/// looked at: the paths of its last `up` and `down` files, and whether one of
/// its files has a name that is not valid text.
pub open spec fn stamped_outcome(
    name: Seq<char>,
    stamp: Seq<char>,
    tag: Seq<char>,
    parsed: Option<(i64, u32)>,
    up: Option<Seq<char>>,
    down: Option<Seq<char>>,
    unnamed: bool,
) -> GroupOutcome {
    match parsed {
        None => GroupOutcome::Fails(
            Fault::Tag,
            "Invalid timestamp format "@ + debug_text(stamp) + ", on tag: "@ + debug_text(name)
                + ", must follow `%Y%m%d%H%M%S`"@,
        ),
        Some(t) => if unnamed {
            GroupOutcome::Fails(Fault::Path, "Error extracting file-stem from: "@ + debug_text(name))
        } else {
            match (up, down) {
                (None, _) => GroupOutcome::Fails(Fault::NotFound, "Up migration not found for tag: "@ + tag),
                (Some(_), None) => GroupOutcome::Fails(Fault::NotFound, "Down migration not found for tag: "@ + tag),
                (Some(u), Some(d)) => GroupOutcome::Built(
                    MigrationView { up: Some(u), down: Some(d), tag: tag, stamp: Some(t) },
                ),
            }
        },
    }
}

/// What the `.sql` files of the directory `dir` give.
pub open spec fn group_outcome(es: Seq<EntryView>, dir: Seq<char>) -> GroupOutcome {
    match group_dir_name(es, dir) {
        None => GroupOutcome::Fails(Fault::Path, "Error extracting file-name from: "@ + debug_text(dir)),
        Some(n) => match name_parts(n) {
            None => GroupOutcome::Fails(
                Fault::Tag,
                "Invalid tag format: "@ + debug_text(n) + ", must follow `<timestamp>_<tag>`"@,
            ),
            Some((stamp, tag)) => stamped_outcome(
                n,
                stamp,
                tag,
                utc_timestamp(stamp, stamp_format()),
                last_path_with_stem(es, dir, "up"@),
                last_path_with_stem(es, dir, "down"@),
                has_unnamed_stem(es, dir),
            ),
        },
    }
}

/// The kind and message of an error, for the kinds reading a directory gives.
pub open spec fn fault_of(e: Error) -> Option<(Fault, Seq<char>)> {
    match e.kind {
        ErrorKind::PathError(m) => Some((Fault::Path, m@)),
        ErrorKind::TagError(m) => Some((Fault::Tag, m@)),
        ErrorKind::MigrationNotFound(m) => Some((Fault::NotFound, m@)),
        _ => None,
    }
}

/// The error is the one the directory's outcome names.
pub open spec fn error_matches(e: Error, o: GroupOutcome) -> bool {
    match o {
        GroupOutcome::Fails(f, m) => fault_of(e) == Some((f, m)),
        GroupOutcome::Built(_) => false,
    }
}

/// Every migration has a timestamp, and they come in chronological order.
pub open spec fn sorted_by_stamp(v: Seq<MigrationView>) -> bool {
    &&& forall|i: int| 0 <= i < v.len() ==> (#[trigger] v[i]).stamp is Some
    &&& forall|i: int, j: int| 0 <= i < j < v.len() ==> stamp_le((#[trigger] v[i]).stamp->0, (#[trigger] v[j]).stamp->0)
}

/// Time `a` is not later than time `b`: by seconds, then by nanoseconds.
pub open spec fn stamp_le(a: (i64, u32), b: (i64, u32)) -> bool {
    a.0 < b.0 || (a.0 == b.0 && a.1 <= b.1)
}

/// The first position of `c` in `s`, or its length.
fn first_char_pos(s: &str, c: char) -> (p: usize)
    ensures
        p == first_pos_of(s@, c),
        p <= s@.len(),
{
    let n = s.unicode_len();
    let mut i: usize = 0;
    while i < n && s.get_char(i) != c
        invariant
            n == s@.len(),
            i <= n,
            forall|j: int| 0 <= j < i ==> s@[j] != c,
        decreases n - i,
    {
        i = i + 1;
    }
    proof {
        lemma_first_pos_of_unique(s@, c, i as int);
    }
    i
}

/// The timestamp and the tag of a directory name `<timestamp>_<tag>`:
/// what comes before its first `_`, and what comes between its first and
/// its second `_` (or its end); `None` when the name holds no `_`.
pub fn split_stamp_tag(name: &str) -> (r: Option<(String, String)>)
    ensures
        match name_parts(name@) {
            None => r is None,
            Some((a, b)) => r matches Some((x, y)) && x@ == a && y@ == b,
        },
{
    let n = name.unicode_len();
    let p = first_char_pos(name, '_');
    if p == n {
        return None;
    }
    let rest = name.substring_char(p + 1, n);
    assert(rest@ == name@.skip(p + 1));
    let q = first_char_pos(rest, '_');
    let stamp = name.substring_char(0, p).to_owned();
    let tag = rest.substring_char(0, q).to_owned();
    assert(stamp@ == name@.take(p as int));
    assert(tag@ == rest@.take(q as int));
    Some((stamp, tag))
}

fn entry_is_sql(e: &SqlFileEntry) -> (r: bool)
    ensures
        r == is_sql(e@),
{
    match &e.extension {
        Some(x) => str_eq(x.as_str(), "sql"),
        None => false,
    }
}

fn entry_in_group(e: &SqlFileEntry, dir: &str) -> (r: bool)
    ensures
        r == in_group(e@, dir@),
{
    entry_is_sql(e) && str_eq(e.dir.as_str(), dir)
}

fn clone_opt(o: &Option<String>) -> (r: Option<String>)
    ensures
        opt_view(r) == opt_view(*o),
{
    match o {
        Some(s) => Some(s.clone()),
        None => None,
    }
}

/// The paths of the last `up` and `down` files of `dir`, and whether one of
/// its files has a name that is not valid text.
fn scan_group(es: &[SqlFileEntry], dir: &str) -> (r: (Option<String>, Option<String>, bool))
    ensures
        opt_view(r.0) == last_path_with_stem(entries_view(es@), dir@, "up"@),
        opt_view(r.1) == last_path_with_stem(entries_view(es@), dir@, "down"@),
        r.2 == has_unnamed_stem(entries_view(es@), dir@),
{
    let ghost v = entries_view(es@);
    let mut up: Option<String> = None;
    let mut down: Option<String> = None;
    let mut unnamed = false;
    let mut i: usize = 0;
    while i < es.len()
        invariant
            v == entries_view(es@),
            i <= es@.len(),
            opt_view(up) == last_path_with_stem(v.take(i as int), dir@, "up"@),
            opt_view(down) == last_path_with_stem(v.take(i as int), dir@, "down"@),
            unnamed == has_unnamed_stem(v.take(i as int), dir@),
        decreases es@.len() - i,
    {
        let e = &es[i];
        proof {
            assert(v.take(i + 1).drop_last() =~= v.take(i as int));
            assert(v.take(i + 1).last() == e@);
            reveal_strlit("up");
            reveal_strlit("down");
            assert("up"@.len() != "down"@.len());
        }
        if entry_in_group(e, dir) {
            match &e.stem {
                Some(st) => {
                    if str_eq(st.as_str(), "up") {
                        up = Some(e.path.clone());
                    } else if str_eq(st.as_str(), "down") {
                        down = Some(e.path.clone());
                    }
                },
                None => {
                    unnamed = true;
                },
            }
        }
        proof {
            let t = v.take(i + 1);
            if has_unnamed_stem(t, dir@) && !has_unnamed_stem(v.take(i as int), dir@) {
                let j = choose|j: int| 0 <= j < t.len() && #[trigger] in_group(t[j], dir@) && t[j].stem is None;
                assert(j == i);
            }
            if has_unnamed_stem(v.take(i as int), dir@) {
                let j = choose|j: int| 0 <= j < i && #[trigger] in_group(v.take(i as int)[j], dir@)
                    && v.take(i as int)[j].stem is None;
                assert(t[j] == v.take(i as int)[j]);
            }
            if unnamed && !has_unnamed_stem(v.take(i as int), dir@) {
                assert(in_group(t[i as int], dir@));
            }
        }
        i = i + 1;
    }
    assert(v.take(es@.len() as int) =~= v);
    (up, down, unnamed)
}

/// The migration of the directory `dir`, or the error it gives.
fn build_group(es: &[SqlFileEntry], dir: &String, dir_name: &Option<String>) -> (r: Result<FileMigration, Error>)
    requires
        opt_view(*dir_name) == group_dir_name(entries_view(es@), dir@),
    ensures
        match r {
            Ok(m) => group_outcome(entries_view(es@), dir@) == GroupOutcome::Built(m@),
            Err(e) => error_matches(e, group_outcome(entries_view(es@), dir@)),
        },
{
    let name = match dir_name {
        None => {
            let m = join2("Error extracting file-name from: ", debug_str(dir.as_str()).as_str());
            return Err(Error::from_kind(ErrorKind::PathError(m)));
        },
        Some(n) => n,
    };
    let (stamp, tag) = match split_stamp_tag(name.as_str()) {
        None => {
            let m = join3("Invalid tag format: ", debug_str(name.as_str()).as_str(), ", must follow `<timestamp>_<tag>`");
            return Err(Error::from_kind(ErrorKind::TagError(m)));
        },
        Some(parts) => parts,
    };
    let parsed = match datetime_from_str_utc(stamp.as_str(), "%Y%m%d%H%M%S") {
        Err(pe) => Err(pe.to_string()),
        Ok(t) => Ok(t),
    };
    let (up, down, unnamed) = scan_group(es, dir.as_str());
    stamped_migration(name.as_str(), stamp.as_str(), tag, parsed, up, down, unnamed)
}

/// The parsed timestamp, if there is one.
pub open spec fn parsed_view(parsed: Result<(i64, u32), String>) -> Option<(i64, u32)> {
    match parsed {
        Ok(t) => Some(t),
        Err(_) => None,
    }
}

/// The migration of a directory named `name`, once its name has been split
/// into `stamp` and `tag`, its timestamp read (`parsed`: the time, or the
/// text of the error reading it) and its files looked at (`up` and `down`:
/// the paths of its last `up` and `down` files; `unnamed`: whether one of its
/// files has a name that is not valid text). A timestamp that was not read
/// is a `TagError` caused by a `ChronoParse` error with that text.
pub fn stamped_migration(
    name: &str,
    stamp: &str,
    tag: String,
    parsed: Result<(i64, u32), String>,
    up: Option<String>,
    down: Option<String>,
    unnamed: bool,
) -> (r: Result<FileMigration, Error>)
    ensures
        match r {
            Ok(m) => stamped_outcome(name@, stamp@, tag@, parsed_view(parsed), opt_view(up), opt_view(down), unnamed)
                == GroupOutcome::Built(m@),
            Err(e) => error_matches(
                e,
                stamped_outcome(name@, stamp@, tag@, parsed_view(parsed), opt_view(up), opt_view(down), unnamed),
            ),
        },
        parsed matches Err(msg) ==> (r matches Err(e) && e.cause matches Some(c)
            && c.kind matches ErrorKind::ChronoParse(cm) && cm@ == msg@),
{
    let t = match parsed {
        Err(msg) => {
            let cause = Error::from_kind(ErrorKind::ChronoParse(msg));
            let m = join3("Invalid timestamp format ", debug_str(stamp).as_str(), ", on tag: ");
            let m = m.concat(debug_str(name).as_str()).concat(", must follow `%Y%m%d%H%M%S`");
            return Err(cause.chain(ErrorKind::TagError(m)));
        },
        Ok(t) => t,
    };
    if unnamed {
        let m = join2("Error extracting file-stem from: ", debug_str(name).as_str());
        return Err(Error::from_kind(ErrorKind::PathError(m)));
    }
    if up.is_none() {
        return Err(Error::from_kind(ErrorKind::MigrationNotFound(join2("Up migration not found for tag: ", tag.as_str()))));
    }
    if down.is_none() {
        return Err(Error::from_kind(ErrorKind::MigrationNotFound(join2("Down migration not found for tag: ", tag.as_str()))));
    }
    Ok(FileMigration { up, down, tag, stamp: Some(t) })
}

fn stamp_of(m: &FileMigration) -> (t: (i64, u32))
    requires
        m.stamp is Some,
    ensures
        m.stamp == Some(t),
{
    match m.stamp {
        Some(t) => t,
        None => (0, 0),
    }
}

/// Whether time `a` is earlier than time `b`.
fn stamp_lt(a: (i64, u32), b: (i64, u32)) -> (r: bool)
    ensures
        r == !stamp_le(b, a),
{
    a.0 < b.0 || (a.0 == b.0 && a.1 < b.1)
}

/// The migrations in chronological order.
fn sort_by_stamp(v: Vec<FileMigration>) -> (r: Vec<FileMigration>)
    requires
        forall|i: int| 0 <= i < v@.len() ==> (#[trigger] v@[i]).stamp is Some,
    ensures
        sorted_by_stamp(migrations_view(r@)),
        migrations_view(r@).to_multiset() == migrations_view(v@).to_multiset(),
{
    let ghost orig = migrations_view(v@);
    let mut rest = v;
    let mut out: Vec<FileMigration> = Vec::new();
    while rest.len() > 0
        invariant
            forall|i: int| 0 <= i < rest@.len() ==> (#[trigger] rest@[i]).stamp is Some,
            sorted_by_stamp(migrations_view(out@)),
            forall|a: int, b: int| 0 <= a < out@.len() && 0 <= b < rest@.len()
                ==> stamp_le((#[trigger] out@[a]).stamp->0, (#[trigger] rest@[b]).stamp->0),
            migrations_view(out@).to_multiset().add(migrations_view(rest@).to_multiset()) == orig.to_multiset(),
        decreases rest@.len(),
    {
        let mut m: usize = 0;
        let mut k: usize = 1;
        while k < rest.len()
            invariant
                forall|i: int| 0 <= i < rest@.len() ==> (#[trigger] rest@[i]).stamp is Some,
                m < k <= rest@.len(),
                forall|j: int| 0 <= j < k ==> stamp_le(rest@[m as int].stamp->0, (#[trigger] rest@[j]).stamp->0),
            decreases rest@.len() - k,
        {
            if stamp_lt(stamp_of(&rest[k]), stamp_of(&rest[m])) {
                m = k;
            }
            k = k + 1;
        }
        let ghost old_rest = rest@;
        let ghost old_out = out@;
        let x = rest.remove(m);
        proof {
            assert(migrations_view(rest@) =~= migrations_view(old_rest).remove(m as int));
            assert(migrations_view(old_rest)[m as int] == x@);
        }
        out.push(x);
        proof {
            assert(migrations_view(out@) =~= migrations_view(old_out).push(x@));
            assert forall|a: int, b: int| 0 <= a < out@.len() && 0 <= b < rest@.len()
                implies stamp_le((#[trigger] out@[a]).stamp->0, (#[trigger] rest@[b]).stamp->0) by {
                if a < old_out.len() {
                    assert(out@[a] == old_out[a]);
                    if b < m {
                        assert(rest@[b] == old_rest[b]);
                    } else {
                        assert(rest@[b] == old_rest[b + 1]);
                    }
                } else {
                    if b < m {
                        assert(rest@[b] == old_rest[b]);
                    } else {
                        assert(rest@[b] == old_rest[b + 1]);
                    }
                }
            }
            assert forall|i: int, j: int| 0 <= i < j < out@.len()
                implies stamp_le((#[trigger] migrations_view(out@)[i]).stamp->0, (#[trigger] migrations_view(out@)[j]).stamp->0) by {
                if j < old_out.len() {
                    assert(migrations_view(old_out)[i] == migrations_view(out@)[i]);
                    assert(migrations_view(old_out)[j] == migrations_view(out@)[j]);
                } else {
                    assert(out@[i] == old_out[i]);
                }
            }
            assert(migrations_view(out@).to_multiset() =~= migrations_view(old_out).to_multiset().insert(x@));
            assert(migrations_view(rest@).to_multiset() =~= migrations_view(old_rest).to_multiset().remove(x@));
            assert(migrations_view(old_rest).to_multiset().count(x@) > 0) by {
                assert(migrations_view(old_rest).contains(x@));
            }
            assert(migrations_view(out@).to_multiset().add(migrations_view(rest@).to_multiset())
                =~= migrations_view(old_out).to_multiset().add(migrations_view(old_rest).to_multiset()));
        }
    }
    assert(migrations_view(rest@).to_multiset() =~= Multiset::empty());
    assert(migrations_view(out@).to_multiset().add(Multiset::empty()) =~= migrations_view(out@).to_multiset());
    out
}

/// The migration a directory's outcome holds.
pub open spec fn built_of(o: GroupOutcome) -> MigrationView {
    match o {
        GroupOutcome::Built(m) => m,
        GroupOutcome::Fails(_, _) => arbitrary(),
    }
}

/// No directory occurs twice.
pub open spec fn distinct_dirs(dirs: Seq<Seq<char>>) -> bool {
    forall|a: int, b: int| 0 <= a < b < dirs.len() ==> dirs[a] != dirs[b]
}

/// `dirs` lists each directory that holds an `.sql` file, once.
pub open spec fn lists_sql_dirs(es: Seq<EntryView>, dirs: Seq<Seq<char>>) -> bool {
    &&& distinct_dirs(dirs)
    &&& forall|d: Seq<char>| #[trigger] dirs.contains(d) <==> is_sql_dir(es, d)
}

/// What searching the files gives: one migration for each directory that
/// holds `.sql` files, in chronological order, when every such directory
/// gives one; else the error of one that does not.
pub open spec fn found_migrations(es: Seq<EntryView>, r: Result<Vec<FileMigration>, Error>) -> bool {
    match r {
        Ok(ms) => {
            &&& forall|d: Seq<char>| is_sql_dir(es, d) ==> #[trigger] group_outcome(es, d) is Built
            &&& sorted_by_stamp(migrations_view(ms@))
            &&& forall|k: int| 0 <= k < ms@.len() ==> (#[trigger] ms@[k]).up is Some && ms@[k].down is Some
            &&& exists|dirs: Seq<Seq<char>>| {
                &&& #[trigger] lists_sql_dirs(es, dirs)
                &&& migrations_view(ms@).to_multiset()
                    == dirs.map_values(|d: Seq<char>| built_of(group_outcome(es, d))).to_multiset()
            }
        },
        Err(e) => exists|d: Seq<char>| is_sql_dir(es, d) && error_matches(e, #[trigger] group_outcome(es, d)),
    }
}

/// Each directory that holds `.sql` files, once, in the order of their first
/// files, with the directory name its first file gives.
fn collect_sql_dirs(entries: &[SqlFileEntry]) -> (r: (Vec<String>, Vec<Option<String>>))
    ensures
        r.0@.len() == r.1@.len(),
        lists_sql_dirs(entries_view(entries@), crate::text::strings_view(r.0@)),
        forall|m: int| 0 <= m < r.0@.len() ==> is_sql_dir(entries_view(entries@), #[trigger] r.0@[m]@),
        forall|m: int| 0 <= m < r.0@.len()
            ==> opt_view(#[trigger] r.1@[m]) == group_dir_name(entries_view(entries@), r.0@[m]@),
{
    let ghost v = entries_view(entries@);
    let mut dirs: Vec<String> = Vec::new();
    let mut names: Vec<Option<String>> = Vec::new();
    let mut i: usize = 0;
    while i < entries.len()
        invariant
            v == entries_view(entries@),
            i <= entries@.len(),
            dirs@.len() == names@.len(),
            distinct_dirs(crate::text::strings_view(dirs@)),
            forall|m: int| 0 <= m < dirs@.len() ==> is_sql_dir(v, #[trigger] dirs@[m]@),
            forall|m: int| 0 <= m < dirs@.len() ==> opt_view(#[trigger] names@[m]) == group_dir_name(v, dirs@[m]@),
            forall|j: int| 0 <= j < i && is_sql(#[trigger] v[j]) ==> crate::text::strings_view(dirs@).contains(v[j].dir),
        decreases entries@.len() - i,
    {
        let e = &entries[i];
        let ghost sv = crate::text::strings_view(dirs@);
        if entry_is_sql(e) && !crate::text::contains_string(dirs.as_slice(), e.dir.as_str()) {
            proof {
                assert(v[i as int] == e@);
                assert(in_group(v[i as int], e.dir@));
                assert forall|k: int| 0 <= k < i implies !in_group(#[trigger] v[k], e.dir@) by {
                    if in_group(v[k], e.dir@) {
                        assert(is_sql(v[k]));
                    }
                }
                assert(is_first_of_group(v, e.dir@, i as int));
                let c = choose|c: int| is_first_of_group(v, e.dir@, c);
                if c < i { assert(!in_group(v[c], e.dir@)); }
                if i < c { assert(!in_group(v[i as int], e.dir@)); }
            }
            dirs.push(e.dir.clone());
            names.push(clone_opt(&e.dir_name));
            proof {
                let nv = crate::text::strings_view(dirs@);
                assert(nv =~= sv.push(e.dir@));
                assert forall|j: int| 0 <= j < i + 1 && is_sql(#[trigger] v[j]) implies nv.contains(v[j].dir) by {
                    if j < i {
                        let k = sv.index_of(v[j].dir);
                        assert(nv[k] == v[j].dir);
                    } else {
                        assert(nv[sv.len() as int] == e.dir@);
                    }
                }
            }
        } else {
            proof {
                assert(is_sql(v[i as int]) ==> sv.contains(v[i as int].dir));
            }
        }
        i = i + 1;
    }
    let ghost dv = crate::text::strings_view(dirs@);
    assert forall|d: Seq<char>| #[trigger] dv.contains(d) <==> is_sql_dir(v, d) by {
        if dv.contains(d) {
            let k = dv.index_of(d);
            assert(is_sql_dir(v, dirs@[k]@));
        }
        if is_sql_dir(v, d) {
            let j = choose|j: int| 0 <= j < v.len() && #[trigger] in_group(v[j], d);
            assert(is_sql(v[j]));
        }
    }
    (dirs, names)
}

/// Search for available migrations among the files found under the
/// migration directory: one migration for each directory that holds `.sql`
/// files, in chronological order. It fails, with the error of one of them,
/// exactly when some directory does not give a migration. A directory whose
/// files are looked at must not hold a file named other than `up` or `down`
/// before one whose name is not valid text.
pub fn search_for_migrations(entries: Vec<SqlFileEntry>) -> (r: Result<Vec<FileMigration>, Error>)
    requires
        never_panics(entries_view(entries@)),
    ensures
        found_migrations(entries_view(entries@), r),
{
    let ghost v = entries_view(entries@);
    let (dirs, names) = collect_sql_dirs(entries.as_slice());
    let ghost dv = crate::text::strings_view(dirs@);
    let mut built: Vec<FileMigration> = Vec::new();
    let mut m: usize = 0;
    while m < dirs.len()
        invariant
            v == entries_view(entries@),
            dv == crate::text::strings_view(dirs@),
            dirs@.len() == names@.len(),
            m <= dirs@.len(),
            built@.len() == m,
            forall|k: int| 0 <= k < dirs@.len() ==> is_sql_dir(v, #[trigger] dirs@[k]@),
            forall|k: int| 0 <= k < dirs@.len() ==> opt_view(#[trigger] names@[k]) == group_dir_name(v, dirs@[k]@),
            forall|k: int| 0 <= k < m ==> group_outcome(v, #[trigger] dv[k]) == GroupOutcome::Built(built@[k]@),
        decreases dirs@.len() - m,
    {
        match build_group(entries.as_slice(), &dirs[m], &names[m]) {
            Ok(fm) => {
                built.push(fm);
            },
            Err(e) => {
                assert(is_sql_dir(v, dirs@[m as int]@));
                return Err(e);
            },
        }
        m = m + 1;
    }
    proof {
        assert(migrations_view(built@) =~= dv.map_values(|d: Seq<char>| built_of(group_outcome(v, d))));
        assert(lists_sql_dirs(v, dv));
        assert forall|d: Seq<char>| is_sql_dir(v, d) implies #[trigger] group_outcome(v, d) is Built by {
            assert(dv.contains(d));
            let k = dv.index_of(d);
            assert(group_outcome(v, dv[k]) == GroupOutcome::Built(built@[k]@));
        }
        assert forall|k: int| 0 <= k < built@.len() implies (#[trigger] built@[k]).stamp is Some by {
            assert(group_outcome(v, dv[k]) == GroupOutcome::Built(built@[k]@));
        }
    }
    let ghost bv = migrations_view(built@);
    assert forall|k: int| 0 <= k < bv.len() implies (#[trigger] bv[k]).up is Some && bv[k].down is Some by {
        assert(group_outcome(v, dv[k]) == GroupOutcome::Built(built@[k]@));
    }
    let sorted = sort_by_stamp(built);
    proof {
        let sv = migrations_view(sorted@);
        assert forall|k: int| 0 <= k < sorted@.len() implies (#[trigger] sorted@[k]).up is Some && sorted@[k].down is Some by {
            assert(sv[k] == sorted@[k]@);
            assert(sv.to_multiset().count(sv[k]) > 0);
            assert(bv.contains(sv[k]));
            let j = bv.index_of(sv[k]);
            assert(bv[j] == sv[k]);
        }
    }
    Ok(sorted)
}

/// Whether the directory `dir`, named `dir_name`, has its files looked at
/// and holds a file named other than `up` or `down` before one whose name is
/// not valid text.
fn group_panics(es: &[SqlFileEntry], dir: &str, dir_name: &Option<String>) -> (r: bool)
    requires
        opt_view(*dir_name) == group_dir_name(entries_view(es@), dir@),
    ensures
        r == (reaches_files(entries_view(es@), dir@) && panics_in_group(entries_view(es@), dir@)),
{
    let ghost v = entries_view(es@);
    let name = match dir_name {
        None => return false,
        Some(n) => n,
    };
    let stamp = match split_stamp_tag(name.as_str()) {
        None => return false,
        Some((stamp, _)) => stamp,
    };
    match datetime_from_str_utc(stamp.as_str(), "%Y%m%d%H%M%S") {
        Err(_) => return false,
        Ok(_) => {},
    }
    assert(reaches_files(v, dir@));
    let mut i: usize = 0;
    while i < es.len()
        invariant
            v == entries_view(es@),
            i <= es@.len(),
            reaches_files(v, dir@),
            forall|k: int| 0 <= k < i && in_group(v[k], dir@) ==> ((#[trigger] v[k]).stem matches Some(st) && stem_known(st)),
        decreases es@.len() - i,
    {
        let e = &es[i];
        assert(v[i as int] == e@);
        if entry_in_group(e, dir) {
            match &e.stem {
                None => {
                    proof {
                        if panics_in_group(v, dir@) {
                            let j = choose|j: int| {
                                &&& 0 <= j < v.len()
                                &&& #[trigger] in_group(v[j], dir@)
                                &&& v[j].stem matches Some(st) && !stem_known(st)
                                &&& forall|k: int| 0 <= k < j && in_group(v[k], dir@) ==> (#[trigger] v[k]).stem is Some
                            };
                            if i < j {
                                assert(v[i as int].stem is Some);
                            }
                        }
                    }
                    return false;
                },
                Some(st) => {
                    if !str_eq(st.as_str(), "up") && !str_eq(st.as_str(), "down") {
                        assert(in_group(v[i as int], dir@));
                        return true;
                    }
                },
            }
        }
        i = i + 1;
    }
    proof {
        if panics_in_group(v, dir@) {
            let j = choose|j: int| {
                &&& 0 <= j < v.len()
                &&& #[trigger] in_group(v[j], dir@)
                &&& v[j].stem matches Some(st) && !stem_known(st)
                &&& forall|k: int| 0 <= k < j && in_group(v[k], dir@) ==> (#[trigger] v[k]).stem is Some
            };
            assert(v[j].stem matches Some(st) && stem_known(st));
        }
    }
    false
}

/// Search for available migrations as `search_for_migrations` does, where
/// no directory whose files are looked at holds a file named other than `up`
/// or `down` before one whose name is not valid text; `None` where one does.
pub fn search_for_migrations_checked(entries: Vec<SqlFileEntry>) -> (r: Option<Result<Vec<FileMigration>, Error>>)
    ensures
        (r is None) == !never_panics(entries_view(entries@)),
        r matches Some(x) ==> found_migrations(entries_view(entries@), x),
{
    let ghost v = entries_view(entries@);
    let (dirs, names) = collect_sql_dirs(entries.as_slice());
    let ghost dv = crate::text::strings_view(dirs@);
    let mut m: usize = 0;
    while m < dirs.len()
        invariant
            v == entries_view(entries@),
            dv == crate::text::strings_view(dirs@),
            dirs@.len() == names@.len(),
            m <= dirs@.len(),
            lists_sql_dirs(v, dv),
            forall|k: int| 0 <= k < dirs@.len() ==> is_sql_dir(v, #[trigger] dirs@[k]@),
            forall|k: int| 0 <= k < dirs@.len() ==> opt_view(#[trigger] names@[k]) == group_dir_name(v, dirs@[k]@),
            forall|k: int| 0 <= k < m ==> !(reaches_files(v, #[trigger] dv[k]) && panics_in_group(v, dv[k])),
        decreases dirs@.len() - m,
    {
        if group_panics(entries.as_slice(), dirs[m].as_str(), &names[m]) {
            proof {
                let d = dirs@[m as int]@;
                assert(is_sql_dir(v, d) && reaches_files(v, d) && panics_in_group(v, d));
            }
            return None;
        }
        assert(dv[m as int] == dirs@[m as int]@);
        m = m + 1;
    }
    assert forall|d: Seq<char>| is_sql_dir(v, d) && #[trigger] reaches_files(v, d) implies !panics_in_group(v, d) by {
        assert(dv.contains(d));
        let k = dv.index_of(d);
        assert(!(reaches_files(v, dv[k]) && panics_in_group(v, dv[k])));
    }
    Some(search_for_migrations(entries))
}

} // verus!
