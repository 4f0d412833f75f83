//! Migration tags: which characters a tag may hold, and the timestamped
//! form `<14 digits>_<tag>` used by the command line tool.
use vstd::prelude::*;
use vstd::string::*;
use crate::errors::{Error, ErrorKind};
use crate::text::join3;
use crate::discovery::{format_utc, stamp_format, utc_format};

verus! {

/// The pattern that finds a character a tag may not hold.
pub open spec fn bad_tag_pattern() -> Seq<char> {
    "[^a-z0-9-]+"@
}

/// The pattern of a whole timestamped tag.
pub open spec fn full_tag_pattern() -> Seq<char> {
    "^[0-9]{14}_[a-z0-9-]+$"@
}

/// The pattern of a whole tag that may be prefixed with a timestamp.
pub open spec fn opt_stamp_tag_pattern() -> Seq<char> {
    "^([0-9]{14}_)?[a-z0-9-]+$"@
}

/// A character a tag may hold: `[a-z0-9-]`.
pub open spec fn is_tag_char(c: char) -> bool {
    ('a' <= c && c <= 'z') || ('0' <= c && c <= '9') || c == '-'
}

pub open spec fn is_digit(c: char) -> bool {
    '0' <= c && c <= '9'
}

/// Some character of `t` is not one a tag may hold.
pub open spec fn has_non_tag_char(t: Seq<char>) -> bool {
    exists|i: int| 0 <= i < t.len() && !is_tag_char(#[trigger] t[i])
}

/// `t` is a plain tag: at least one character, each in `[a-z0-9-]`.
pub open spec fn is_plain_tag(t: Seq<char>) -> bool {
    t.len() > 0 && !has_non_tag_char(t)
}

/// `t` is a whole timestamped tag: fourteen digits, `_`, then a plain tag.
pub open spec fn is_full_tag(t: Seq<char>) -> bool {
    &&& t.len() >= 16
    &&& forall|j: int| 0 <= j < 14 ==> is_digit(#[trigger] t[j])
    &&& t[14] == '_'
    &&& is_plain_tag(t.skip(15))
}

/// `t` is a whole tag, with or without a timestamp in front.
pub open spec fn is_opt_stamp_tag(t: Seq<char>) -> bool {
    is_plain_tag(t) || is_full_tag(t)
}

/// Calls regex's `Regex::new` and `Regex::is_match` with one of the three
/// patterns the tag rules use, which compile. Claims what the regex
/// documentation gives for them: `[^a-z0-9-]+` matches exactly where some
/// character lies outside `a-z`, `0-9` and `-`; the patterns anchored by `^`
/// and `$` (start and end of the text) match exactly when the whole text is
/// a timestamped tag (`[0-9]{14}_[a-z0-9-]+`), or a tag with an optional
/// timestamp (`([0-9]{14}_)?[a-z0-9-]+`).
#[verifier::external_body]
fn regex_is_match(pattern: &str, text: &str) -> (r: bool)
    requires
        pattern@ == bad_tag_pattern() || pattern@ == full_tag_pattern() || pattern@ == opt_stamp_tag_pattern(),
    ensures
        pattern@ == bad_tag_pattern() ==> r == has_non_tag_char(text@),
        pattern@ == full_tag_pattern() ==> r == is_full_tag(text@),
        pattern@ == opt_stamp_tag_pattern() ==> r == is_opt_stamp_tag(text@),
{
    regex::Regex::new(pattern).expect("failed to compile regex").is_match(text)
}

/// Returns true if tag name contains illegal characters: tags may only
/// hold `[a-z0-9-]`.
pub fn invalid_tag(tag: &str) -> (r: bool)
    ensures
        r == has_non_tag_char(tag@),
{
    regex_is_match("[^a-z0-9-]+", tag)
}

/// Returns true if the full, optionally timestamped tag is invalid: the
/// whole tag is not `([0-9]{14}_)?[a-z0-9-]+`.
pub fn invalid_optional_stamp_tag(tag: &str) -> (r: bool)
    ensures
        r == !is_opt_stamp_tag(tag@),
{
    !regex_is_match("^([0-9]{14}_)?[a-z0-9-]+$", tag)
}

/// Return true if the full tag is invalid: the whole tag is not
/// `[0-9]{14}_[a-z0-9-]+`.
pub fn invalid_full_tag(tag: &str) -> (r: bool)
    ensures
        r == !is_full_tag(tag@),
{
    !regex_is_match("^[0-9]{14}_[a-z0-9-]+$", tag)
}

/// The name of the directory of a new migration made at the UTC time
/// `secs` seconds and `nanos` nanoseconds after the epoch:
/// `<stamp>_<tag>`, where `stamp` is that time written `%Y%m%d%H%M%S`. A
/// tag holding a character outside `[a-z0-9-]` is a `Migration` error, and
/// so is a time that cannot be written.
pub fn new_migration_name(tag: &str, secs: i64, nanos: u32) -> (r: Result<String, Error>)
    ensures
        has_non_tag_char(tag@) ==> (r matches Err(e) && e.kind matches ErrorKind::Migration(m)
            && m@ == "Invalid tag `"@ + tag@ + "`. Tags can contain [a-z0-9-]"@),
        !has_non_tag_char(tag@) ==> (utc_format(secs, nanos, stamp_format()) matches Some(t)
            ==> (r matches Ok(n) && n@ == t + "_"@ + tag@)),
        !has_non_tag_char(tag@) ==> (utc_format(secs, nanos, stamp_format()) is None
            ==> (r matches Err(e) && e.kind matches ErrorKind::Migration(m)
                && m@ == "Timestamp out of range"@)),
{
    if invalid_tag(tag) {
        let m = join3("Invalid tag `", tag, "`. Tags can contain [a-z0-9-]");
        return Err(Error::from_kind(ErrorKind::Migration(m)));
    }
    match format_utc(secs, nanos, "%Y%m%d%H%M%S") {
        Some(stamp) => Ok(join3(stamp.as_str(), "_", tag)),
        None => Err(Error::from_kind(ErrorKind::Migration(String::from_str("Timestamp out of range")))),
    }
}

/// A name made by `new_migration_name` from a valid tag and a stamp of
/// fourteen digits is a valid timestamped tag.
pub proof fn lemma_new_name_is_full_tag(tag: Seq<char>, stamp: Seq<char>)
    requires
        !has_non_tag_char(tag),
        tag.len() > 0,
        stamp.len() == 14,
        forall|j: int| 0 <= j < 14 ==> is_digit(#[trigger] stamp[j]),
    ensures
        is_full_tag(stamp + "_"@ + tag),
        is_opt_stamp_tag(stamp + "_"@ + tag),
{
    reveal_strlit("_");
    let n = stamp + "_"@ + tag;
    assert(n[14] == '_');
    assert forall|j: int| 0 <= j < 14 implies is_digit(#[trigger] n[j]) by {
        assert(n[j] == stamp[j]);
    }
    assert(n.skip(15) =~= tag);
}

} // verus!
