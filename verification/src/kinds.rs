//! The database kinds and the directions in which migrations are applied.
use vstd::prelude::*;
use vstd::string::*;
use crate::errors::{Error, ErrorKind};
use crate::text::str_eq;

verus! {

/// Database type being used
#[derive(Debug, Clone, Copy, PartialEq, Eq, Structural)]
pub enum DbKind {
    Sqlite,
    Postgres,
    MySql,
}

/// The name by which a database kind is written in settings files.
pub open spec fn db_kind_name(k: DbKind) -> Seq<char> {
    match k {
        DbKind::Sqlite => "sqlite"@,
        DbKind::Postgres => "postgres"@,
        DbKind::MySql => "mysql"@,
    }
}

/// The database kind that a name stands for, if any.
pub open spec fn db_kind_of_name(s: Seq<char>) -> Option<DbKind> {
    if s == "sqlite"@ {
        Some(DbKind::Sqlite)
    } else if s == "postgres"@ {
        Some(DbKind::Postgres)
    } else if s == "mysql"@ {
        Some(DbKind::MySql)
    } else {
        None
    }
}

impl DbKind {
    /// Reads a database kind from its name; any other name is an
    /// `InvalidDbKind` error.
    pub fn parse(s: &str) -> (r: Result<DbKind, Error>)
        ensures
            db_kind_of_name(s@) matches Some(k) ==> r == Ok::<DbKind, Error>(k),
            db_kind_of_name(s@) is None ==> (r matches Err(e) && e.kind matches ErrorKind::InvalidDbKind(m)
                && m@ == "Invalid Database Kind: "@ + s@),
    {
        if str_eq(s, "sqlite") {
            Ok(DbKind::Sqlite)
        } else if str_eq(s, "postgres") {
            Ok(DbKind::Postgres)
        } else if str_eq(s, "mysql") {
            Ok(DbKind::MySql)
        } else {
            let m = String::from_str("Invalid Database Kind: ").concat(s);
            Err(Error::from_kind(ErrorKind::InvalidDbKind(m)))
        }
    }

    /// The name of the database kind.
    pub fn as_str(&self) -> (r: &'static str)
        ensures
            r@ == db_kind_name(*self),
    {
        match self {
            DbKind::Sqlite => "sqlite",
            DbKind::Postgres => "postgres",
            DbKind::MySql => "mysql",
        }
    }
}

impl std::str::FromStr for DbKind {
    type Err = Error;

    fn from_str(s: &str) -> (r: Result<DbKind, Error>)
        ensures
            db_kind_of_name(s@) matches Some(k) ==> r == Ok::<DbKind, Error>(k),
            db_kind_of_name(s@) is None ==> (r matches Err(e) && e.kind matches ErrorKind::InvalidDbKind(m)
                && m@ == "Invalid Database Kind: "@ + s@),
    {
        DbKind::parse(s)
    }
}

/// A database kind is read back from its name, and a name that is read as a
/// database kind is that kind's name.
pub proof fn lemma_db_kind_name_round_trip(k: DbKind, s: Seq<char>)
    ensures
        db_kind_of_name(db_kind_name(k)) == Some(k),
        db_kind_of_name(s) == Some(k) ==> s == db_kind_name(k),
{
    reveal_strlit("sqlite");
    reveal_strlit("postgres");
    reveal_strlit("mysql");
    assert("sqlite"@.len() == 6 && "postgres"@.len() == 8 && "mysql"@.len() == 5);
    assert("postgres"@ != "sqlite"@);
    assert("mysql"@ != "sqlite"@);
    assert("mysql"@ != "postgres"@);
}

/// Represents direction to apply migrations.
/// `Up`   -> up.sql
/// `Down` -> down.sql
#[derive(Debug, Clone, Copy, PartialEq, Eq, Structural)]
pub enum Direction {
    Up,
    Down,
}

/// The name of a direction as it is shown to users.
pub open spec fn direction_name(d: Direction) -> Seq<char> {
    match d {
        Direction::Up => "Up"@,
        Direction::Down => "Down"@,
    }
}

impl Direction {
    /// The name of the direction.
    pub fn as_str(&self) -> (r: &'static str)
        ensures
            r@ == direction_name(*self),
    {
        match self {
            Direction::Up => "Up",
            Direction::Down => "Down",
        }
    }
}

} // verus!
