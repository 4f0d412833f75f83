//! Embeddable management of database migrations: tag rules, discovery of
//! migration files, the decisions of the migration applicator and the
//! interpretation of database shell output, each with a verified contract.

pub mod errors;
pub mod kinds;
pub mod text;
pub mod migrator;
pub mod discovery;
pub mod tags;
pub mod connection;
pub mod drivers;
pub mod cli;

pub use crate::errors::{Error, ErrorKind};
pub use crate::kinds::{DbKind, Direction};
pub use crate::migrator::{Migrator, next_available};
pub use crate::discovery::{FileMigration, SqlFileEntry, search_for_migrations};
pub use crate::tags::{invalid_tag, invalid_full_tag, invalid_optional_stamp_tag};
pub use crate::connection::{MySQLFeatureRequired, PostgresqlFeatureRequired, SqliteFeatureRequired};
