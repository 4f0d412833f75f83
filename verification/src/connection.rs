//! Markers for database drivers that this build does not include.
use vstd::prelude::*;

verus! {

/// Stands where a Postgres driver connection would, without the driver.
#[derive(Debug, Clone, Copy)]
pub struct PostgresqlFeatureRequired;

/// Stands where a SQLite driver connection would, without the driver.
#[derive(Debug, Clone, Copy)]
pub struct SqliteFeatureRequired;

/// Stands where a MySQL driver connection would, without the driver.
#[derive(Debug, Clone, Copy)]
pub struct MySQLFeatureRequired;

} // verus!
