//! The trusted boundary to the SQLite store. Each item here relies on
//! rusqlite, and states no more than that crate's source and SQLite's
//! documented statement semantics show — under these assumptions about
//! the database behind a connection:
//!
//! - The store is externally serialized: this process is the only writer
//!   (a concurrent writer would void the stated row contents).
//! - At most one live connection is attached to a database file at a
//!   time. `db_rows` is a function of the connection value, so two live
//!   connections to one file would alias a table the model treats as two
//!   unrelated maps.
//! - A `files` table, where one exists, is the one this library creates:
//!   four columns with `path TEXT UNIQUE`. A foreign `files` table
//!   without the unique constraint could hold two rows of one path,
//!   which the map model cannot represent.

use vstd::prelude::*;
use crate::store::{RowV, rows_match};

verus! {

#[verifier::external_type_specification]
#[verifier::external_body]
pub struct ExConnection(rusqlite::Connection);

#[verifier::external_type_specification]
#[verifier::external_body]
pub struct ExSqlError(rusqlite::Error);

/// What the `files` table of the database behind a connection holds, as a
/// map from the unique `path` column to the row's other columns
/// `(name, size, extension)`; an absent table holds no rows.
pub uninterp spec fn db_rows(conn: rusqlite::Connection) -> Map<Seq<char>, RowV>;

/// Relies on `rusqlite::Connection::open`: it opens the database file at
/// the given path, creating the file if it is absent. What the database
/// already holds depends on the disk, so nothing is said of the rows.
#[verifier::external_body]
pub(crate) fn open_conn(path: &str) -> Result<rusqlite::Connection, rusqlite::Error> {
    rusqlite::Connection::open(path)
}

/// A connection whose `files` table holds no rows, if the opening went
/// through at all.
pub open spec fn opened_empty(r: Result<rusqlite::Connection, rusqlite::Error>) -> bool {
    r is Ok ==> db_rows(r->Ok_0) == Map::<Seq<char>, RowV>::empty()
}

/// Relies on `rusqlite::Connection::open_in_memory`: a fresh in-memory
/// database holds no tables at all, so its `files` table holds no rows.
#[verifier::external_body]
pub(crate) fn open_mem_conn() -> (r: Result<rusqlite::Connection, rusqlite::Error>)
    ensures
        opened_empty(r),
{
    rusqlite::Connection::open_in_memory()
}

/// Relies on `rusqlite::Connection::execute` running `CREATE TABLE IF NOT
/// EXISTS`: whether the table already existed (rows kept) or is created
/// empty (no rows before, none after), the rows are left as they are; a
/// failed statement changes nothing.
#[verifier::external_body]
pub(crate) fn create_files_table(conn: &mut rusqlite::Connection) -> (r: Result<
    (),
    rusqlite::Error,
>)
    ensures
        db_rows(*final(conn)) == db_rows(*old(conn)),
{
    conn.execute(
        "CREATE TABLE IF NOT EXISTS files (
            id INTEGER PRIMARY KEY,
            path TEXT UNIQUE,
            name TEXT,
            size INTEGER,
            extension TEXT
        )",
        [],
    ).map(|_| ())
}

/// Relies on `rusqlite::Connection::execute` running `INSERT OR REPLACE`
/// keyed by the unique `path` column: on success the new row replaces any
/// prior row of that path; a failed statement leaves the database
/// unchanged (SQLite statements are atomic).
#[verifier::external_body]
pub(crate) fn insert_row(
    conn: &mut rusqlite::Connection,
    path: &str,
    name: &str,
    size: u64,
    ext: &str,
) -> (r: Result<(), rusqlite::Error>)
    requires
        size <= i64::MAX,
    ensures
        r is Ok ==> db_rows(*final(conn)) == db_rows(*old(conn)).insert(
            path@,
            (name@, size, ext@),
        ),
        r is Err ==> db_rows(*final(conn)) == db_rows(*old(conn)),
{
    conn.execute(
        "INSERT OR REPLACE INTO files (path, name, size, extension) VALUES (?1, ?2, ?3, ?4)",
        (path, name, size as i64, ext),
    ).map(|_| ())
}

/// Relies on `rusqlite::Statement::query_map` over `SELECT path, name,
/// size, extension FROM files`: on success it hands back every row of the
/// table, each path once (the column is unique), in an order SQLite
/// leaves unspecified.
#[verifier::external_body]
pub(crate) fn select_rows(conn: &rusqlite::Connection) -> (r: Result<
    Vec<(String, String, u64, String)>,
    rusqlite::Error,
>)
    ensures
        r matches Ok(rows) ==> rows_match(rows@, db_rows(*conn)),
{
    let mut stmt = conn.prepare("SELECT path, name, size, extension FROM files")?;
    let rows = stmt.query_map(
        [],
        |row| {
            let size: i64 = row.get(2)?;
            let size = u64::try_from(size)
                .map_err(|_| rusqlite::Error::IntegralValueOutOfRange(2, size))?;
            Ok((row.get(0)?, row.get(1)?, size, row.get(3)?))
        },
    )?;
    rows.collect()
}

} // verus!
