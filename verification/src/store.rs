//! The trusted boundary to the embedded relational storage engine.
//!
//! Every call into `rusqlite` is made here, one wrapper per operation, and
//! nothing else in the library touches the engine.  What a wrapper returns
//! depends on what is on disk, so the contracts state only what holds of
//! every outcome: bounds that the query's own `WHERE` clause enforces, and
//! the ordering that its `ORDER BY` clause enforces.  Each error is carried
//! out as the engine's message.

use vstd::prelude::*;

verus! {

#[verifier::external_type_specification]
#[verifier::external_body]
pub struct ExConnection(rusqlite::Connection);

/// Relies on `rusqlite::Connection::open_with_flags` with the read-only
/// flag: the open fails when the path does not name a readable database.
/// The URI flag matches the engine's default open mode.
#[verifier::external_body]
pub(crate) fn open_readonly(path: &str) -> (r: Result<rusqlite::Connection, String>) {
    rusqlite::Connection::open_with_flags(
        path,
        rusqlite::OpenFlags::SQLITE_OPEN_READ_ONLY | rusqlite::OpenFlags::SQLITE_OPEN_URI
            | rusqlite::OpenFlags::SQLITE_OPEN_NO_MUTEX,
    ).map_err(|e| e.to_string())
}

/// Relies on `rusqlite::Connection::open`: creates the database file when
/// the path does not exist yet.
#[verifier::external_body]
pub(crate) fn open_create(path: &str) -> (r: Result<rusqlite::Connection, String>) {
    rusqlite::Connection::open(path).map_err(|e| e.to_string())
}

/// Relies on `rusqlite::Connection::execute_batch`: runs the statements and
/// fails on the first error, such as creating a table that already exists.
#[verifier::external_body]
pub(crate) fn exec_batch(conn: &rusqlite::Connection, sql: &str) -> (r: Result<(), String>) {
    conn.execute_batch(sql).map_err(|e| e.to_string())
}

/// Relies on `rusqlite::Connection::prepare`: compiling a statement fails
/// when a table or column it names does not exist, without running it.
#[verifier::external_body]
pub(crate) fn check_query(conn: &rusqlite::Connection, sql: &str) -> (r: Result<(), String>) {
    conn.prepare(sql).map(|_| ()).map_err(|e| e.to_string())
}

/// Relies on `rusqlite::Connection::prepare` and `Statement::query_map`:
/// every metadata row, name and value as text, in the order the engine
/// stores them.
#[verifier::external_body]
pub(crate) fn read_metadata(conn: &rusqlite::Connection) -> (r: Result<
    Vec<(String, String)>,
    String,
>) {
    let go = || -> rusqlite::Result<Vec<(String, String)>> {
        let mut stmt = conn.prepare("SELECT name, value FROM metadata")?;
        let rows = stmt.query_map([], |row| Ok((row.get(0)?, row.get(1)?)))?;
        rows.collect()
    };
    go().map_err(|e| e.to_string())
}

/// Relies on `rusqlite::Connection::execute` with an `INSERT` into the
/// metadata table, binding both columns as text.
#[verifier::external_body]
pub(crate) fn insert_metadata(conn: &rusqlite::Connection, name: &String, value: &String) -> (r:
    Result<(), String>) {
    conn.execute(
        "INSERT INTO metadata (name, value) VALUES (?1, ?2)",
        [name as &dyn rusqlite::ToSql, value].as_slice(),
    ).map(|_| ()).map_err(|e| e.to_string())
}

/// Relies on `rusqlite::Connection::prepare` and `Statement::query_map`
/// over `SELECT DISTINCT ... ORDER BY`: the SQL yields each zoom level
/// once, in ascending order, so the list is strictly increasing.
#[verifier::external_body]
pub(crate) fn read_zoom_levels(conn: &rusqlite::Connection) -> (r: Result<Vec<i64>, String>)
    ensures
        r matches Ok(v) ==> forall|i: int, j: int|
            #![trigger v@[i], v@[j]]
            0 <= i < j < v@.len() ==> v@[i] < v@[j],
{
    let go = || -> rusqlite::Result<Vec<i64>> {
        let mut stmt = conn.prepare("SELECT DISTINCT zoom_level FROM tiles ORDER BY zoom_level")?;
        let rows = stmt.query_map([], |row| row.get(0))?;
        rows.collect()
    };
    go().map_err(|e| e.to_string())
}

/// Relies on `rusqlite::Connection::prepare` and `Statement::query_map`
/// with `BETWEEN` bounds on column and row: every returned tile lies inside
/// the requested rectangle at the requested zoom level.  An inverted range
/// yields no rows.
#[verifier::external_body]
pub(crate) fn read_tiles_in_rect(
    conn: &rusqlite::Connection,
    zoom: i64,
    col_min: i64,
    col_max: i64,
    row_min: i64,
    row_max: i64,
) -> (r: Result<Vec<(i64, i64, Vec<u8>)>, String>)
    ensures
        r matches Ok(v) ==> forall|i: int|
            #![trigger v@[i]]
            0 <= i < v@.len() ==> col_min <= v@[i].0 <= col_max && row_min <= v@[i].1 <= row_max,
{
    let go = || -> rusqlite::Result<Vec<(i64, i64, Vec<u8>)>> {
        let mut stmt = conn.prepare(
            "SELECT tile_column, tile_row, tile_data FROM tiles WHERE zoom_level = ?1 AND tile_column BETWEEN ?2 AND ?3 AND tile_row BETWEEN ?4 AND ?5",
        )?;
        let rows = stmt.query_map(
            (zoom, col_min, col_max, row_min, row_max),
            |row| Ok((row.get(0)?, row.get(1)?, row.get(2)?)),
        )?;
        rows.collect()
    };
    go().map_err(|e| e.to_string())
}

/// Relies on `rusqlite::Connection::execute` with an `INSERT` into the
/// tiles table, binding the coordinates as integers and the payload as an
/// unmodified blob.
#[verifier::external_body]
pub(crate) fn insert_tile(
    conn: &rusqlite::Connection,
    zoom: i64,
    col: i64,
    row: i64,
    data: &Vec<u8>,
) -> (r: Result<(), String>) {
    conn.execute(
        "INSERT INTO tiles (zoom_level, tile_column, tile_row, tile_data) VALUES (?1, ?2, ?3, ?4)",
        [&zoom as &dyn rusqlite::ToSql, &col, &row, data].as_slice(),
    ).map(|_| ()).map_err(|e| e.to_string())
}

} // verus!
