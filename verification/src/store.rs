//! The persistent index: mirrors a parsed dictionary's catalog into an
//! embedded relational store (one `MDX_INDEX(text, def)` table per
//! dictionary file), so queries need not re-parse the MDX container.

use vstd::prelude::*;

use crate::MdxError;
use crate::mdx::{Mdx, items_spec};

verus! {

#[verifier::external_type_specification]
#[verifier::external_body]
pub struct ExConnection(rusqlite::Connection);

/// Relies on `rusqlite::Connection::open`: opens (creating it if absent) the
/// database file at `path`. The outcome depends on the disk, so nothing more
/// is promised.
#[verifier::external_body]
pub(crate) fn store_open(path: &str) -> (r: Option<rusqlite::Connection>) {
    rusqlite::Connection::open(path).ok()
}

/// Relies on `rusqlite::Connection::execute` with
/// `rusqlite::params_from_iter`: runs one SQL statement with string
/// parameters. The effect lands on disk; only the error kind is promised —
/// a lock timeout surfaces as `Busy`, any other failure as `StoreError`.
#[verifier::external_body]
pub(crate) fn store_exec(conn: &rusqlite::Connection, sql: &str, params: &Vec<String>) -> (r:
    Result<(), MdxError>)
    ensures
        r is Err ==> r.unwrap_err() == MdxError::Busy || r.unwrap_err() == MdxError::StoreError,
{
    match conn.execute(sql, rusqlite::params_from_iter(params.iter())) {
        Ok(_) => Ok(()),
        Err(rusqlite::Error::SqliteFailure(f, _)) => match f.code {
            rusqlite::ErrorCode::DatabaseBusy => Err(MdxError::Busy),
            _ => Err(MdxError::StoreError),
        },
        Err(_) => Err(MdxError::StoreError),
    }
}

/// Relies on `rusqlite::Connection::query_row` and `rusqlite::Row::get`:
/// hands back the first column of the first row, or nothing — whatever the
/// store on disk holds.
#[verifier::external_body]
pub(crate) fn store_query_first(conn: &rusqlite::Connection, sql: &str, param: &str) -> (r: Option<
    String,
>) {
    conn.query_row(sql, [param], |row| row.get::<usize, String>(0)).ok()
}

/// Mirrors the dictionary's catalog into the store at `store_path`: creates
/// the `MDX_INDEX` table if absent, then inserts every `(headword,
/// definition)` pair with replace-on-conflict semantics inside a single
/// transaction. Success requires that every record block decoded, so `Ok`
/// guarantees the whole catalog was enumerated; a catalog fault is returned
/// unchanged, before the store is touched.
pub fn build_index(dict: &Mdx, store_path: &str) -> (r: Result<(), MdxError>)
    requires
        dict.wf(),
    ensures
        r is Ok ==> items_spec(dict@) is Ok,
        items_spec(dict@) is Err ==> r == Err::<(), MdxError>(items_spec(dict@)->Err_0),
{
    let rows = match dict.items() {
        Ok(v) => v,
        Err(e) => {
            return Err(e);
        },
    };
    let conn = match store_open(store_path) {
        Some(c) => c,
        None => {
            return Err(MdxError::StoreError);
        },
    };
    let no_params: Vec<String> = Vec::new();
    match store_exec(
        &conn,
        "create table if not exists MDX_INDEX (text text primary key not null, def text not null)",
        &no_params,
    ) {
        Ok(()) => (),
        Err(e) => {
            return Err(e);
        },
    }
    match store_exec(&conn, "BEGIN TRANSACTION", &no_params) {
        Ok(()) => (),
        Err(e) => {
            return Err(e);
        },
    }
    let n = rows.len();
    let mut k: usize = 0;
    while k < n
        invariant
            0 <= k <= n,
            n == rows@.len(),
            items_spec(dict@) is Ok,
        decreases n - k,
    {
        let mut params: Vec<String> = Vec::new();
        params.push(rows[k].text.clone());
        params.push(rows[k].definition.clone());
        match store_exec(&conn, "insert or replace into MDX_INDEX values (?1, ?2)", &params) {
            Ok(()) => (),
            Err(e) => {
                return Err(e);
            },
        }
        k = k + 1;
    }
    match store_exec(&conn, "COMMIT", &no_params) {
        Ok(()) => (),
        Err(e) => {
            return Err(e);
        },
    }
    Ok(())
}

/// Whether a companion store must be rebuilt: when it does not exist yet, or
/// when the caller forces a reindex.
pub fn should_rebuild(store_exists: bool, reindex: bool) -> (r: bool)
    ensures
        r == (!store_exists || reindex),
{
    !store_exists || reindex
}

} // verus!
