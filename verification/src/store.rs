//! The persistent store of `FileRecord`s: a SQLite-backed table, modelled
//! as a map from each absolute path to the row stored under it.

use vstd::prelude::*;
use crate::fs_tree::FileMetaV;
use crate::fs_tree::FileMeta;
use crate::record::{ext_of, extension_from_name, FileRecord};
use crate::sql;

verus! {

/// What the store holds under one path: the file's name, size and
/// extension.
pub type RowV = (Seq<char>, u64, Seq<char>);

/// The row the indexer writes for a file: name and size as observed, the
/// extension derived from the name.
pub open spec fn row_of(m: FileMetaV) -> RowV {
    (m.name, m.size, ext_of(m.name))
}

/// The returned row tuples `(path, name, size, extension)` carry exactly
/// the store's map: each path once, every stored path present, in no
/// particular order.
pub open spec fn rows_match(s: Seq<(String, String, u64, String)>, m: Map<Seq<char>, RowV>) -> bool {
    &&& forall|i: int, j: int| 0 <= i < j < s.len() ==> s[i].0@ != s[j].0@
    &&& forall|i: int|
        0 <= i < s.len() ==> #[trigger] m.contains_pair(s[i].0@, (s[i].1@, s[i].2, s[i].3@))
    &&& forall|p: Seq<char>|
        #[trigger] m.contains_key(p) ==> exists|i: int| 0 <= i < s.len() && s[i].0@ == p
}

/// As `rows_match`, over finished `FileRecord`s.
pub open spec fn records_match(s: Seq<FileRecord>, m: Map<Seq<char>, RowV>) -> bool {
    &&& forall|i: int, j: int| 0 <= i < j < s.len() ==> s[i]@.path != s[j]@.path
    &&& forall|i: int|
        0 <= i < s.len() ==> #[trigger] m.contains_pair(
            s[i]@.path,
            (s[i]@.name, s[i]@.size, s[i]@.extension),
        )
    &&& forall|p: Seq<char>|
        #[trigger] m.contains_key(p) ==> exists|i: int| 0 <= i < s.len() && s[i]@.path == p
}

/// Why a store operation failed.
#[derive(Clone, Copy, Debug, PartialEq, Eq, Structural)]
pub enum StoreError {
    /// The path handed to the indexer does not exist.
    PathNotFound,
    /// The path handed to the indexer cannot be read.
    PermissionDenied,
    /// The store file cannot be opened or its schema cannot be created.
    StoreUnavailable,
    /// An upsert did not go through; the store is as it was before it.
    StoreWriteFailed,
    /// A read-only query did not go through; the store is unchanged.
    StoreQueryFailed,
}

/// A handle on the persistent index. Its mathematical value is the map
/// from each stored path to that path's row.
pub struct Store {
    conn: rusqlite::Connection,
}

impl View for Store {
    type V = Map<Seq<char>, RowV>;

    closed spec fn view(&self) -> Map<Seq<char>, RowV> {
        sql::db_rows(self.conn)
    }
}

impl Store {
    /// Opens (or creates) the store file at `path` and makes sure the
    /// schema exists. What the store already holds depends on the disk.
    pub fn open(path: &str) -> (r: Result<Store, StoreError>)
        ensures
            r matches Err(e) ==> e == StoreError::StoreUnavailable,
    {
        match sql::open_conn(path) {
            Ok(mut conn) => {
                match sql::create_files_table(&mut conn) {
                    Ok(()) => Ok(Store { conn }),
                    Err(_) => Err(StoreError::StoreUnavailable),
                }
            },
            Err(_) => Err(StoreError::StoreUnavailable),
        }
    }

    /// Opens a fresh, empty in-memory store.
    pub fn open_in_memory() -> (r: Result<Store, StoreError>)
        ensures
            r matches Ok(s) ==> s@ == Map::<Seq<char>, RowV>::empty(),
            r matches Err(e) ==> e == StoreError::StoreUnavailable,
    {
        match sql::open_mem_conn() {
            Ok(mut conn) => {
                match sql::create_files_table(&mut conn) {
                    Ok(()) => Ok(Store { conn }),
                    Err(_) => Err(StoreError::StoreUnavailable),
                }
            },
            Err(_) => Err(StoreError::StoreUnavailable),
        }
    }

    /// Inserts the record for one file, replacing in full any record the
    /// store already held under the same path.
    pub fn upsert(&mut self, meta: &FileMeta) -> (r: Result<(), StoreError>)
        requires
            meta@.size <= i64::MAX,
        ensures
            r is Ok ==> final(self)@ == old(self)@.insert(meta@.path, row_of(meta@)),
            r is Err ==> final(self)@ == old(self)@ && r == Err::<(), StoreError>(
                StoreError::StoreWriteFailed,
            ),
    {
        let ext = extension_from_name(meta.name.as_str());
        match sql::insert_row(
            &mut self.conn,
            meta.path.as_str(),
            meta.name.as_str(),
            meta.size,
            ext.as_str(),
        ) {
            Ok(()) => Ok(()),
            Err(_) => Err(StoreError::StoreWriteFailed),
        }
    }

    /// Every record the store holds, one per path, in no particular
    /// order.
    pub fn all_records(&self) -> (r: Result<Vec<FileRecord>, StoreError>)
        ensures
            r matches Ok(v) ==> records_match(v@, self@),
            r matches Err(e) ==> e == StoreError::StoreQueryFailed,
    {
        let rows = match sql::select_rows(&self.conn) {
            Ok(rows) => rows,
            Err(_) => {
                return Err(StoreError::StoreQueryFailed);
            },
        };
        let mut records: Vec<FileRecord> = Vec::new();
        let n = rows.len();
        for i in 0..n
            invariant
                n == rows@.len(),
                records@.len() == i,
                rows_match(rows@, self@),
                forall|j: int|
                    0 <= j < i ==> records@[j]@.path == rows@[j].0@ && records@[j]@.name
                        == rows@[j].1@ && records@[j]@.size == rows@[j].2 && records@[j]@.extension
                        == rows@[j].3@,
            decreases n - i,
        {
            let row = &rows[i];
            let path = row.0.clone();
            let name = row.1.clone();
            let size = row.2;
            let extension = row.3.clone();
            records.push(FileRecord { path, name, size, extension });
        }
        proof {
            assert forall|i: int, j: int| 0 <= i < j < records@.len() implies records@[i]@.path
                != records@[j]@.path by {
                assert(records@[i]@.path == rows@[i].0@);
                assert(records@[j]@.path == rows@[j].0@);
            }
            assert forall|i: int| 0 <= i < records@.len() implies #[trigger] self@.contains_pair(
                records@[i]@.path,
                (records@[i]@.name, records@[i]@.size, records@[i]@.extension),
            ) by {
                assert(self@.contains_pair(rows@[i].0@, (rows@[i].1@, rows@[i].2, rows@[i].3@)));
            }
            assert forall|p: Seq<char>| #[trigger] self@.contains_key(p) implies exists|j: int|
                0 <= j < records@.len() && records@[j]@.path == p by {
                let j = choose|j: int| 0 <= j < rows@.len() && rows@[j].0@ == p;
                assert(records@[j]@.path == p);
            }
        }
        Ok(records)
    }
}

} // verus!
