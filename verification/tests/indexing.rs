use bigfiles::fs_tree::{count_files, FileMeta, FsTree};
use bigfiles::index::index_tree;
use bigfiles::record::extension_from_name;
use bigfiles::store::{Store, StoreError};

fn file(path: &str, name: &str, size: u64) -> FsTree {
    FsTree::File(FileMeta { path: path.to_string(), name: name.to_string(), size })
}

#[test]
fn extension_of_multi_dot_name() {
    assert_eq!(extension_from_name("archive.tar.gz"), "gz");
}

#[test]
fn extension_of_dotless_name() {
    assert_eq!(extension_from_name("README"), "");
}

#[test]
fn extension_is_lowercased() {
    assert_eq!(extension_from_name("photo.JPG"), "jpg");
    assert_eq!(extension_from_name("Mixed.TxT"), "txt");
}

#[test]
fn extension_edge_shapes() {
    assert_eq!(extension_from_name("trailing."), "");
    assert_eq!(extension_from_name(".gitignore"), "gitignore");
    assert_eq!(extension_from_name(""), "");
}

#[test]
fn count_files_nested_tree() {
    let tree = FsTree::Dir(vec![
        file("/r/a.txt", "a.txt", 1),
        FsTree::Dir(vec![
            file("/r/d1/b.txt", "b.txt", 2),
            FsTree::Dir(vec![file("/r/d1/d2/c.txt", "c.txt", 3)]),
        ]),
        FsTree::Skipped("/r/weird".to_string()),
        FsTree::Dir(vec![]),
    ]);
    assert_eq!(count_files(&tree), 3);
}

#[test]
fn indexing_writes_one_record_per_file() {
    let tree = FsTree::Dir(vec![
        file("/r/a.txt", "a.txt", 10),
        FsTree::Dir(vec![file("/r/d/b.bin", "b.bin", 20)]),
    ]);
    let mut store = Store::open_in_memory().unwrap();
    let report = index_tree(&mut store, &tree);
    assert!(report.failure.is_none());
    assert_eq!(report.files_indexed, 2);
    assert!(report.warnings.is_empty());
    let mut records = store.all_records().unwrap();
    records.sort_by(|x, y| x.path.cmp(&y.path));
    assert_eq!(records.len(), 2);
    assert_eq!(records[0].path, "/r/a.txt");
    assert_eq!(records[0].name, "a.txt");
    assert_eq!(records[0].size, 10);
    assert_eq!(records[0].extension, "txt");
    assert_eq!(records[1].path, "/r/d/b.bin");
    assert_eq!(records[1].extension, "bin");
}

#[test]
fn indexing_twice_is_idempotent() {
    let tree = FsTree::Dir(vec![
        file("/r/a.txt", "a.txt", 10),
        FsTree::Dir(vec![file("/r/d/b.bin", "b.bin", 20)]),
    ]);
    let mut store = Store::open_in_memory().unwrap();
    index_tree(&mut store, &tree);
    let mut first: Vec<_> = store
        .all_records()
        .unwrap()
        .into_iter()
        .map(|r| (r.path, r.name, r.size, r.extension))
        .collect();
    first.sort();
    index_tree(&mut store, &tree);
    let mut second: Vec<_> = store
        .all_records()
        .unwrap()
        .into_iter()
        .map(|r| (r.path, r.name, r.size, r.extension))
        .collect();
    second.sort();
    assert_eq!(first, second);
    assert_eq!(first.len(), 2);
}

#[test]
fn reindexing_changed_size_keeps_one_record() {
    let before = FsTree::Dir(vec![file("/r/a.txt", "a.txt", 100)]);
    let after = FsTree::Dir(vec![file("/r/a.txt", "a.txt", 250)]);
    let mut store = Store::open_in_memory().unwrap();
    index_tree(&mut store, &before);
    index_tree(&mut store, &after);
    let records = store.all_records().unwrap();
    assert_eq!(records.len(), 1);
    assert_eq!(records[0].path, "/r/a.txt");
    assert_eq!(records[0].size, 250);
}

#[test]
fn skipped_entries_become_warnings() {
    let tree = FsTree::Dir(vec![
        file("/r/a.txt", "a.txt", 1),
        FsTree::Skipped("/r/socket".to_string()),
    ]);
    let mut store = Store::open_in_memory().unwrap();
    let report = index_tree(&mut store, &tree);
    assert!(report.failure.is_none());
    assert_eq!(report.files_indexed, 1);
    assert_eq!(report.warnings, vec!["/r/socket".to_string()]);
}

#[test]
fn opening_a_directory_as_store_fails() {
    let r = Store::open(".");
    assert_eq!(r.err(), Some(StoreError::StoreUnavailable));
}

#[test]
fn size_at_integer_column_limit_roundtrips() {
    let tree = FsTree::Dir(vec![file("/r/huge.bin", "huge.bin", i64::MAX as u64)]);
    let mut store = Store::open_in_memory().unwrap();
    let report = index_tree(&mut store, &tree);
    assert!(report.failure.is_none());
    let records = store.all_records().unwrap();
    assert_eq!(records.len(), 1);
    assert_eq!(records[0].size, i64::MAX as u64);
}

#[test]
fn same_path_twice_in_one_run_keeps_last() {
    let tree = FsTree::Dir(vec![
        file("/r/a.txt", "a.txt", 10),
        file("/r/a.txt", "a.txt", 99),
    ]);
    let mut store = Store::open_in_memory().unwrap();
    let report = index_tree(&mut store, &tree);
    assert!(report.failure.is_none());
    assert_eq!(report.files_indexed, 2);
    let records = store.all_records().unwrap();
    assert_eq!(records.len(), 1);
    assert_eq!(records[0].size, 99);
}

#[test]
fn warnings_come_in_traversal_order() {
    let tree = FsTree::Dir(vec![
        FsTree::Skipped("/r/first".to_string()),
        FsTree::Dir(vec![FsTree::Skipped("/r/d/second".to_string())]),
        FsTree::Skipped("/r/third".to_string()),
    ]);
    let mut store = Store::open_in_memory().unwrap();
    let report = index_tree(&mut store, &tree);
    assert_eq!(
        report.warnings,
        vec![
            "/r/first".to_string(),
            "/r/d/second".to_string(),
            "/r/third".to_string()
        ]
    );
    assert_eq!(report.files_indexed, 0);
}
