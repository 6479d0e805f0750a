use bigfiles::fs_tree::{FileMeta, FsTree};
use bigfiles::index::index_tree;
use bigfiles::query::{find_duplicates, find_largest};
use bigfiles::record::FileRecord;
use bigfiles::store::Store;

fn rec(path: &str, name: &str, size: u64) -> FileRecord {
    FileRecord {
        path: path.to_string(),
        name: name.to_string(),
        size,
        extension: bigfiles::record::extension_from_name(name),
    }
}

#[test]
fn duplicates_groups_same_name_and_size() {
    let records = vec![
        rec("/x/a.txt", "a.txt", 100),
        rec("/x/b.txt", "b.txt", 100),
        rec("/y/a.txt", "a.txt", 100),
    ];
    let groups = find_duplicates(&records);
    assert_eq!(groups.len(), 1);
    assert_eq!(groups[0].name, "a.txt");
    assert_eq!(groups[0].size, 100);
    assert_eq!(groups[0].count, 2);
    assert_eq!(
        groups[0].paths,
        vec!["/x/a.txt".to_string(), "/y/a.txt".to_string()]
    );
}

#[test]
fn duplicates_empty_when_no_pair_repeats() {
    let records = vec![
        rec("/x/a.txt", "a.txt", 100),
        rec("/x/b.txt", "b.txt", 100),
        rec("/y/a.txt", "a.txt", 101),
    ];
    let groups = find_duplicates(&records);
    assert!(groups.is_empty());
}

#[test]
fn duplicates_on_no_records_is_empty() {
    let groups = find_duplicates(&Vec::new());
    assert!(groups.is_empty());
}

#[test]
fn duplicates_ordered_by_size_descending() {
    let records = vec![
        rec("/1/s.log", "s.log", 5),
        rec("/2/s.log", "s.log", 5),
        rec("/1/big.iso", "big.iso", 900),
        rec("/2/big.iso", "big.iso", 900),
        rec("/3/big.iso", "big.iso", 900),
    ];
    let groups = find_duplicates(&records);
    assert_eq!(groups.len(), 2);
    assert_eq!(groups[0].name, "big.iso");
    assert_eq!(groups[0].count, 3);
    assert_eq!(groups[1].name, "s.log");
    assert_eq!(groups[1].count, 2);
    assert!(groups[0].size >= groups[1].size);
}

#[test]
fn largest_returns_top_sizes_in_order() {
    let records = vec![
        rec("/f/a", "a", 10),
        rec("/f/b", "b", 500),
        rec("/f/c", "c", 3),
        rec("/f/d", "d", 500),
        rec("/f/e", "e", 1),
    ];
    let top = find_largest(records, 3);
    let sizes: Vec<u64> = top.iter().map(|r| r.size).collect();
    assert_eq!(sizes, vec![500, 500, 10]);
}

#[test]
fn largest_with_zero_limit_is_empty() {
    let records = vec![rec("/f/a", "a", 10)];
    let top = find_largest(records, 0);
    assert!(top.is_empty());
}

#[test]
fn largest_with_large_limit_returns_all_sorted() {
    let records = vec![rec("/f/a", "a", 10), rec("/f/b", "b", 7), rec("/f/c", "c", 22)];
    let top = find_largest(records, 50);
    let sizes: Vec<u64> = top.iter().map(|r| r.size).collect();
    assert_eq!(sizes, vec![22, 10, 7]);
}

#[test]
fn largest_over_store_records() {
    let tree = FsTree::Dir(vec![
        FsTree::File(FileMeta { path: "/r/a".to_string(), name: "a".to_string(), size: 4 }),
        FsTree::File(FileMeta { path: "/r/b".to_string(), name: "b".to_string(), size: 9 }),
        FsTree::File(FileMeta { path: "/r/c".to_string(), name: "c".to_string(), size: 1 }),
    ]);
    let mut store = Store::open_in_memory().unwrap();
    index_tree(&mut store, &tree);
    let records = store.all_records().unwrap();
    let top = find_largest(records, 2);
    assert_eq!(top.len(), 2);
    assert_eq!(top[0].size, 9);
    assert_eq!(top[1].size, 4);
}
