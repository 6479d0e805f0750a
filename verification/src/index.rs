//! The indexer: it walks an in-memory directory tree and upserts one
//! record per regular file into the store, keyed by absolute path.

use vstd::prelude::*;
use crate::fs_tree::{
    list_files, list_skipped, lemma_list_files_concat, lemma_list_files_single,
    lemma_list_skipped_concat, lemma_list_skipped_single, tree_files, tree_skipped, FileMetaV,
    FsTree,
};
use crate::store::{row_of, RowV, Store, StoreError};

verus! {

/// The store after upserting the files of `s` in order, starting from
/// `m`: insert if the path is absent, replace the whole row if present.
pub open spec fn upsert_seq(m: Map<Seq<char>, RowV>, s: Seq<FileMetaV>) -> Map<Seq<char>, RowV>
    decreases s.len(),
{
    if s.len() == 0 {
        m
    } else {
        upsert_seq(m.insert(s[0].path, row_of(s[0])), s.drop_first())
    }
}

/// Some file of `s` lies at path `p`.
pub open spec fn has_path(s: Seq<FileMetaV>, p: Seq<char>) -> bool {
    exists|i: int| 0 <= i < s.len() && s[i].path == p
}

/// The position of the last file of `s` at path `p` (meaningful only
/// when `has_path(s, p)`).
pub open spec fn last_ix(s: Seq<FileMetaV>, p: Seq<char>) -> int
    decreases s.len(),
{
    if s.len() > 0 && has_path(s.drop_first(), p) {
        1 + last_ix(s.drop_first(), p)
    } else {
        0
    }
}

/// No two files of `s` share a path.
pub open spec fn no_dup_paths(s: Seq<FileMetaV>) -> bool {
    forall|i: int, j: int| 0 <= i < j < s.len() ==> s[i].path != s[j].path
}

/// Every file size of `s` fits the store's integer column.
pub open spec fn sizes_fit(s: Seq<FileMetaV>) -> bool {
    forall|i: int| 0 <= i < s.len() ==> #[trigger] s[i].size <= i64::MAX
}

/// What one indexing run leaves at each path: a path no file of the run
/// touched keeps its old row; a path some file touched holds the row of
/// the last such file, and nothing is ever pruned.
pub proof fn lemma_upsert_seq_at(m: Map<Seq<char>, RowV>, s: Seq<FileMetaV>, p: Seq<char>)
    ensures
        !has_path(s, p) ==> (upsert_seq(m, s).contains_key(p) <==> m.contains_key(p)),
        !has_path(s, p) && m.contains_key(p) ==> upsert_seq(m, s)[p] == m[p],
        has_path(s, p) ==> upsert_seq(m, s).contains_key(p) && 0 <= last_ix(s, p) < s.len()
            && s[last_ix(s, p)].path == p && upsert_seq(m, s)[p] == row_of(s[last_ix(s, p)]),
    decreases s.len(),
{
    if s.len() == 0 {
    } else {
        let m1 = m.insert(s[0].path, row_of(s[0]));
        let rest = s.drop_first();
        lemma_upsert_seq_at(m1, rest, p);
        if has_path(rest, p) {
            assert(s[1 + last_ix(rest, p)] == rest[last_ix(rest, p)]);
            assert(has_path(s, p)) by {
                assert(s[1 + last_ix(rest, p)].path == p);
            }
        } else if s[0].path == p {
            assert(has_path(s, p)) by {
                assert(s[0].path == p);
            }
            assert(last_ix(s, p) == 0);
            assert(upsert_seq(m, s)[p] == m1[p]);
        } else {
            assert forall|i: int| 0 <= i < s.len() implies s[i].path != p by {
                if i > 0 {
                    assert(rest[i - 1] == s[i]);
                    assert(!(0 <= i - 1 < rest.len() && rest[i - 1].path == p));
                }
            }
            assert(!has_path(s, p));
        }
    }
}

/// Indexing the same unchanged set of files twice leaves the store
/// exactly as the first run left it: a re-run creates no second record
/// for any path and changes no field.
pub proof fn lemma_index_idempotent(m: Map<Seq<char>, RowV>, s: Seq<FileMetaV>)
    ensures
        upsert_seq(upsert_seq(m, s), s) == upsert_seq(m, s),
{
    let once = upsert_seq(m, s);
    let twice = upsert_seq(once, s);
    assert forall|p: Seq<char>| twice.contains_key(p) <==> once.contains_key(p) by {
        lemma_upsert_seq_at(m, s, p);
        lemma_upsert_seq_at(once, s, p);
    }
    assert forall|p: Seq<char>| #[trigger] twice.contains_key(p) implies twice[p] == once[p] by {
        lemma_upsert_seq_at(m, s, p);
        lemma_upsert_seq_at(once, s, p);
    }
    assert(twice =~= once);
}

/// If a file at path `p` is seen again by a later run (say with a new
/// size), the store afterwards holds exactly one row for `p` — the map
/// has one value per key — and that row is the one of the last file the
/// later run saw at `p`.
pub proof fn lemma_upsert_overwrites(
    m: Map<Seq<char>, RowV>,
    s1: Seq<FileMetaV>,
    s2: Seq<FileMetaV>,
    p: Seq<char>,
)
    requires
        has_path(s2, p),
    ensures
        upsert_seq(upsert_seq(m, s1), s2).contains_key(p),
        upsert_seq(upsert_seq(m, s1), s2)[p] == row_of(s2[last_ix(s2, p)]),
{
    lemma_upsert_seq_at(upsert_seq(m, s1), s2, p);
}

/// Indexing files with pairwise distinct paths into a store that holds
/// none of them grows the store by exactly one record per file.
pub proof fn lemma_upsert_seq_count(m: Map<Seq<char>, RowV>, s: Seq<FileMetaV>)
    requires
        m.dom().finite(),
        no_dup_paths(s),
        forall|i: int| 0 <= i < s.len() ==> !m.contains_key(#[trigger] s[i].path),
    ensures
        upsert_seq(m, s).dom().finite(),
        upsert_seq(m, s).dom().len() == m.dom().len() + s.len(),
    decreases s.len(),
{
    if s.len() > 0 {
        let m1 = m.insert(s[0].path, row_of(s[0]));
        let rest = s.drop_first();
        assert(m1.dom() =~= m.dom().insert(s[0].path));
        assert forall|i: int| 0 <= i < rest.len() implies !m1.contains_key(
            #[trigger] rest[i].path,
        ) by {
            assert(rest[i] == s[i + 1]);
            assert(s[0].path != s[i + 1].path);
        }
        lemma_upsert_seq_count(m1, rest);
    }
}

/// Indexing a tree of `N` regular files, none sharing a path, into an
/// empty store produces exactly `N` records, at any nesting depth.
pub proof fn lemma_traversal_complete(t: FsTree)
    requires
        no_dup_paths(tree_files(t)),
    ensures
        upsert_seq(Map::empty(), tree_files(t)).dom().finite(),
        upsert_seq(Map::empty(), tree_files(t)).dom().len() == tree_files(t).len(),
{
    let m = Map::<Seq<char>, RowV>::empty();
    assert(m.dom() =~= Set::<Seq<char>>::empty());
    lemma_upsert_seq_count(m, tree_files(t));
}

/// The files of two runs, indexed one after the other, leave the store
/// exactly as indexing the concatenation of the runs would.
pub proof fn lemma_upsert_seq_concat(m: Map<Seq<char>, RowV>, a: Seq<FileMetaV>, b: Seq<FileMetaV>)
    ensures
        upsert_seq(m, a + b) == upsert_seq(upsert_seq(m, a), b),
    decreases a.len(),
{
    if a.len() == 0 {
        assert(a + b =~= b);
    } else {
        assert((a + b).drop_first() =~= a.drop_first() + b);
        assert((a + b)[0] == a[0]);
        lemma_upsert_seq_concat(m.insert(a[0].path, row_of(a[0])), a.drop_first(), b);
    }
}

/// The views of a list of warning strings.
pub open spec fn strs_view(s: Seq<String>) -> Seq<Seq<char>> {
    s.map_values(|x: String| x@)
}

/// What one indexing run reports: how many file records were written,
/// the paths of entries that were skipped (never fatal), and — when the
/// store refused a write — the error that ended the run early.
#[derive(Debug)]
pub struct IndexReport {
    /// How many file records were written.
    pub files_indexed: usize,
    /// The paths of the entries that were skipped.
    pub warnings: Vec<String>,
    /// `None` when the run covered the whole tree; otherwise the store
    /// error that ended it, after `files_indexed` writes.
    pub failure: Option<StoreError>,
}

fn index_node(
    store: &mut Store,
    t: &FsTree,
    files: &mut usize,
    warnings: &mut Vec<String>,
) -> (r: Result<(), StoreError>)
    requires
        sizes_fit(tree_files(*t)),
        *old(files) + tree_files(*t).len() <= usize::MAX,
    ensures
        r is Ok ==> final(store)@ == upsert_seq(old(store)@, tree_files(*t)) && *final(files)
            == *old(files) + tree_files(*t).len() && strs_view(final(warnings)@) == strs_view(
            old(warnings)@,
        ) + tree_skipped(*t),
        r matches Err(e) ==> e == StoreError::StoreWriteFailed && 0 < tree_files(*t).len()
            && exists|k: int, w: int|
            0 <= k < tree_files(*t).len() && 0 <= w <= tree_skipped(*t).len() && final(store)@
                == upsert_seq(old(store)@, tree_files(*t).take(k)) && *final(files) == *old(files)
                + k && strs_view(final(warnings)@) == strs_view(old(warnings)@) + tree_skipped(
                *t,
            ).take(w),
    decreases *t,
{
    match t {
        FsTree::File(meta) => {
            proof {
                assert(tree_files(*t) == seq![meta@]);
                assert(seq![meta@][0] == meta@);
                assert(meta@.size <= i64::MAX);
                assert(seq![meta@].drop_first() =~= Seq::<FileMetaV>::empty());
            }
            match store.upsert(meta) {
                Ok(()) => {
                    *files = *files + 1;
                    proof {
                        let m1 = old(store)@.insert(meta@.path, row_of(meta@));
                        assert(upsert_seq(m1, Seq::<FileMetaV>::empty()) == m1);
                        assert(upsert_seq(old(store)@, seq![meta@]) == m1);
                        assert(strs_view(warnings@) + tree_skipped(*t) =~= strs_view(warnings@));
                    }
                    Ok(())
                },
                Err(e) => {
                    proof {
                        let s = tree_files(*t);
                        assert(s.take(0) =~= Seq::<FileMetaV>::empty());
                        assert(upsert_seq(old(store)@, s.take(0)) == old(store)@);
                        assert(tree_skipped(*t).take(0) =~= Seq::<Seq<char>>::empty());
                        assert(strs_view(warnings@) + tree_skipped(*t).take(0) =~= strs_view(
                            warnings@,
                        ));
                    }
                    Err(e)
                },
            }
        },
        FsTree::Skipped(p) => {
            warnings.push(p.clone());
            proof {
                assert(tree_skipped(*t) == seq![p@]);
                assert(strs_view(warnings@) =~= strs_view(old(warnings)@) + seq![p@]);
            }
            Ok(())
        },
        FsTree::Dir(es) => {
            let n = es.len();
            for i in 0..n
                invariant
                    n == es@.len(),
                    *t == FsTree::Dir(*es),
                    sizes_fit(tree_files(*t)),
                    *old(files) + tree_files(*t).len() <= usize::MAX,
                    tree_files(*t) == list_files(es@),
                    tree_skipped(*t) == list_skipped(es@),
                    store@ == upsert_seq(old(store)@, list_files(es@.take(i as int))),
                    *files == *old(files) + list_files(es@.take(i as int)).len(),
                    strs_view(warnings@) == strs_view(old(warnings)@) + list_skipped(
                        es@.take(i as int),
                    ),
                decreases n - i,
            {
                let ghost pre = es@.take(i as int);
                let ghost child = es@[i as int];
                let ghost cf = tree_files(child);
                let ghost csk = tree_skipped(child);
                let ghost total = tree_files(*t);
                let ghost total_sk = tree_skipped(*t);
                proof {
                    assert(es@.take(i + 1) =~= pre + seq![child]);
                    lemma_list_files_concat(pre, seq![child]);
                    lemma_list_files_single(child);
                    lemma_list_skipped_concat(pre, seq![child]);
                    lemma_list_skipped_single(child);
                    assert(es@.take(i + 1) + es@.skip(i + 1) =~= es@);
                    lemma_list_files_concat(es@.take(i + 1), es@.skip(i + 1));
                    lemma_list_skipped_concat(es@.take(i + 1), es@.skip(i + 1));
                    assert(total == (list_files(pre) + cf) + list_files(es@.skip(i + 1)));
                    assert(total_sk == (list_skipped(pre) + csk) + list_skipped(es@.skip(i + 1)));
                    assert forall|j: int| 0 <= j < cf.len() implies #[trigger] cf[j].size
                        <= i64::MAX by {
                        assert(cf[j] == total[list_files(pre).len() + j]);
                        assert(total[list_files(pre).len() + j].size <= i64::MAX);
                    }
                    assert(decreases_to!(*t => (*t)->Dir_0));
                    assert((*t)->Dir_0 == *es);
                    assert(decreases_to!(*es => es@));
                    assert(decreases_to!(es@ => es@[i as int]));
                }
                match index_node(store, &es[i], files, warnings) {
                    Ok(()) => {
                        proof {
                            lemma_upsert_seq_concat(old(store)@, list_files(pre), cf);
                        }
                    },
                    Err(e) => {
                        proof {
                            let (k2, w2) = choose|k2: int, w2: int|
                                0 <= k2 < cf.len() && 0 <= w2 <= csk.len() && store@ == upsert_seq(
                                    upsert_seq(old(store)@, list_files(pre)),
                                    cf.take(k2),
                                ) && *files == *old(files) + list_files(pre).len() + k2
                                    && strs_view(warnings@) == (strs_view(old(warnings)@)
                                    + list_skipped(pre)) + csk.take(w2);
                            let k = list_files(pre).len() + k2;
                            let w = list_skipped(pre).len() + w2;
                            assert(total.take(k) =~= list_files(pre) + cf.take(k2));
                            lemma_upsert_seq_concat(old(store)@, list_files(pre), cf.take(k2));
                            assert(store@ == upsert_seq(old(store)@, total.take(k)));
                            assert(total_sk.take(w) =~= list_skipped(pre) + csk.take(w2));
                            assert(strs_view(warnings@) =~= strs_view(old(warnings)@) + (
                            list_skipped(pre) + csk.take(w2)));
                            assert(0 < cf.len());
                            assert(k < total.len());
                            assert(w <= total_sk.len());
                        }
                        return Err(e);
                    },
                }
            }
            proof {
                assert(es@.take(n as int) =~= es@);
            }
            Ok(())
        },
    }
}

/// Indexes every regular file of `tree` into the store: one record per
/// file, keyed by path, inserted or fully replaced. Skipped entries are
/// reported as warnings; a store write failure ends the run early, with
/// the count of records already written. Records are never pruned: a
/// path the run did not touch keeps its old record, so entries for
/// files that no longer exist persist until a run of their directory
/// overwrites them — a documented limitation of the upsert-only design.
pub fn index_tree(store: &mut Store, tree: &FsTree) -> (r: IndexReport)
    requires
        sizes_fit(tree_files(*tree)),
        tree_files(*tree).len() <= usize::MAX,
    ensures
        r.failure is None ==> final(store)@ == upsert_seq(old(store)@, tree_files(*tree))
            && r.files_indexed == tree_files(*tree).len() && strs_view(r.warnings@)
            == tree_skipped(*tree),
        r.failure matches Some(e) ==> e == StoreError::StoreWriteFailed && 0 < tree_files(
            *tree,
        ).len() && exists|k: int, w: int|
            0 <= k < tree_files(*tree).len() && 0 <= w <= tree_skipped(*tree).len()
                && final(store)@ == upsert_seq(old(store)@, tree_files(*tree).take(k))
                && r.files_indexed == k && strs_view(r.warnings@) == tree_skipped(*tree).take(w),
{
    let mut files: usize = 0;
    let mut warnings: Vec<String> = Vec::new();
    let outcome = index_node(store, tree, &mut files, &mut warnings);
    proof {
        assert(strs_view(Seq::<String>::empty()) =~= Seq::<Seq<char>>::empty());
        assert(strs_view(Seq::<String>::empty()) + tree_skipped(*tree) =~= tree_skipped(*tree));
        if outcome matches Err(e) {
            let (k, w) = choose|k: int, w: int|
                0 <= k < tree_files(*tree).len() && 0 <= w <= tree_skipped(*tree).len() && store@
                    == upsert_seq(old(store)@, tree_files(*tree).take(k)) && files == k
                    && strs_view(warnings@) == strs_view(Seq::<String>::empty()) + tree_skipped(
                    *tree,
                ).take(w);
            assert(strs_view(warnings@) =~= tree_skipped(*tree).take(w));
        }
    }
    match outcome {
        Ok(()) => IndexReport { files_indexed: files, warnings, failure: None },
        Err(e) => IndexReport { files_indexed: files, warnings, failure: Some(e) },
    }
}

} // verus!
