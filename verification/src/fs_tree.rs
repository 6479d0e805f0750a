//! An in-memory image of a directory tree, as the traversal hands it to the
//! indexer: regular files with their metadata, nested directories, and
//! entries that could not be read (skipped, never fatal).

use vstd::prelude::*;

verus! {

/// The metadata of one regular file, as the filesystem reported it.
pub struct FileMeta {
    /// The absolute path of the file: the key it is indexed under.
    pub path: String,
    /// The base file name, extension included.
    pub name: String,
    /// The byte length at scan time.
    pub size: u64,
}

/// The mathematical image of a `FileMeta`.
pub struct FileMetaV {
    pub path: Seq<char>,
    pub name: Seq<char>,
    pub size: u64,
}

impl View for FileMeta {
    type V = FileMetaV;

    open spec fn view(&self) -> FileMetaV {
        FileMetaV { path: self.path@, name: self.name@, size: self.size as u64 }
    }
}

/// One entry of a directory tree. A directory holds its entries in the
/// order the filesystem enumerated them (unspecified, not guaranteed
/// stable). A `Skipped` entry records the path of something that was
/// neither a readable regular file nor a readable directory.
pub enum FsTree {
    File(FileMeta),
    Dir(Vec<FsTree>),
    Skipped(String),
}

/// The regular files of a tree, in traversal order: depth first, siblings
/// in enumeration order.
pub open spec fn tree_files(t: FsTree) -> Seq<FileMetaV>
    decreases t,
{
    match t {
        FsTree::File(m) => seq![m@],
        FsTree::Dir(es) => list_files(es@),
        FsTree::Skipped(_) => Seq::empty(),
    }
}

/// The regular files of a sequence of sibling entries, in order.
pub open spec fn list_files(ts: Seq<FsTree>) -> Seq<FileMetaV>
    decreases ts,
{
    if ts.len() == 0 {
        Seq::empty()
    } else {
        tree_files(ts[0]) + list_files(ts.drop_first())
    }
}

/// The paths of the skipped entries of a tree, in traversal order.
pub open spec fn tree_skipped(t: FsTree) -> Seq<Seq<char>>
    decreases t,
{
    match t {
        FsTree::File(_) => Seq::empty(),
        FsTree::Dir(es) => list_skipped(es@),
        FsTree::Skipped(p) => seq![p@],
    }
}

/// The paths of the skipped entries of a sequence of sibling entries.
pub open spec fn list_skipped(ts: Seq<FsTree>) -> Seq<Seq<char>>
    decreases ts,
{
    if ts.len() == 0 {
        Seq::empty()
    } else {
        tree_skipped(ts[0]) + list_skipped(ts.drop_first())
    }
}

/// The files of two runs of siblings, one after the other, are the files
/// of the first run followed by the files of the second.
pub proof fn lemma_list_files_concat(a: Seq<FsTree>, b: Seq<FsTree>)
    ensures
        list_files(a + b) == list_files(a) + list_files(b),
    decreases a.len(),
{
    if a.len() == 0 {
        assert(a + b =~= b);
        assert(list_files(a) + list_files(b) =~= list_files(b));
    } else {
        assert((a + b).drop_first() =~= a.drop_first() + b);
        lemma_list_files_concat(a.drop_first(), b);
        assert(list_files(a + b) =~= list_files(a) + list_files(b));
    }
}

/// As `lemma_list_files_concat`, for the skipped paths.
pub proof fn lemma_list_skipped_concat(a: Seq<FsTree>, b: Seq<FsTree>)
    ensures
        list_skipped(a + b) == list_skipped(a) + list_skipped(b),
    decreases a.len(),
{
    if a.len() == 0 {
        assert(a + b =~= b);
        assert(list_skipped(a) + list_skipped(b) =~= list_skipped(b));
    } else {
        assert((a + b).drop_first() =~= a.drop_first() + b);
        lemma_list_skipped_concat(a.drop_first(), b);
        assert(list_skipped(a + b) =~= list_skipped(a) + list_skipped(b));
    }
}

/// A run of one sibling holds exactly the files of that sibling.
pub proof fn lemma_list_files_single(t: FsTree)
    ensures
        list_files(seq![t]) == tree_files(t),
{
    let s = seq![t];
    assert(s.drop_first() =~= Seq::<FsTree>::empty());
    assert(list_files(Seq::<FsTree>::empty()) =~= Seq::<FileMetaV>::empty());
    assert(list_files(s) =~= tree_files(t) + Seq::<FileMetaV>::empty());
    assert(tree_files(t) + Seq::<FileMetaV>::empty() =~= tree_files(t));
}

/// A run of one sibling holds exactly the skipped paths of that sibling.
pub proof fn lemma_list_skipped_single(t: FsTree)
    ensures
        list_skipped(seq![t]) == tree_skipped(t),
{
    let s = seq![t];
    assert(s.drop_first() =~= Seq::<FsTree>::empty());
    assert(list_skipped(Seq::<FsTree>::empty()) =~= Seq::<Seq<char>>::empty());
    assert(list_skipped(s) =~= tree_skipped(t) + Seq::<Seq<char>>::empty());
    assert(tree_skipped(t) + Seq::<Seq<char>>::empty() =~= tree_skipped(t));
}

/// How many regular files a tree holds, at any nesting depth.
pub fn count_files(t: &FsTree) -> (count: usize)
    requires
        tree_files(*t).len() <= usize::MAX,
    ensures
        count == tree_files(*t).len(),
    decreases *t,
{
    match t {
        FsTree::File(_) => 1,
        FsTree::Dir(es) => {
            let mut count: usize = 0;
            let n = es.len();
            for k in 0..n
                invariant
                    n == es@.len(),
                    count == list_files(es@.take(k as int)).len(),
                    *t == FsTree::Dir(*es),
                    list_files(es@) == tree_files(*t),
                    tree_files(*t).len() <= usize::MAX,
                decreases n - k,
            {
                proof {
                    assert(es@.take(k + 1) =~= es@.take(k as int) + seq![es@[k as int]]);
                    lemma_list_files_concat(es@.take(k as int), seq![es@[k as int]]);
                    lemma_list_files_single(es@[k as int]);
                    assert(es@.take(n as int) =~= es@);
                    lemma_list_files_concat(es@.take(k + 1), es@.skip(k + 1));
                    assert(es@.take(k + 1) + es@.skip(k + 1) =~= es@);
                    assert(decreases_to!(*t => (*t)->Dir_0));
                    assert((*t)->Dir_0 == *es);
                    assert(decreases_to!(*es => es@));
                    assert(decreases_to!(es@ => es@[k as int]));
                }
                let c = count_files(&es[k]);
                count = count + c;
            }
            proof {
                assert(es@.take(n as int) =~= es@);
            }
            count
        },
        FsTree::Skipped(_) => 0,
    }
}

} // verus!
