//! The query engine: read-only aggregate queries over the records of the
//! store — likely duplicates (same name and size) and largest files.

use vstd::prelude::*;
use vstd::seq_lib::lemma_multiset_commutative;
use crate::record::{FileRecord, FileRecordV};

verus! {

/// The views of a sequence of records.
pub open spec fn rvs(s: Seq<FileRecord>) -> Seq<FileRecordV> {
    s.map_values(|r: FileRecord| r@)
}

/// Sizes never grow along the sequence.
pub open spec fn sorted_by_size_desc(s: Seq<FileRecordV>) -> bool {
    forall|i: int, j: int| 0 <= i <= j < s.len() ==> s[i].size >= s[j].size
}

proof fn lemma_insert_multiset<A>(s: Seq<A>, k: int, x: A)
    requires
        0 <= k <= s.len(),
    ensures
        s.insert(k, x).to_multiset() == s.to_multiset().insert(x),
{
    broadcast use vstd::seq_lib::group_to_multiset_ensures;

    let a = s.subrange(0, k);
    let b = s.subrange(k, s.len() as int);
    assert(s.insert(k, x) == a.push(x) + b);
    lemma_multiset_commutative(a.push(x), b);
    lemma_multiset_commutative(a, b);
    assert(a + b =~= s);
    assert(a.push(x).to_multiset() =~= a.to_multiset().insert(x));
    assert(s.insert(k, x).to_multiset() =~= s.to_multiset().insert(x));
}

/// Where a record of size `size` belongs in a size-descending run: after
/// every at-least-as-large record, before every smaller one.
fn size_insertion_point(sorted: &Vec<FileRecord>, size: u64) -> (pos: usize)
    requires
        sorted_by_size_desc(rvs(sorted@)),
    ensures
        pos <= sorted@.len(),
        forall|q: int| 0 <= q < pos ==> rvs(sorted@)[q].size >= size,
        forall|q: int| pos <= q < sorted@.len() ==> rvs(sorted@)[q].size < size,
{
    let n = sorted.len();
    let mut pos: usize = 0;
    while pos < n
        invariant
            pos <= n,
            n == sorted@.len(),
            sorted_by_size_desc(rvs(sorted@)),
            forall|q: int| 0 <= q < pos ==> rvs(sorted@)[q].size >= size,
        decreases n - pos,
    {
        if sorted[pos].size < size {
            proof {
                assert forall|q: int| pos <= q < sorted@.len() implies rvs(sorted@)[q].size
                    < size by {
                    assert(rvs(sorted@)[pos as int].size >= rvs(sorted@)[q].size);
                }
            }
            return pos;
        }
        pos = pos + 1;
    }
    pos
}

/// Up to `limit` records, the largest sizes first: the result is drawn
/// from `records` (counted with multiplicity), is sorted by size
/// descending, has `min(limit, records.len())` entries, and a record is
/// left out only when the result is full and the record's size is no
/// larger than the smallest returned size. Ties at the cutoff go to
/// whichever record an unspecified iteration order yields first.
pub fn find_largest(records: Vec<FileRecord>, limit: usize) -> (r: Vec<FileRecord>)
    ensures
        r@.len() == if limit <= records@.len() {
            limit as int
        } else {
            records@.len() as int
        },
        sorted_by_size_desc(rvs(r@)),
        forall|x: FileRecordV| #[trigger] rvs(r@).to_multiset().count(x) <= rvs(
            records@,
        ).to_multiset().count(x),
        forall|x: FileRecordV|
            rvs(records@).to_multiset().count(x) > #[trigger] rvs(r@).to_multiset().count(x)
                ==> r@.len() == limit && (r@.len() > 0 ==> x.size <= rvs(r@).last().size),
{
    let ghost orig = records@;
    let mut records = records;
    let mut sorted: Vec<FileRecord> = Vec::new();
    proof {
        broadcast use vstd::seq_lib::group_to_multiset_ensures;

        assert(rvs(Seq::<FileRecord>::empty()) =~= Seq::<FileRecordV>::empty());
        assert(rvs(orig).to_multiset() =~= rvs(records@).to_multiset().add(
            rvs(sorted@).to_multiset(),
        ));
    }
    while records.len() > 0
        invariant
            rvs(orig).to_multiset() == rvs(records@).to_multiset().add(rvs(sorted@).to_multiset()),
            records@.len() + sorted@.len() == orig.len(),
            sorted_by_size_desc(rvs(sorted@)),
        decreases records@.len(),
    {
        let ghost prev = records@;
        let next = records.pop().unwrap();
        proof {
            broadcast use vstd::seq_lib::group_to_multiset_ensures;

            assert(records@.push(next) =~= prev);
            assert(rvs(records@).push(next@) =~= rvs(prev));
            assert(rvs(prev).to_multiset() =~= rvs(records@).to_multiset().insert(next@));
        }
        let pos = size_insertion_point(&sorted, next.size);
        let ghost old_sorted = sorted@;
        proof {
            lemma_insert_multiset(rvs(old_sorted), pos as int, next@);
            rvs(old_sorted).insert_ensures(pos as int, next@);
        }
        sorted.insert(pos, next);
        proof {
            broadcast use vstd::multiset::group_multiset_axioms;

            assert(rvs(sorted@) =~= rvs(old_sorted).insert(pos as int, next@));
            let news = rvs(sorted@);
            let olds = rvs(old_sorted);
            assert forall|i: int, j: int| 0 <= i <= j < news.len() implies news[i].size
                >= news[j].size by {
                if i < pos {
                    assert(news[i] == olds[i]);
                } else if i == pos {
                    assert(news[i] == next@);
                } else {
                    assert(news[i] == olds[i - 1]);
                }
                if j < pos {
                    assert(news[j] == olds[j]);
                } else if j == pos {
                    assert(news[j] == next@);
                } else {
                    assert(news[j] == olds[j - 1]);
                }
            }
            assert(rvs(orig).to_multiset() =~= rvs(records@).to_multiset().add(
                news.to_multiset(),
            ));
        }
    }
    let ghost full = sorted@;
    proof {
        broadcast use vstd::seq_lib::group_to_multiset_ensures;
        broadcast use vstd::multiset::group_multiset_axioms;

        assert(rvs(records@) =~= Seq::<FileRecordV>::empty());
        assert(rvs(orig).to_multiset() =~= rvs(full).to_multiset());
    }
    if limit < sorted.len() {
        sorted.truncate(limit);
        proof {
            broadcast use vstd::seq_lib::group_to_multiset_ensures;
            broadcast use vstd::multiset::group_multiset_axioms;

            let kept = full.subrange(0, limit as int);
            let dropped = full.subrange(limit as int, full.len() as int);
            assert(kept + dropped =~= full);
            assert(rvs(kept) + rvs(dropped) =~= rvs(full));
            lemma_multiset_commutative(rvs(kept), rvs(dropped));
            assert(rvs(sorted@) =~= rvs(kept));
            assert forall|x: FileRecordV|
                rvs(orig).to_multiset().count(x) > rvs(sorted@).to_multiset().count(
                    x,
                ) implies sorted@.len() == limit && (sorted@.len() > 0 ==> x.size <= rvs(
                sorted@,
            ).last().size) by {
                assert(rvs(dropped).to_multiset().count(x) > 0);
                assert(rvs(dropped).contains(x));
                let j = choose|j: int| 0 <= j < rvs(dropped).len() && rvs(dropped)[j] == x;
                assert(rvs(dropped)[j] == rvs(full)[limit + j]);
                if sorted@.len() > 0 {
                    assert(rvs(sorted@).last() == rvs(full)[limit - 1]);
                    assert(rvs(full)[limit - 1].size >= rvs(full)[limit + j].size);
                }
            }
            assert forall|i: int, j: int| 0 <= i <= j < rvs(sorted@).len() implies rvs(
                sorted@,
            )[i].size >= rvs(sorted@)[j].size by {
                assert(rvs(sorted@)[i] == rvs(full)[i]);
                assert(rvs(sorted@)[j] == rvs(full)[j]);
            }
        }
    } else {
        proof {
            assert(rvs(sorted@) =~= rvs(full));
        }
    }
    sorted
}

/// One group of likely duplicates: every record named `name` of size
/// `size`, with the paths of its members.
pub struct DupGroup {
    /// The shared file name.
    pub name: String,
    /// The shared size in bytes.
    pub size: u64,
    /// How many records share the pair.
    pub count: usize,
    /// The members' paths, in record order.
    pub paths: Vec<String>,
}

/// The mathematical image of a `DupGroup`.
pub struct DupGroupV {
    pub name: Seq<char>,
    pub size: u64,
    pub count: int,
    pub paths: Seq<Seq<char>>,
}

impl View for DupGroup {
    type V = DupGroupV;

    open spec fn view(&self) -> DupGroupV {
        DupGroupV {
            name: self.name@,
            size: self.size as u64,
            count: self.count as int,
            paths: crate::index::strs_view(self.paths@),
        }
    }
}

/// Membership in the group of the pair `(n, z)`.
pub open spec fn group_pred(n: Seq<char>, z: u64) -> spec_fn(FileRecordV) -> bool {
    |r: FileRecordV| r.name == n && r.size == z
}

/// The paths of the records named `n` of size `z`, in record order.
pub open spec fn group_paths(s: Seq<FileRecordV>, n: Seq<char>, z: u64) -> Seq<Seq<char>> {
    s.filter(group_pred(n, z)).map_values(|r: FileRecordV| r.path)
}

/// How many records are named `n` with size `z`.
pub open spec fn group_count(s: Seq<FileRecordV>, n: Seq<char>, z: u64) -> int {
    group_paths(s, n, z).len() as int
}

/// A finished group of `rs`: counted and listed exactly.
pub open spec fn group_exact(gv: DupGroupV, rs: Seq<FileRecordV>) -> bool {
    &&& gv.count == group_count(rs, gv.name, gv.size)
    &&& gv.paths == group_paths(rs, gv.name, gv.size)
    &&& gv.count == gv.paths.len()
}

/// Group sizes never grow along the sequence.
pub open spec fn groups_sorted_desc(s: Seq<DupGroup>) -> bool {
    forall|i: int, j: int| 0 <= i <= j < s.len() ==> s[i]@.size >= s[j]@.size
}

proof fn lemma_group_push(s: Seq<FileRecordV>, x: FileRecordV, n: Seq<char>, z: u64)
    ensures
        (group_pred(n, z))(x) ==> group_paths(s.push(x), n, z) == group_paths(s, n, z).push(
            x.path,
        ),
        !(group_pred(n, z))(x) ==> group_paths(s.push(x), n, z) == group_paths(s, n, z),
{
    reveal(Seq::filter);
    let p = group_pred(n, z);
    assert(s.push(x).drop_last() =~= s);
    assert(s.push(x).last() == x);
    if p(x) {
        assert(s.push(x).filter(p) == s.filter(p).push(x));
        assert(group_paths(s.push(x), n, z) =~= group_paths(s, n, z).push(x.path));
    } else {
        assert(s.push(x).filter(p) == s.filter(p));
    }
}

proof fn lemma_group_empty(n: Seq<char>, z: u64)
    ensures
        group_paths(Seq::<FileRecordV>::empty(), n, z) == Seq::<Seq<char>>::empty(),
{
    reveal(Seq::filter);
    assert(Seq::<FileRecordV>::empty().filter(group_pred(n, z)) == Seq::<FileRecordV>::empty());
    assert(group_paths(Seq::<FileRecordV>::empty(), n, z) =~= Seq::<Seq<char>>::empty());
}

/// The position of the group of the pair `(name, size)`, if one is held.
fn find_group(all: &Vec<DupGroup>, name: &String, size: u64) -> (r: Option<usize>)
    ensures
        r matches Some(gi) ==> gi < all@.len() && all@[gi as int]@.name == name@
            && all@[gi as int]@.size == size,
        r is None ==> forall|h: int|
            0 <= h < all@.len() ==> !(all@[h]@.name == name@ && all@[h]@.size == size),
{
    let n = all.len();
    let mut gi: usize = 0;
    while gi < n
        invariant
            gi <= n,
            n == all@.len(),
            forall|h: int| 0 <= h < gi ==> !(all@[h]@.name == name@ && all@[h]@.size == size),
        decreases n - gi,
    {
        if all[gi].name == *name && all[gi].size == size {
            return Some(gi);
        }
        gi = gi + 1;
    }
    None
}

/// Where a group of size `size` belongs in a size-descending run.
fn group_insertion_point(out: &Vec<DupGroup>, size: u64) -> (pos: usize)
    requires
        groups_sorted_desc(out@),
    ensures
        pos <= out@.len(),
        forall|q: int| 0 <= q < pos ==> out@[q]@.size >= size,
        forall|q: int| pos <= q < out@.len() ==> out@[q]@.size < size,
{
    let n = out.len();
    let mut pos: usize = 0;
    while pos < n
        invariant
            pos <= n,
            n == out@.len(),
            groups_sorted_desc(out@),
            forall|q: int| 0 <= q < pos ==> out@[q]@.size >= size,
        decreases n - pos,
    {
        if out[pos].size < size {
            proof {
                assert forall|q: int| pos <= q < out@.len() implies out@[q]@.size < size by {
                    assert(out@[pos as int]@.size >= out@[q]@.size);
                }
            }
            return pos;
        }
        pos = pos + 1;
    }
    pos
}

/// The groups of likely duplicates among `records`: one group for each
/// `(name, size)` pair shared by at least two records, with the exact
/// member count and the members' paths in record order; pairs held by a
/// single record are left out. Groups come sorted by size descending;
/// the order among equal sizes is unspecified. No repeated pair returns
/// an empty sequence — never an error.
pub fn find_duplicates(records: &Vec<FileRecord>) -> (groups: Vec<DupGroup>)
    ensures
        forall|g: int|
            0 <= g < groups@.len() ==> group_exact(#[trigger] groups@[g]@, rvs(records@))
                && groups@[g]@.count >= 2,
        forall|n: Seq<char>, z: u64|
            group_count(rvs(records@), n, z) >= 2 ==> exists|g: int|
                0 <= g < groups@.len() && groups@[g]@.name == n && groups@[g]@.size == z,
        forall|g: int, h: int|
            0 <= g < h < groups@.len() ==> !(groups@[g]@.name == groups@[h]@.name
                && groups@[g]@.size == groups@[h]@.size),
        groups_sorted_desc(groups@),
        (forall|n: Seq<char>, z: u64| group_count(rvs(records@), n, z) < 2) ==> groups@.len()
            == 0,
{
    let ghost rs = rvs(records@);
    let mut all: Vec<DupGroup> = Vec::new();
    let n = records.len();
    proof {
        assert(rvs(records@.take(0)) =~= Seq::<FileRecordV>::empty());
    }
    let mut i: usize = 0;
    while i < n
        invariant
            i <= n,
            n == records@.len(),
            forall|g: int|
                0 <= g < all@.len() ==> group_exact(
                    #[trigger] all@[g]@,
                    rvs(records@.take(i as int)),
                ) && all@[g]@.count >= 1,
            forall|g: int, h: int|
                0 <= g < h < all@.len() ==> !(all@[g]@.name == all@[h]@.name && all@[g]@.size
                    == all@[h]@.size),
            forall|nm: Seq<char>, z: u64|
                #[trigger] group_count(rvs(records@.take(i as int)), nm, z) >= 1 ==> exists|g: int|
                    0 <= g < all@.len() && all@[g]@.name == nm && all@[g]@.size == z,
        decreases n - i,
    {
        let rec = &records[i];
        let ghost rs_i = rvs(records@.take(i as int));
        let ghost rs_n = rvs(records@.take(i as int + 1));
        proof {
            assert(records@.take(i as int + 1) =~= records@.take(i as int).push(
                records@[i as int],
            ));
            assert(rs_n =~= rs_i.push(rec@));
            assert forall|nm: Seq<char>, z: u64| true implies group_count(rs_n, nm, z)
                == group_count(rs_i, nm, z) + (if (group_pred(nm, z))(rec@) {
                1int
            } else {
                0int
            }) by {
                lemma_group_push(rs_i, rec@, nm, z);
            }
        }
        match find_group(&all, &rec.name, rec.size) {
            Some(gi) => {
                proof {
                    rs_i.lemma_filter_len(group_pred(all@[gi as int]@.name, all@[gi as int]@.size));
                }
                let ghost old_all = all@;
                let mut grp = all.remove(gi);
                grp.count = grp.count + 1;
                grp.paths.push(rec.path.clone());
                all.insert(gi, grp);
                proof {
                    assert(all@ =~= old_all.update(gi as int, grp));
                    lemma_group_push(rs_i, rec@, grp@.name, grp@.size);
                    assert(crate::index::strs_view(grp.paths@) =~= old_all[gi as int]@.paths.push(
                        rec@.path,
                    ));
                    assert(group_exact(grp@, rs_n));
                    assert forall|g: int| 0 <= g < all@.len() implies group_exact(
                        #[trigger] all@[g]@,
                        rs_n,
                    ) && all@[g]@.count >= 1 by {
                        if g != gi {
                            assert(all@[g]@ == old_all[g]@);
                            lemma_group_push(rs_i, rec@, all@[g]@.name, all@[g]@.size);
                            assert(!(all@[g]@.name == grp@.name && all@[g]@.size == grp@.size));
                        }
                    }
                    assert forall|nm: Seq<char>, z: u64|
                        group_count(rs_n, nm, z) >= 1 implies exists|g: int|
                        0 <= g < all@.len() && all@[g]@.name == nm && all@[g]@.size == z by {
                        lemma_group_push(rs_i, rec@, nm, z);
                        if group_count(rs_i, nm, z) >= 1 {
                            assert(group_count(rvs(records@.take(i as int)), nm, z) >= 1);
                            assert(exists|g: int|
                                0 <= g < old_all.len() && old_all[g]@.name == nm
                                    && old_all[g]@.size == z);
                            let g = choose|g: int|
                                0 <= g < old_all.len() && old_all[g]@.name == nm && old_all[g]@.size
                                    == z;
                            if g == gi {
                                assert(all@[gi as int]@.name == nm && all@[gi as int]@.size == z);
                            } else {
                                assert(all@[g] == old_all[g]);
                                assert(all@[g]@.name == nm && all@[g]@.size == z);
                            }
                        } else {
                            assert(nm == grp@.name && z == grp@.size);
                            assert(all@[gi as int]@.name == nm && all@[gi as int]@.size == z);
                        }
                    }
                }
            },
            None => {
                proof {
                    lemma_group_empty(rec@.name, rec@.size);
                    if group_count(rs_i, rec@.name, rec@.size) >= 1 {
                        let g = choose|g: int|
                            0 <= g < all@.len() && all@[g]@.name == rec@.name && all@[g]@.size
                                == rec@.size;
                        assert(false);
                    }
                    assert(group_paths(rs_i, rec@.name, rec@.size) =~= Seq::<Seq<char>>::empty());
                }
                let ghost old_all = all@;
                let mut paths: Vec<String> = Vec::new();
                paths.push(rec.path.clone());
                let name = rec.name.clone();
                let grp = DupGroup { name, size: rec.size, count: 1, paths };
                all.push(grp);
                proof {
                    lemma_group_push(rs_i, rec@, grp@.name, grp@.size);
                    assert(crate::index::strs_view(grp.paths@) =~= Seq::<Seq<char>>::empty().push(
                        rec@.path,
                    ));
                    assert(group_exact(grp@, rs_n));
                    assert forall|g: int| 0 <= g < all@.len() implies group_exact(
                        #[trigger] all@[g]@,
                        rs_n,
                    ) && all@[g]@.count >= 1 by {
                        if g < old_all.len() {
                            assert(all@[g]@ == old_all[g]@);
                            lemma_group_push(rs_i, rec@, all@[g]@.name, all@[g]@.size);
                            assert(!(all@[g]@.name == grp@.name && all@[g]@.size == grp@.size));
                        } else {
                            assert(all@[g] == grp);
                        }
                    }
                    assert forall|nm: Seq<char>, z: u64|
                        group_count(rs_n, nm, z) >= 1 implies exists|g: int|
                        0 <= g < all@.len() && all@[g]@.name == nm && all@[g]@.size == z by {
                        lemma_group_push(rs_i, rec@, nm, z);
                        if group_count(rs_i, nm, z) >= 1 {
                            assert(group_count(rvs(records@.take(i as int)), nm, z) >= 1);
                            assert(exists|g: int|
                                0 <= g < old_all.len() && old_all[g]@.name == nm
                                    && old_all[g]@.size == z);
                            let g = choose|g: int|
                                0 <= g < old_all.len() && old_all[g]@.name == nm && old_all[g]@.size
                                    == z;
                            assert(all@[g] == old_all[g]);
                            assert(all@[g]@.name == nm && all@[g]@.size == z);
                        } else {
                            assert(nm == grp@.name && z == grp@.size);
                            assert(all@[old_all.len() as int]@.name == nm);
                        }
                    }
                }
            },
        }
        i = i + 1;
    }
    proof {
        assert(records@.take(n as int) =~= records@);
        assert(rvs(records@.take(n as int)) == rs);
        assert forall|nm: Seq<char>, z: u64| group_count(rs, nm, z) >= 2 implies exists|h: int|
            0 <= h < all@.len() && all@[h]@.name == nm && all@[h]@.size == z by {
            assert(group_count(rvs(records@.take(n as int)), nm, z) >= 1);
        }
    }
    let mut out: Vec<DupGroup> = Vec::new();
    while all.len() > 0
        invariant
            forall|g: int|
                0 <= g < all@.len() ==> group_exact(#[trigger] all@[g]@, rs) && all@[g]@.count
                    >= 1,
            forall|g: int, h: int|
                0 <= g < h < all@.len() ==> !(all@[g]@.name == all@[h]@.name && all@[g]@.size
                    == all@[h]@.size),
            forall|g: int|
                0 <= g < out@.len() ==> group_exact(#[trigger] out@[g]@, rs) && out@[g]@.count
                    >= 2,
            forall|g: int, h: int|
                0 <= g < h < out@.len() ==> !(out@[g]@.name == out@[h]@.name && out@[g]@.size
                    == out@[h]@.size),
            forall|g: int, h: int|
                0 <= g < out@.len() && 0 <= h < all@.len() ==> !(out@[g]@.name == all@[h]@.name
                    && out@[g]@.size == all@[h]@.size),
            groups_sorted_desc(out@),
            forall|nm: Seq<char>, z: u64|
                group_count(rs, nm, z) >= 2 ==> (exists|g: int|
                    0 <= g < out@.len() && out@[g]@.name == nm && out@[g]@.size == z) || (exists|
                    h: int,
                |
                    0 <= h < all@.len() && all@[h]@.name == nm && all@[h]@.size == z),
        decreases all@.len(),
    {
        let ghost prev_all = all@;
        let grp = all.pop().unwrap();
        proof {
            assert(grp == prev_all.last());
        }
        if grp.count >= 2 {
            let pos = group_insertion_point(&out, grp.size);
            let ghost old_out = out@;
            proof {
                old_out.insert_ensures(pos as int, grp);
            }
            out.insert(pos, grp);
            proof {
                assert forall|nm: Seq<char>, z: u64|
                    group_count(rs, nm, z) >= 2 implies (exists|g: int|
                    0 <= g < out@.len() && out@[g]@.name == nm && out@[g]@.size == z) || (exists|
                    h: int,
                |
                    0 <= h < all@.len() && all@[h]@.name == nm && all@[h]@.size == z) by {
                    if exists|g: int|
                        0 <= g < old_out.len() && old_out[g]@.name == nm && old_out[g]@.size == z {
                        let g = choose|g: int|
                            0 <= g < old_out.len() && old_out[g]@.name == nm && old_out[g]@.size
                                == z;
                        if g < pos {
                            assert(out@[g]@.name == nm && out@[g]@.size == z);
                        } else {
                            assert(out@[g + 1]@.name == nm && out@[g + 1]@.size == z);
                        }
                    } else if grp@.name == nm && grp@.size == z {
                        assert(out@[pos as int]@.name == nm && out@[pos as int]@.size == z);
                    } else if exists|h: int|
                        0 <= h < prev_all.len() && prev_all[h]@.name == nm && prev_all[h]@.size
                            == z {
                        let h = choose|h: int|
                            0 <= h < prev_all.len() && prev_all[h]@.name == nm && prev_all[h]@.size
                                == z;
                        assert(h < all@.len());
                        assert(all@[h]@.name == nm && all@[h]@.size == z);
                    }
                }
            }
        } else {
            proof {
                assert forall|nm: Seq<char>, z: u64|
                    group_count(rs, nm, z) >= 2 implies (exists|g: int|
                    0 <= g < out@.len() && out@[g]@.name == nm && out@[g]@.size == z) || (exists|
                    h: int,
                |
                    0 <= h < all@.len() && all@[h]@.name == nm && all@[h]@.size == z) by {
                    if !(exists|g: int|
                        0 <= g < out@.len() && out@[g]@.name == nm && out@[g]@.size == z) {
                        let h = choose|h: int|
                            0 <= h < prev_all.len() && prev_all[h]@.name == nm && prev_all[h]@.size
                                == z;
                        if h == prev_all.len() - 1 {
                            assert(grp@.name == nm && grp@.size == z);
                            assert(grp@.count == group_count(rs, nm, z));
                            assert(false);
                        } else {
                            assert(all@[h]@.name == nm && all@[h]@.size == z);
                        }
                    }
                }
            }
        }
    }
    proof {
        if out@.len() > 0 {
            assert(group_exact(out@[0]@, rs) && out@[0]@.count >= 2);
            assert(group_count(rs, out@[0]@.name, out@[0]@.size) >= 2);
        }
    }
    out
}

} // verus!
