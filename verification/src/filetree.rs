//! The file-ownership tracker: one store tree mapping each destination
//! path (raw UTF-8 bytes, exact match) to the id of the mod that owns
//! it. Batch inserts and removals are applied atomically.
use vstd::prelude::*;

use crate::codec::{bytes_eq, le_bytes, u64_to_le};
use crate::errors::ModManagerError;
use crate::store::{
    batch_insert, batch_new, batch_remove, store_error, tree_apply_batch, tree_entries,
    tree_get, tree_scan,
};

verus! {

/// The stored owner entry of a path: the owning id, 8 bytes.
pub open spec fn owner_bytes(uid: u64) -> Seq<u8> {
    le_bytes(uid as nat, 8)
}

/// The views of a list of paths.
pub open spec fn paths_view(ps: Seq<Vec<u8>>) -> Seq<Seq<u8>> {
    ps.map_values(|p: Vec<u8>| p@)
}

/// The ownership map after claiming every listed path for `uid`.
pub open spec fn own_insert_all(
    m: Map<Seq<u8>, Seq<u8>>,
    ps: Seq<Seq<u8>>,
    uid: u64,
) -> Map<Seq<u8>, Seq<u8>> {
    Map::new(
        |k: Seq<u8>| m.dom().contains(k) || ps.contains(k),
        |k: Seq<u8>|
            if ps.contains(k) {
                owner_bytes(uid)
            } else {
                m[k]
            },
    )
}

/// The ownership map after releasing every listed path.
pub open spec fn own_remove_all(m: Map<Seq<u8>, Seq<u8>>, ps: Seq<Seq<u8>>) -> Map<
    Seq<u8>,
    Seq<u8>,
> {
    Map::new(|k: Seq<u8>| m.dom().contains(k) && !ps.contains(k), |k: Seq<u8>| m[k])
}

/// The conflicts a list of paths meets in the ownership map: for each
/// already-owned path, in order, the pair (owner id, path).
pub open spec fn conflicts_of(m: Map<Seq<u8>, Seq<u8>>, ps: Seq<Seq<u8>>) -> Seq<
    (u64, Seq<u8>),
> {
    ps.filter(|p: Seq<u8>| m.dom().contains(p)).map_values(
        |p: Seq<u8>| ((crate::codec::le_value(m[p]) as u64), p),
    )
}

/// Whether `v` lists exactly the paths that `m` maps to `uid`'s owner
/// entry, each once.
pub open spec fn owned_paths_of(m: Map<Seq<u8>, Seq<u8>>, uid: u64, v: Seq<Vec<u8>>) -> bool {
    &&& forall|i: int|
        0 <= i < v.len() ==> m.dom().contains((#[trigger] v[i])@) && m[v[i]@]
            == owner_bytes(uid)
    &&& forall|k: Seq<u8>|
        m.dom().contains(k) && m[k] == owner_bytes(uid) ==> exists|i: int|
            0 <= i < v.len() && (#[trigger] v[i])@ == k
    &&& forall|i: int, j: int|
        0 <= i < j < v.len() ==> (#[trigger] v[i])@ != (#[trigger] v[j])@
}

/// The ownership map with every row of `uid` released and everything
/// else intact.
pub open spec fn disowned(m: Map<Seq<u8>, Seq<u8>>, uid: u64) -> Map<Seq<u8>, Seq<u8>> {
    Map::new(
        |k: Seq<u8>| m.dom().contains(k) && m[k] != owner_bytes(uid),
        |k: Seq<u8>| m[k],
    )
}

/// The file-ownership tracker over its store tree.
pub struct FileTreeManager {
    tree: sled::Tree,
}

impl FileTreeManager {
    /// The raw rows of the ownership tree.
    pub closed spec fn entries(self) -> Map<Seq<u8>, Seq<u8>> {
        tree_entries(self.tree)
    }

    /// Wraps the ownership tree handle.
    pub(crate) fn attach(tree: sled::Tree) -> (r: FileTreeManager)
        ensures
            r.entries() == tree_entries(tree),
    {
        FileTreeManager { tree }
    }

    /// Checks the listed paths against current ownership in one pass:
    /// `None` when no path is owned, else exactly the (owner id, path)
    /// pairs of the owned ones, in order.
    pub fn get_conflicts(&self, file_paths: &Vec<Vec<u8>>) -> (r: Result<
        Option<Vec<(u64, Vec<u8>)>>,
        ModManagerError,
    >)
        ensures
            match r {
                Ok(c) => {
                    &&& (c is None <==> conflicts_of(
                        self.entries(),
                        paths_view(file_paths@),
                    ).len() == 0)
                    &&& (c matches Some(v) ==> v@.map_values(
                        |q: (u64, Vec<u8>)| (q.0, q.1@),
                    ) == conflicts_of(self.entries(), paths_view(file_paths@)))
                },
                Err(e) => (e is DeSerialization && exists|i: int|
                    0 <= i < file_paths@.len() && self.entries().dom().contains(
                        (#[trigger] file_paths@[i])@,
                    ) && self.entries()[file_paths@[i]@].len() != 8) || e is Io || e is Db,
            },
    {
        let ghost m = self.entries();
        let ghost ps = paths_view(file_paths@);
        let mut found: Vec<(u64, Vec<u8>)> = Vec::new();
        let mut i: usize = 0;
        proof {
            assert(ps.take(0) =~= Seq::<Seq<u8>>::empty());
            assert(ps.take(0).filter(|p: Seq<u8>| m.dom().contains(p)) =~= Seq::<
                Seq<u8>,
            >::empty());
        }
        while i < file_paths.len()
            invariant
                i <= file_paths@.len(),
                m == self.entries(),
                ps == paths_view(file_paths@),
                found@.map_values(|q: (u64, Vec<u8>)| (q.0, q.1@)) == conflicts_of(
                    m,
                    ps.take(i as int),
                ),
                forall|j: int|
                    0 <= j < i ==> (m.dom().contains(#[trigger] ps[j]) ==> m[ps[j]].len()
                        == 8),
            decreases file_paths@.len() - i,
        {
            let ghost taken = ps.take(i as int);
            let ghost taken1 = ps.take(i + 1);
            proof {
                assert(taken1.drop_last() =~= taken);
                assert(taken1.last() == ps[i as int]);
                crate::filetree::lemma_filter_step(m, taken1);
            }
            match tree_get(&self.tree, &file_paths[i]) {
                Ok(Some(owner)) => {
                    if owner.len() != 8 {
                        return Err(
                            ModManagerError::DeSerialization {
                                msg: "an ownership row does not hold an id".to_owned(),
                            },
                        );
                    }
                    let id = crate::codec::le8_at(&owner, 0);
                    proof {
                        assert(owner@.subrange(0, 8) =~= owner@);
                        crate::codec::lemma_le_value_bound(owner@);
                        crate::codec::lemma_pow256_8();
                    }
                    let ghost prev = found@;
                    found.push((id, file_paths[i].clone()));
                    proof {
                        assert(found@.map_values(|q: (u64, Vec<u8>)| (q.0, q.1@))
                            =~= prev.map_values(|q: (u64, Vec<u8>)| (q.0, q.1@)).push(
                            ((crate::codec::le_value(m[ps[i as int]]) as u64), ps[i as int]),
                        ));
                        assert(conflicts_of(m, taken1) =~= conflicts_of(m, taken).push(
                            ((crate::codec::le_value(m[ps[i as int]]) as u64), ps[i as int]),
                        ));
                    }
                },
                Ok(None) => {
                    proof {
                        assert(conflicts_of(m, taken1) =~= conflicts_of(m, taken));
                    }
                },
                Err(e) => {
                    return Err(store_error(e));
                },
            }
            i = i + 1;
        }
        proof {
            assert(ps.take(ps.len() as int) =~= ps);
        }
        if found.len() == 0 {
            Ok(None)
        } else {
            Ok(Some(found))
        }
    }

    /// Claims every listed path for `uid` in one atomic batch. Callers
    /// must have checked conflicts first: claiming an owned path
    /// silently overwrites its owner.
    pub fn insert_files(&mut self, uid: u64, file_paths: &Vec<Vec<u8>>) -> (r: Result<
        (),
        ModManagerError,
    >)
        ensures
            match r {
                Ok(_) => final(self).entries() == own_insert_all(
                    old(self).entries(),
                    paths_view(file_paths@),
                    uid,
                ),
                Err(e) => e is Io || e is Db,
            },
    {
        let ghost ps = paths_view(file_paths@);
        let owner = u64_to_le(uid);
        let mut batch = batch_new();
        let mut i: usize = 0;
        while i < file_paths.len()
            invariant
                i <= file_paths@.len(),
                ps == paths_view(file_paths@),
                owner@ == owner_bytes(uid),
                forall|k: Seq<u8>|
                    crate::store::batch_writes(batch).dom().contains(k) <==> ps.take(
                        i as int,
                    ).contains(k),
                forall|k: Seq<u8>|
                    ps.take(i as int).contains(k) ==> crate::store::batch_writes(batch)[k]
                        == Some(owner_bytes(uid)),
            decreases file_paths@.len() - i,
        {
            batch_insert(&mut batch, &file_paths[i], &owner);
            proof {
                assert forall|k: Seq<u8>|
                    crate::store::batch_writes(batch).dom().contains(k) <==> ps.take(
                        i + 1,
                    ).contains(k) by {
                    assert(ps.take(i + 1).drop_last() =~= ps.take(i as int));
                    assert(ps.take(i + 1).last() == ps[i as int]);
                    if ps.take(i + 1).contains(k) {
                        let j = choose|j: int| 0 <= j < ps.take(i + 1).len() && (#[trigger] ps.take(i + 1)[j]) == k;
                        if j < i {
                            assert(ps.take(i as int).contains(k));
                        }
                    }
                    if ps.take(i as int).contains(k) {
                        let j = choose|j: int| 0 <= j < i && (#[trigger] ps.take(i as int)[j]) == k;
                        assert(ps.take(i + 1)[j] == k);
                    }
                }
                assert(ps.take(i + 1)[i as int] == ps[i as int]);
            }
            i = i + 1;
        }
        proof {
            assert(ps.take(ps.len() as int) =~= ps);
        }
        match tree_apply_batch(&mut self.tree, batch) {
            Ok(_) => {
                proof {
                    assert(final(self).entries() =~= own_insert_all(
                        old(self).entries(),
                        ps,
                        uid,
                    ));
                }
                Ok(())
            },
            Err(e) => Err(store_error(e)),
        }
    }

    /// Releases every listed path in one atomic batch; releasing an
    /// absent path is a no-op.
    pub fn remove_files(&mut self, paths: &Vec<Vec<u8>>) -> (r: Result<(), ModManagerError>)
        ensures
            match r {
                Ok(_) => final(self).entries() == own_remove_all(
                    old(self).entries(),
                    paths_view(paths@),
                ),
                Err(e) => e is Io || e is Db,
            },
    {
        let ghost ps = paths_view(paths@);
        let mut batch = batch_new();
        let mut i: usize = 0;
        while i < paths.len()
            invariant
                i <= paths@.len(),
                ps == paths_view(paths@),
                forall|k: Seq<u8>|
                    crate::store::batch_writes(batch).dom().contains(k) <==> ps.take(
                        i as int,
                    ).contains(k),
                forall|k: Seq<u8>|
                    ps.take(i as int).contains(k) ==> crate::store::batch_writes(batch)[k]
                        is None,
            decreases paths@.len() - i,
        {
            let ghost prev_batch = batch;
            batch_remove(&mut batch, &paths[i]);
            proof {
                assert forall|k: Seq<u8>|
                    crate::store::batch_writes(batch).dom().contains(k) <==> ps.take(
                        i + 1,
                    ).contains(k) by {
                    assert(ps.take(i + 1).drop_last() =~= ps.take(i as int));
                    assert(ps.take(i + 1).last() == ps[i as int]);
                    if ps.take(i + 1).contains(k) {
                        let j = choose|j: int| 0 <= j < ps.take(i + 1).len() && (#[trigger] ps.take(i + 1)[j]) == k;
                        if j < i {
                            assert(ps.take(i as int).contains(k));
                        }
                    }
                    if ps.take(i as int).contains(k) {
                        let j = choose|j: int| 0 <= j < i && (#[trigger] ps.take(i as int)[j]) == k;
                        assert(ps.take(i + 1)[j] == k);
                    }
                }
                assert(ps.take(i + 1)[i as int] == ps[i as int]);
                assert forall|k: Seq<u8>| ps.take(i + 1).contains(k)
                    implies crate::store::batch_writes(batch)[k] is None by {
                    if k == ps[i as int] {
                    } else {
                        let j = choose|j: int| 0 <= j < ps.take(i + 1).len() && (#[trigger] ps.take(i + 1)[j]) == k;
                        assert(ps.take(i as int).contains(k));
                        assert(crate::store::batch_writes(prev_batch)[k] is None);
                    }
                }
            }
            i = i + 1;
        }
        proof {
            assert(ps.take(ps.len() as int) =~= ps);
        }
        match tree_apply_batch(&mut self.tree, batch) {
            Ok(_) => {
                proof {
                    assert(final(self).entries() =~= own_remove_all(old(self).entries(), ps));
                }
                Ok(())
            },
            Err(e) => Err(store_error(e)),
        }
    }

    /// Every path currently owned by `uid`, by a full scan.
    #[verifier::rlimit(100)]
    pub fn get_files(&self, uid: u64) -> (r: Result<Vec<Vec<u8>>, ModManagerError>)
        ensures
            match r {
                Ok(v) => owned_paths_of(self.entries(), uid, v@),
                Err(e) => (e is DeSerialization && exists|k: Seq<u8>|
                    self.entries().dom().contains(k) && (#[trigger] self.entries()[k]).len()
                        != 8) || e is Io || e is Db,
            },
    {
        let rows = match tree_scan(&self.tree) {
            Ok(v) => v,
            Err(e) => {
                return Err(store_error(e));
            },
        };
        let owner = u64_to_le(uid);
        let mut out: Vec<Vec<u8>> = Vec::new();
        let ghost mut srcs: Seq<int> = Seq::empty();
        let mut idx: usize = 0;
        while idx < rows.len()
            invariant
                idx <= rows@.len(),
                owner@ == owner_bytes(uid),
                forall|i: int|
                    0 <= i < rows@.len() ==> self.entries().dom().contains(
                        (#[trigger] rows@[i]).0@,
                    ) && self.entries()[rows@[i].0@] == rows@[i].1@,
                forall|k: Seq<u8>|
                    self.entries().dom().contains(k) ==> exists|i: int|
                        0 <= i < rows@.len() && (#[trigger] rows@[i]).0@ == k,
                forall|i: int, j: int|
                    0 <= i < j < rows@.len() ==> (#[trigger] rows@[i]).0@ != (
                    #[trigger] rows@[j]).0@,
                srcs.len() == out@.len(),
                forall|t: int| 0 <= t < srcs.len() ==> 0 <= #[trigger] srcs[t] < idx,
                forall|t1: int, t2: int|
                    0 <= t1 < t2 < srcs.len() ==> #[trigger] srcs[t1] < #[trigger] srcs[t2],
                forall|t: int|
                    0 <= t < srcs.len() ==> (#[trigger] out@[t])@ == rows@[srcs[t]].0@,
                forall|t: int|
                    0 <= t < out@.len() ==> self.entries().dom().contains(
                        (#[trigger] out@[t])@,
                    ) && self.entries()[out@[t]@] == owner_bytes(uid),
                forall|i: int|
                    0 <= i < idx ==> ((#[trigger] rows@[i]).1@ == owner_bytes(uid)
                        ==> exists|t: int| 0 <= t < out@.len() && (#[trigger] out@[t])@
                        == rows@[i].0@),
            decreases rows@.len() - idx,
        {
            if rows[idx].1.len() != 8 {
                return Err(
                    ModManagerError::DeSerialization {
                        msg: "an ownership row does not hold an id".to_owned(),
                    },
                );
            }
            let ghost prev_out = out@;
            let matched = bytes_eq(&rows[idx].1, &owner);
            if matched {
                out.push(rows[idx].0.clone());
                proof {
                    srcs = srcs.push(idx as int);
                    assert(out@[out@.len() - 1]@ == rows@[idx as int].0@);
                }
            }
            proof {
                assert forall|i: int|
                    0 <= i < idx + 1 && (#[trigger] rows@[i]).1@ == owner_bytes(uid)
                        implies exists|t: int|
                        0 <= t < out@.len() && (#[trigger] out@[t])@ == rows@[i].0@ by {
                    if i < idx {
                        let t = choose|t: int|
                            0 <= t < prev_out.len() && (#[trigger] prev_out[t])@
                                == rows@[i].0@;
                        assert(out@[t]@ == rows@[i].0@);
                    } else {
                        assert(matched);
                        assert(out@[out@.len() - 1]@ == rows@[idx as int].0@);
                    }
                }
            }
            idx = idx + 1;
        }
        proof {
            assert forall|k: Seq<u8>|
                self.entries().dom().contains(k) && self.entries()[k] == owner_bytes(uid)
                    implies exists|i: int| 0 <= i < out@.len() && (#[trigger] out@[i])@
                == k by {
                let i = choose|i: int| 0 <= i < rows@.len() && (#[trigger] rows@[i]).0@ == k;
                assert(rows@[i].1@ == owner_bytes(uid));
            }
            assert forall|t1: int, t2: int| 0 <= t1 < t2 < out@.len() implies (
            #[trigger] out@[t1])@ != (#[trigger] out@[t2])@ by {
                assert(srcs[t1] < srcs[t2]);
                assert(rows@[srcs[t1]].0@ != rows@[srcs[t2]].0@);
            }
            assert(owned_paths_of(self.entries(), uid, out@));
        }
        Ok(out)
    }
}

/// One step of the conflict list: filtering a list with its last
/// element split off.
pub proof fn lemma_filter_step(m: Map<Seq<u8>, Seq<u8>>, ps: Seq<Seq<u8>>)
    requires
        ps.len() > 0,
    ensures
        ps.filter(|p: Seq<u8>| m.dom().contains(p)) == if m.dom().contains(ps.last()) {
            ps.drop_last().filter(|p: Seq<u8>| m.dom().contains(p)).push(ps.last())
        } else {
            ps.drop_last().filter(|p: Seq<u8>| m.dom().contains(p))
        },
{
    reveal(Seq::filter);
}

} // verus!
