//! The library's laws: properties of the tracker and registry models
//! that hold for all inputs, stated once and proved here. Each law is
//! phrased over the same spec functions the executable operations'
//! contracts use, so it applies to every run of those operations.
use vstd::prelude::*;

use crate::codec::{lemma_le_roundtrip, lemma_pow256_8};
use crate::filetree::{conflicts_of, disowned, own_insert_all, own_remove_all, owner_bytes};
use crate::registry::{lemma_record_roundtrip, record_wf, reg_put, reg_record, ModView};

verus! {

/// No element of `ps` satisfies the filter: the filtered list is empty.
proof fn lemma_filter_none(ps: Seq<Seq<u8>>, pred: spec_fn(Seq<u8>) -> bool)
    requires
        forall|i: int| 0 <= i < ps.len() ==> !pred(#[trigger] ps[i]),
    ensures
        ps.filter(pred).len() == 0,
    decreases ps.len(),
{
    reveal(Seq::filter);
    if ps.len() > 0 {
        lemma_filter_none(ps.drop_last(), pred);
    }
}

/// Every element of `ps` satisfies the filter: filtering keeps `ps`.
proof fn lemma_filter_all(ps: Seq<Seq<u8>>, pred: spec_fn(Seq<u8>) -> bool)
    requires
        forall|i: int| 0 <= i < ps.len() ==> pred(#[trigger] ps[i]),
    ensures
        ps.filter(pred) == ps,
    decreases ps.len(),
{
    reveal(Seq::filter);
    if ps.len() > 0 {
        lemma_filter_all(ps.drop_last(), pred);
        assert(ps.filter(pred) =~= ps.drop_last().push(ps.last()));
        assert(ps.drop_last().push(ps.last()) =~= ps);
    } else {
        assert(ps.filter(pred) =~= ps);
    }
}

/// An element satisfying the filter keeps the filtered list nonempty.
proof fn lemma_filter_keeps(ps: Seq<Seq<u8>>, pred: spec_fn(Seq<u8>) -> bool, i: int)
    requires
        0 <= i < ps.len(),
        pred(ps[i]),
    ensures
        ps.filter(pred).len() > 0,
    decreases ps.len(),
{
    reveal(Seq::filter);
    if i == ps.len() - 1 {
    } else {
        lemma_filter_keeps(ps.drop_last(), pred, i);
    }
}

/// Checking paths that were never inserted stays conflict-free: if
/// `p1` meets no conflicts in the ownership map, inserting a disjoint
/// set `p2` (under any id) still leaves `p1` conflict-free.
pub proof fn lemma_disjoint_insert_no_conflicts(
    m: Map<Seq<u8>, Seq<u8>>,
    p1: Seq<Seq<u8>>,
    p2: Seq<Seq<u8>>,
    id2: u64,
)
    requires
        conflicts_of(m, p1).len() == 0,
        forall|i: int, j: int|
            0 <= i < p1.len() && 0 <= j < p2.len() ==> #[trigger] p1[i] != #[trigger] p2[j],
    ensures
        conflicts_of(own_insert_all(m, p2, id2), p1).len() == 0,
{
    let m2 = own_insert_all(m, p2, id2);
    assert forall|i: int| 0 <= i < p1.len() implies !m.dom().contains(#[trigger] p1[i]) by {
        if m.dom().contains(p1[i]) {
            lemma_filter_keeps(p1, |p: Seq<u8>| m.dom().contains(p), i);
        }
    }
    assert forall|i: int| 0 <= i < p1.len() implies !m2.dom().contains(#[trigger] p1[i]) by {
        if p2.contains(p1[i]) {
            let j = choose|j: int| 0 <= j < p2.len() && #[trigger] p2[j] == p1[i];
        }
    }
    lemma_filter_none(p1, |p: Seq<u8>| m2.dom().contains(p));
}

/// Checking paths right after inserting them reports exactly those
/// paths, each owned by the inserting id: if no path of `p1` was owned
/// before, the conflicts of `p1` after inserting `p1` under `x` are
/// precisely `p1` paired with `x`, in order.
pub proof fn lemma_conflicts_after_insert(m: Map<Seq<u8>, Seq<u8>>, p1: Seq<Seq<u8>>, x: u64)
    requires
        forall|i: int| 0 <= i < p1.len() ==> !m.dom().contains(#[trigger] p1[i]),
    ensures
        conflicts_of(own_insert_all(m, p1, x), p1) == Seq::new(p1.len(), |i: int| (x, p1[i])),
{
    let m2 = own_insert_all(m, p1, x);
    assert forall|i: int| 0 <= i < p1.len() implies m2.dom().contains(#[trigger] p1[i]) by {
        assert(p1.contains(p1[i]));
    }
    lemma_filter_all(p1, |p: Seq<u8>| m2.dom().contains(p));
    lemma_pow256_8();
    lemma_le_roundtrip(x as nat, 8);
    assert forall|i: int| 0 <= i < p1.len() implies m2[#[trigger] p1[i]] == owner_bytes(x) by {
        assert(p1.contains(p1[i]));
    }
    assert(conflicts_of(m2, p1) =~= Seq::new(p1.len(), |i: int| (x, p1[i])));
}

/// Removing a set of paths twice is the same as removing it once: the
/// second removal is a no-op.
pub proof fn lemma_remove_idempotent(m: Map<Seq<u8>, Seq<u8>>, ps: Seq<Seq<u8>>)
    ensures
        own_remove_all(own_remove_all(m, ps), ps) == own_remove_all(m, ps),
{
    assert(own_remove_all(own_remove_all(m, ps), ps) =~= own_remove_all(m, ps));
}

/// A record written under its id and read back is the same record,
/// field for field.
pub proof fn lemma_put_then_get(m: Map<Seq<u8>, Seq<u8>>, rec: ModView)
    requires
        record_wf(rec),
    ensures
        reg_record(reg_put(m, rec), rec.uid) == Some(rec),
{
    lemma_record_roundtrip(rec);
}

/// Materializing a mod on paths nobody owned and then ejecting it
/// leaves the ownership map exactly as it was: activation followed by
/// deactivation leaves zero ownership rows for the mod.
pub proof fn lemma_inject_then_eject(m: Map<Seq<u8>, Seq<u8>>, ps: Seq<Seq<u8>>, uid: u64)
    requires
        forall|i: int| 0 <= i < ps.len() ==> !m.dom().contains(#[trigger] ps[i]),
        forall|k: Seq<u8>|
            m.dom().contains(k) ==> #[trigger] m[k] != owner_bytes(uid),
    ensures
        disowned(own_insert_all(m, ps, uid), uid) == m,
{
    let m2 = own_insert_all(m, ps, uid);
    assert forall|k: Seq<u8>| #![auto] true implies (disowned(m2, uid).dom().contains(k)
        == m.dom().contains(k)) by {
        if ps.contains(k) {
            let i = choose|i: int| 0 <= i < ps.len() && #[trigger] ps[i] == k;
            assert(!m.dom().contains(k));
        }
    }
    assert(disowned(m2, uid) =~= m);
}

/// A deleted id is never handed out again: any id generated while the
/// store's floor stood at `floor_then` lies below it, the floor never
/// falls, and every later id lies at or above the later floor.
pub proof fn lemma_deleted_id_not_reused(
    deleted: u64,
    floor_then: int,
    floor_later: int,
    fresh: u64,
)
    requires
        (deleted as int) < floor_then,
        floor_then <= floor_later,
        floor_later <= fresh as int,
    ensures
        fresh != deleted,
{
}

} // verus!
