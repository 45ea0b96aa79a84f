//! Orders a frame's batches for painter's-algorithm submission: opaque
//! batches first (their mutual order is free, since without a depth buffer
//! opaque geometry needs no inter-batch ordering), then the transparent
//! batches back to front by their meshes' highest depth value. The ordering
//! is per merged batch, not per primitive: transparent primitives fused into
//! one batch, or batches with overlapping depth ranges, are composited in
//! batch order — a documented approximation, not corrected here.

use vstd::prelude::*;

use crate::batch::{batches_key_distinct, Batch};
use crate::sums::{int_sum, lemma_int_sum_push, lemma_int_sum_remove};

verus! {

/// Whether a batch holds possibly translucent geometry.
pub open spec fn is_transparent(b: Batch) -> bool {
    b.mesh.could_be_transparent
}

/// The depth key a transparent batch is sorted by.
pub open spec fn depth_of(b: Batch) -> int {
    b.mesh.highest_z as int
}

/// Index of a batch with minimal depth among `rem`.
fn find_min_depth(rem: &Vec<Batch>) -> (mi: usize)
    requires
        rem@.len() > 0,
    ensures
        (mi as int) < rem@.len(),
        forall|j: int| 0 <= j < rem@.len() ==> depth_of(rem@[mi as int]) <= depth_of(#[trigger] rem@[j]),
{
    let mut mi: usize = 0;
    let mut j: usize = 1;
    while j < rem.len()
        invariant
            (mi as int) < rem@.len(),
            j <= rem@.len(),
            forall|k: int| 0 <= k < j ==> depth_of(rem@[mi as int]) <= depth_of(#[trigger] rem@[k]),
        decreases rem@.len() - j,
    {
        if rem[j].mesh.highest_z < rem[mi].mesh.highest_z {
            mi = j;
        }
        j = j + 1;
    }
    mi
}

/// Partitions batches into opaque and transparent and orders the transparent
/// ones back to front.
pub struct TransparencySorter;

impl TransparencySorter {
    /// Returns the batches in submission order: a permutation of the input
    /// in which every opaque batch stands before every transparent one (the
    /// opaque ones in their given order), and the transparent ones ascend by
    /// their meshes' highest depth value, so farther geometry is composited
    /// first.
    #[verifier::loop_isolation(false)]
    pub fn order(batches: Vec<Batch>) -> (r: Vec<Batch>)
        ensures
            r@.to_multiset() == batches@.to_multiset(),
            r@.len() == batches@.len(),
            // every opaque batch stands before every transparent one
            forall|i: int, j: int| 0 <= i <= j < r@.len() && is_transparent(#[trigger] r@[i])
                ==> is_transparent(#[trigger] r@[j]),
            // the transparent tail is ordered back to front
            forall|i: int, j: int| 0 <= i <= j < r@.len() && is_transparent(#[trigger] r@[i])
                ==> depth_of(r@[i]) <= depth_of(#[trigger] r@[j]),
    {
        broadcast use vstd::seq_lib::group_to_multiset_ensures;

        let ghost all = batches@;
        let n = batches.len();
        let mut batches = batches;
        let mut opaque: Vec<Batch> = Vec::new();
        let mut transparent: Vec<Batch> = Vec::new();
        let mut i: usize = 0;
        while i < n
            invariant
                n == all.len(),
                batches@ =~= all.skip(i as int),
                i <= n,
                opaque@.to_multiset().add(transparent@.to_multiset())
                    =~= all.take(i as int).to_multiset(),
                opaque@.len() + transparent@.len() == i,
                forall|k: int| 0 <= k < opaque@.len() ==> !is_transparent(#[trigger] opaque@[k]),
                forall|k: int| 0 <= k < transparent@.len()
                    ==> is_transparent(#[trigger] transparent@[k]),
            decreases n - i,
        {
            assert(batches@[0] == all[i as int]);
            let b = batches.remove(0);
            proof {
                assert(batches@ =~= all.skip(i as int + 1));
                assert(all.take(i as int + 1) =~= all.take(i as int).push(all[i as int]));
            }
            if b.mesh.could_be_transparent {
                transparent.push(b);
            } else {
                opaque.push(b);
            }
            i = i + 1;
        }
        proof {
            assert(all.take(n as int) =~= all);
        }

        // back-to-front: repeatedly move the shallowest remaining transparent
        // batch over, so the output ascends by depth
        let ghost trans0 = transparent@;
        let mut sorted: Vec<Batch> = Vec::new();
        while transparent.len() > 0
            invariant
                sorted@.to_multiset().add(transparent@.to_multiset())
                    =~= trans0.to_multiset(),
                sorted@.len() + transparent@.len() == trans0.len(),
                forall|k: int| 0 <= k < transparent@.len()
                    ==> is_transparent(#[trigger] transparent@[k]),
                forall|k: int| 0 <= k < sorted@.len() ==> is_transparent(#[trigger] sorted@[k]),
                forall|k1: int, k2: int| 0 <= k1 <= k2 < sorted@.len()
                    ==> depth_of(#[trigger] sorted@[k1]) <= depth_of(#[trigger] sorted@[k2]),
                forall|k: int, j: int| 0 <= k < sorted@.len() && 0 <= j < transparent@.len()
                    ==> depth_of(#[trigger] sorted@[k]) <= depth_of(#[trigger] transparent@[j]),
            decreases transparent@.len(),
        {
            let mi = find_min_depth(&transparent);
            let b = transparent.remove(mi);
            sorted.push(b);
        }

        // opaque first, then the ordered transparent tail
        let ghost opq = opaque@;
        let mut r = opaque;
        let mut sorted = sorted;
        let ghost srt = sorted@;
        r.append(&mut sorted);
        proof {
            vstd::seq_lib::lemma_multiset_commutative(opq, srt);
            assert(r@.to_multiset() =~= all.to_multiset());
            assert(r@.to_multiset().len() == all.to_multiset().len());
        }
        r
    }
}

/// Reordering batches never changes a sum taken over them: two sequences
/// with equal multisets have equal sums of any per-batch quantity.
pub proof fn lemma_multiset_map_sum(s: Seq<Batch>, t: Seq<Batch>, f: spec_fn(Batch) -> int)
    requires
        s.to_multiset() == t.to_multiset(),
    ensures
        int_sum(s.map_values(f)) == int_sum(t.map_values(f)),
    decreases s.len(),
{
    broadcast use vstd::seq_lib::group_to_multiset_ensures;

    if s.len() == 0 {
        assert(s.to_multiset().len() == 0);
        assert(t.to_multiset().len() == t.len());
        assert(t.len() == 0);
        assert(s.map_values(f) =~= Seq::<int>::empty());
        assert(t.map_values(f) =~= Seq::<int>::empty());
    } else {
        let x = s.last();
        assert(s.drop_last().push(x) =~= s);
        assert(s.to_multiset().count(x) > 0) by {
            assert(s.contains(x));
        }
        assert(t.contains(x));
        let j = choose|j: int| 0 <= j < t.len() && t[j] == x;
        assert(s.drop_last().to_multiset() =~= t.remove(j).to_multiset()) by {
            assert(s.drop_last().push(x).to_multiset()
                =~= s.drop_last().to_multiset().insert(x));
            assert(t.remove(j).to_multiset() =~= t.to_multiset().remove(x));
            assert(s.drop_last().to_multiset()
                =~= s.drop_last().to_multiset().insert(x).remove(x));
        }
        lemma_multiset_map_sum(s.drop_last(), t.remove(j), f);
        assert(s.map_values(f) =~= s.drop_last().map_values(f).push(f(x)));
        lemma_int_sum_push(s.drop_last().map_values(f), f(x));
        assert(t.map_values(f).remove(j) =~= t.remove(j).map_values(f));
        lemma_int_sum_remove(t.map_values(f), j);
        assert(t.map_values(f)[j] == f(x));
    }
}

/// Reordering batches keeps their keys pairwise distinct.
pub proof fn lemma_multiset_keys_distinct(s: Seq<Batch>, t: Seq<Batch>)
    requires
        s.to_multiset() == t.to_multiset(),
        batches_key_distinct(s),
    ensures
        batches_key_distinct(t),
{
    broadcast use vstd::seq_lib::group_to_multiset_ensures;

    assert forall|i: int, j: int| 0 <= i < j < t.len()
        implies !((#[trigger] t[i]).key@ =~~= (#[trigger] t[j]).key@) by {
        if t[i].key@ =~~= t[j].key@ {
            if t[i] == t[j] {
                // the duplicated batch occurs twice in the input too, and
                // those two occurrences share a key
                let v = t[i];
                assert(t.remove(j).to_multiset() =~= t.to_multiset().remove(v));
                assert(t.remove(j)[i] == v);
                assert(t.remove(j).contains(v));
                assert(t.remove(j).to_multiset().count(v) > 0);
                assert(s.to_multiset().count(v) >= 2);
                assert(s.contains(v));
                let p = choose|p: int| 0 <= p < s.len() && s[p] == v;
                assert(s.remove(p).to_multiset() =~= s.to_multiset().remove(v));
                assert(s.remove(p).to_multiset().count(v) > 0);
                assert(s.remove(p).contains(v));
                let q0 = choose|q: int| 0 <= q < s.remove(p).len() && s.remove(p)[q] == v;
                let q1: int = if q0 < p {
                    q0
                } else {
                    q0 + 1
                };
                assert(s[q1] == v);
                assert(q1 != p);
                if p < q1 {
                    assert(!(s[p].key@ =~~= s[q1].key@));
                } else {
                    assert(!(s[q1].key@ =~~= s[p].key@));
                }
            } else {
                // two distinct batches with one key both occur in the input
                assert(t.to_multiset().count(t[i]) > 0) by {
                    assert(t.contains(t[i]));
                }
                assert(t.to_multiset().count(t[j]) > 0) by {
                    assert(t.contains(t[j]));
                }
                assert(s.contains(t[i]));
                assert(s.contains(t[j]));
                let p = choose|p: int| 0 <= p < s.len() && s[p] == t[i];
                let q = choose|q: int| 0 <= q < s.len() && s[q] == t[j];
                assert(p != q);
                if p < q {
                    assert(!(s[p].key@ =~~= s[q].key@));
                } else {
                    assert(!(s[q].key@ =~~= s[p].key@));
                }
            }
        }
    }
}

/// Law: the sorter places every opaque batch before every transparent batch,
/// whatever the depth values are — transparency alone decides the partition,
/// depth only orders the transparent tail.
pub proof fn lemma_opaque_before_transparent(r: Seq<Batch>, i: int, j: int)
    requires
        forall|a: int, b: int| 0 <= a <= b < r.len() && is_transparent(#[trigger] r[a])
            ==> is_transparent(#[trigger] r[b]),
        0 <= i < r.len(),
        0 <= j < r.len(),
        !is_transparent(r[i]),
        is_transparent(r[j]),
    ensures
        j > i,
{
    if j <= i {
        assert(is_transparent(r[i]));
    }
}

} // verus!
