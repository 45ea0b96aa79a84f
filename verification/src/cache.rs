//! A per-widget-handle memo of previously produced draw requests. Entries
//! are computed lazily, invalidated explicitly (for one handle or a whole
//! subtree), and cleared wholesale on surface resize. The store itself is a
//! hash map keyed by generational handles, so a reused arena slot never
//! serves the command list of its previous occupant.

use vstd::prelude::*;

use crate::arena::Arena;
use crate::batch::DrawRequest;
use crate::handle::UntypedHandle;
use crate::uniform::{count_true, lemma_count_true_all_false, lemma_count_true_bounds, lemma_count_true_set};

verus! {

/// `ahash`'s hash map, declared so that the command store can hold one; its
/// contents are visible to contracts only through [`store_entries`].
#[verifier::external_type_specification]
#[verifier::external_body]
#[verifier::reject_recursive_types(K)]
#[verifier::reject_recursive_types(V)]
#[verifier::reject_recursive_types(S)]
pub struct ExAHashMap<K, V, S>(ahash::AHashMap<K, V, S>);

/// `ahash`'s hasher state, the default hasher parameter of its map.
#[verifier::external_type_specification]
#[verifier::external_body]
pub struct ExRandomState(ahash::RandomState);

/// The entries a command store holds, as a map from handles to the cached
/// request lists. What `ahash::AHashMap` holds, named for the contracts of
/// the trusted store operations below.
pub uninterp spec fn store_entries(m: ahash::AHashMap<UntypedHandle, Vec<DrawRequest>>) -> Map<UntypedHandle, Vec<DrawRequest>>;

/// Relies on `ahash::AHashMap::new`: a freshly created map has no entries.
#[verifier::external_body]
fn store_new() -> (m: ahash::AHashMap<UntypedHandle, Vec<DrawRequest>>)
    ensures
        forall|k: UntypedHandle| !store_entries(m).contains_key(k),
{
    ahash::AHashMap::new()
}

/// Relies on `ahash::AHashMap::insert` (which delegates to std's
/// `HashMap::insert`) with the derived `Hash`/`Eq` of `UntypedHandle`: after
/// the call the key maps to the given value and no other entry changes.
#[verifier::external_body]
fn store_insert(m: &mut ahash::AHashMap<UntypedHandle, Vec<DrawRequest>>, k: UntypedHandle, v: Vec<DrawRequest>)
    ensures
        store_entries(*final(m)) == store_entries(*old(m)).insert(k, v),
{
    m.insert(k, v);
}

/// Relies on `ahash::AHashMap::get` (which delegates to std's
/// `HashMap::get`) with the derived `Hash`/`Eq` of `UntypedHandle`: returns
/// the entry stored under the key, if there is one.
#[verifier::external_body]
fn store_get<'a>(m: &'a ahash::AHashMap<UntypedHandle, Vec<DrawRequest>>, k: &UntypedHandle) -> (r: Option<&'a Vec<DrawRequest>>)
    ensures
        match r {
            Some(v) => store_entries(*m).contains_key(*k) && *v == store_entries(*m)[*k],
            None => !store_entries(*m).contains_key(*k),
        },
{
    m.get(k)
}

/// Relies on `ahash::AHashMap::remove` (which delegates to std's
/// `HashMap::remove`) with the derived `Hash`/`Eq` of `UntypedHandle`:
/// afterwards the key has no entry and no other entry changes.
#[verifier::external_body]
fn store_remove(m: &mut ahash::AHashMap<UntypedHandle, Vec<DrawRequest>>, k: &UntypedHandle)
    ensures
        store_entries(*final(m)) == store_entries(*old(m)).remove(*k),
{
    m.remove(k);
}

/// Relies on std's `HashMap::clear`, reached through `ahash::AHashMap`'s
/// mutable deref: afterwards the map has no entries.
#[verifier::external_body]
fn store_clear(m: &mut ahash::AHashMap<UntypedHandle, Vec<DrawRequest>>)
    ensures
        forall|k: UntypedHandle| !store_entries(*final(m)).contains_key(k),
{
    m.clear();
}

/// The children recorded for arena slot `i`: what the widget tree's children
/// arena holds there, or nothing when the slot is out of range or empty.
pub open spec fn children_of(children: Arena<Vec<UntypedHandle>>, i: int) -> Seq<UntypedHandle> {
    if 0 <= i < children.vec@.len() {
        match children.vec@[i] {
            Some(list) => list@,
            None => Seq::empty(),
        }
    } else {
        Seq::empty()
    }
}

/// The set contains, with each member, every child that member's slot
/// lists.
pub open spec fn closed_under_children(
    s: Set<UntypedHandle>,
    children: Arena<Vec<UntypedHandle>>,
) -> bool {
    forall|h: UntypedHandle, c: UntypedHandle| #[trigger] s.contains(h)
        && #[trigger] children_of(children, h.index as int).contains(c) ==> s.contains(c)
}

/// What a subtree invalidation leaves behind: the least set of handles that
/// holds the invalidated root and every child of each of its members —
/// exactly the handles removed from the cache, so nothing outside the
/// subtree is touched.
pub open spec fn subtree_closure(
    s: Set<UntypedHandle>,
    root: UntypedHandle,
    children: Arena<Vec<UntypedHandle>>,
    before: Map<UntypedHandle, Vec<DrawRequest>>,
    after: Map<UntypedHandle, Vec<DrawRequest>>,
) -> bool {
    &&& s.contains(root)
    &&& closed_under_children(s, children)
    &&& forall|h: UntypedHandle| #[trigger] s.contains(h)
        ==> h == root || exists|p: UntypedHandle| #[trigger] s.contains(p)
            && children_of(children, p.index as int).contains(h)
    &&& forall|s2: Set<UntypedHandle>| #[trigger] closed_under_children(s2, children)
        && s2.contains(root) ==> s.subset_of(s2)
    &&& after == before.remove_keys(s)
}

/// Law: a set closed under the children relation swallows every chain that
/// starts inside it — so after `invalidate_subtree(root, children)`, the
/// root and every descendant reachable through the children lists is out of
/// the cache.
pub proof fn lemma_chain_in_closed_set(
    s: Set<UntypedHandle>,
    children: Arena<Vec<UntypedHandle>>,
    path: Seq<UntypedHandle>,
)
    requires
        path.len() > 0,
        s.contains(path[0]),
        forall|k: int| 0 <= k < path.len() - 1
            ==> children_of(children, (#[trigger] path[k]).index as int).contains(path[k + 1]),
        closed_under_children(s, children),
    ensures
        s.contains(path.last()),
    decreases path.len(),
{
    if path.len() > 1 {
        assert(s.contains(path[1]));
        lemma_chain_in_closed_set(s, children, path.drop_first());
        assert(path.drop_first().last() == path.last());
    }
}

/// A sequence member that is not the appended last element was already a
/// member before the append.
proof fn lemma_last_or_earlier(s: Seq<UntypedHandle>, x: UntypedHandle, y: UntypedHandle)
    requires
        s.push(x).contains(y),
        !s.contains(y),
    ensures
        y == x,
{
    let w = choose|w: int| 0 <= w < s.push(x).len() && s.push(x)[w] == y;
    if w < s.len() {
        assert(s[w] == y);
    }
}

/// Appending to the worklist keeps every membership fact of the old
/// worklist.
proof fn lemma_push_keeps(q0: Seq<UntypedHandle>, x: UntypedHandle)
    ensures
        forall|y: UntypedHandle| #[trigger] q0.contains(y) ==> q0.push(x).contains(y),
{
    assert forall|y: UntypedHandle| #[trigger] q0.contains(y) implies q0.push(x).contains(y) by {
        let w = choose|w: int| 0 <= w < q0.len() && q0[w] == y;
        assert(q0.push(x)[w] == y);
    }
}

/// Popping the worklist's head moves its facts along: every member of the
/// old worklist is the popped head (now in the removed set) or still queued,
/// and every provenance or closure fact survives the removed set growing by
/// the head.
proof fn lemma_pop_keeps(
    queue0: Seq<UntypedHandle>,
    removed0: Set<UntypedHandle>,
    removed: Set<UntypedHandle>,
    h: UntypedHandle,
    root: UntypedHandle,
    children: Arena<Vec<UntypedHandle>>,
)
    requires
        queue0.len() > 0,
        queue0[0] == h,
        removed == removed0.insert(h),
        forall|x: UntypedHandle| #[trigger] queue0.contains(x)
            ==> x == root || exists|p: UntypedHandle| #[trigger] removed0.contains(p)
                && children_of(children, p.index as int).contains(x),
        forall|x: UntypedHandle| #[trigger] removed0.contains(x)
            ==> x == root || exists|p: UntypedHandle| #[trigger] removed0.contains(p)
                && children_of(children, p.index as int).contains(x),
        removed0.contains(root) || queue0.contains(root),
    ensures
        forall|x: UntypedHandle| #[trigger] queue0.remove(0).contains(x)
            ==> x == root || exists|p: UntypedHandle| #[trigger] removed.contains(p)
                && children_of(children, p.index as int).contains(x),
        forall|x: UntypedHandle| #[trigger] removed.contains(x)
            ==> x == root || exists|p: UntypedHandle| #[trigger] removed.contains(p)
                && children_of(children, p.index as int).contains(x),
        removed.contains(root) || queue0.remove(0).contains(root),
        forall|x: UntypedHandle| #[trigger] queue0.contains(x)
            ==> removed.contains(x) || queue0.remove(0).contains(x),
{
    let queue1 = queue0.remove(0);
    assert forall|x: UntypedHandle| #[trigger] queue1.contains(x)
        implies queue0.contains(x) by {
        let w = choose|w: int| 0 <= w < queue1.len() && queue1[w] == x;
        assert(queue0[w + 1] == x);
    }
    assert forall|x: UntypedHandle| #[trigger] queue0.contains(x)
        implies removed.contains(x) || queue1.contains(x) by {
        let w = choose|w: int| 0 <= w < queue0.len() && queue0[w] == x;
        if w == 0 {
            assert(x == h);
        } else {
            assert(queue1[w - 1] == x);
        }
    }
    assert(queue0.contains(h)) by {
        assert(queue0[0] == h);
    }
    assert forall|x: UntypedHandle| #[trigger] removed.contains(x)
        implies x == root || exists|p: UntypedHandle| #[trigger] removed.contains(p)
            && children_of(children, p.index as int).contains(x) by {
        if x != root {
            if removed0.contains(x) {
                let p = choose|p: UntypedHandle| #[trigger] removed0.contains(p)
                    && children_of(children, p.index as int).contains(x);
                assert(removed.contains(p));
            } else {
                let p = choose|p: UntypedHandle| #[trigger] removed0.contains(p)
                    && children_of(children, p.index as int).contains(h);
                assert(removed.contains(p));
            }
        }
    }
    assert forall|x: UntypedHandle| #[trigger] queue1.contains(x)
        implies x == root || exists|p: UntypedHandle| #[trigger] removed.contains(p)
            && children_of(children, p.index as int).contains(x) by {
        if x != root {
            assert(queue0.contains(x));
            let p = choose|p: UntypedHandle| #[trigger] removed0.contains(p)
                && children_of(children, p.index as int).contains(x);
            assert(removed.contains(p));
        }
    }
}

/// The per-handle memo of draw requests. Owned by the rendering subsystem
/// for the process's lifetime; entries come and go as widgets render and
/// invalidate.
pub struct RenderCommandCache {
    store: ahash::AHashMap<UntypedHandle, Vec<DrawRequest>>,
}

impl View for RenderCommandCache {
    type V = Map<UntypedHandle, Vec<DrawRequest>>;

    closed spec fn view(&self) -> Map<UntypedHandle, Vec<DrawRequest>> {
        store_entries(self.store)
    }
}

impl RenderCommandCache {
    /// An empty cache.
    pub fn new() -> (r: RenderCommandCache)
        ensures
            r@ == Map::<UntypedHandle, Vec<DrawRequest>>::empty(),
    {
        let store = store_new();
        proof {
            assert(store_entries(store).dom() =~= Set::empty());
            assert(store_entries(store) =~= Map::<UntypedHandle, Vec<DrawRequest>>::empty());
        }
        RenderCommandCache { store }
    }

    /// The cached request list for a handle, if any.
    pub fn get(&self, handle: &UntypedHandle) -> (r: Option<&Vec<DrawRequest>>)
        ensures
            match r {
                Some(v) => self@.contains_key(*handle) && *v == self@[*handle],
                None => !self@.contains_key(*handle),
            },
    {
        store_get(&self.store, handle)
    }

    /// Stores the request list a widget just produced for its handle.
    pub fn insert(&mut self, handle: UntypedHandle, commands: Vec<DrawRequest>)
        ensures
            final(self)@ == old(self)@.insert(handle, commands),
    {
        store_insert(&mut self.store, handle, commands);
    }

    /// The cached request list for the handle, or the one `compute` makes:
    /// on a hit the cache is untouched and the stored list returned; on a
    /// miss `compute` is called (once), its result stored under the handle
    /// and returned.
    pub fn get_or_compute<F: FnOnce() -> Vec<DrawRequest>>(&mut self, handle: UntypedHandle, compute: F) -> (r: &Vec<DrawRequest>)
        requires
            compute.requires(()),
        ensures
            final(self)@.contains_key(handle),
            *r == final(self)@[handle],
            old(self)@.contains_key(handle)
                ==> final(self)@ == old(self)@ && *r == old(self)@[handle],
            !old(self)@.contains_key(handle)
                ==> compute.ensures((), *r) && final(self)@ == old(self)@.insert(handle, *r),
    {
        let cached = store_get(&self.store, &handle).is_some();
        if !cached {
            let commands = compute();
            store_insert(&mut self.store, handle, commands);
        }
        match store_get(&self.store, &handle) {
            Some(v) => v,
            None => vstd::pervasive::unreached(),
        }
    }

    /// Drops the cached entry for one handle, if any.
    pub fn invalidate(&mut self, handle: &UntypedHandle)
        ensures
            final(self)@ == old(self)@.remove(*handle),
    {
        store_remove(&mut self.store, handle);
    }

    /// Drops the cached entries of a whole subtree: a breadth-first walk
    /// from `handle` removes the entry of every node it visits and enqueues
    /// that node's children as the widget tree's children arena lists them.
    /// Each arena slot is expanded at most once, so the walk ends even if
    /// the lists alias one another.
    #[verifier::loop_isolation(false)]
    #[verifier::rlimit(80)]
    pub fn invalidate_subtree(&mut self, handle: UntypedHandle, children: &Arena<Vec<UntypedHandle>>)
        ensures
            exists|s: Set<UntypedHandle>|
                #[trigger] subtree_closure(s, handle, *children, old(self)@, final(self)@),
    {
        let n = children.len();
        let mut visited: Vec<bool> = vec![false; n];
        proof {
            lemma_count_true_all_false(visited@);
        }
        let mut queue: Vec<UntypedHandle> = Vec::new();
        queue.push(handle);
        let ghost mut removed: Set<UntypedHandle> = Set::empty();
        proof {
            assert(old(self)@.remove_keys(removed) =~= old(self)@);
            assert(queue@[0] == handle);
        }
        while queue.len() > 0
            invariant
                n == children.vec@.len(),
                visited@.len() == n,
                removed.finite(),
                0 <= count_true(visited@) <= n,
                self@ == old(self)@.remove_keys(removed),
                removed.contains(handle) || queue@.contains(handle),
                forall|x: UntypedHandle| #[trigger] queue@.contains(x)
                    ==> x == handle || exists|p: UntypedHandle| #[trigger] removed.contains(p)
                        && children_of(*children, p.index as int).contains(x),
                forall|x: UntypedHandle| #[trigger] removed.contains(x)
                    ==> x == handle || exists|p: UntypedHandle| #[trigger] removed.contains(p)
                        && children_of(*children, p.index as int).contains(x),
                forall|x: UntypedHandle| #[trigger] removed.contains(x)
                    && (x.index as int) < n ==> visited@[x.index as int],
                forall|i: int, c: UntypedHandle| 0 <= i < n && #[trigger] visited@[i]
                    && #[trigger] children_of(*children, i).contains(c)
                    ==> removed.contains(c) || queue@.contains(c),
                forall|s2: Set<UntypedHandle>| #[trigger] closed_under_children(s2, *children)
                    && s2.contains(handle)
                    ==> removed.subset_of(s2)
                        && (forall|q: int| 0 <= q < queue@.len()
                            ==> s2.contains(#[trigger] queue@[q])),
            decreases n - count_true(visited@), queue@.len(),
        {
            let ghost queue0 = queue@;
            let ghost removed0 = removed;
            let h = queue.remove(0);
            store_remove(&mut self.store, &h);
            proof {
                assert(h == queue0[0]);
                assert(queue@ =~= queue0.remove(0));
                assert(queue0.contains(h)) by {
                    assert(queue0[0] == h);
                }
                removed = removed0.insert(h);
                assert(self@ =~= old(self)@.remove_keys(removed)) by {
                    assert(old(self)@.remove_keys(removed)
                        =~= old(self)@.remove_keys(removed0).remove(h));
                }
                lemma_pop_keeps(queue0, removed0, removed, h, handle, *children);
                assert forall|s2: Set<UntypedHandle>|
                    #[trigger] closed_under_children(s2, *children) && s2.contains(handle)
                    implies removed.subset_of(s2)
                        && (forall|q: int| 0 <= q < queue@.len()
                            ==> s2.contains(#[trigger] queue@[q])) by {
                    assert(removed0.subset_of(s2));
                    assert(s2.contains(h)) by {
                        assert(queue0[0] == h);
                        assert(s2.contains(queue0[0]));
                    }
                    assert forall|q: int| 0 <= q < queue@.len()
                        implies s2.contains(#[trigger] queue@[q]) by {
                        assert(queue@[q] == queue0[q + 1]);
                        assert(s2.contains(queue0[q + 1]));
                    }
                }
            }
            if h.index < n && !visited[h.index] {
                proof {
                    lemma_count_true_set(visited@, h.index as int);
                    lemma_count_true_bounds(visited@.update(h.index as int, true));
                }
                let ghost visited0 = visited@;
                visited[h.index] = true;
                match children.get(h.index) {
                    Some(list) => {
                        let ghost kids = list@;
                        proof {
                            assert(children_of(*children, h.index as int) =~= kids);
                        }
                        let m = list.len();
                        let mut j: usize = 0;
                        while j < m
                            invariant
                                m == kids.len(),
                                j <= m,
                                list@ == kids,
                                removed.contains(h),
                                children_of(*children, h.index as int) =~= kids,
                                forall|k: int| 0 <= k < j ==> queue@.contains(#[trigger] kids[k]),
                                removed.contains(handle) || queue@.contains(handle),
                                forall|x: UntypedHandle| #[trigger] queue@.contains(x)
                                    ==> x == handle
                                        || exists|p: UntypedHandle| #[trigger] removed.contains(p)
                                            && children_of(*children, p.index as int).contains(x),
                                forall|i: int, c: UntypedHandle| 0 <= i < n && #[trigger] visited0[i]
                                    && #[trigger] children_of(*children, i).contains(c)
                                    ==> removed.contains(c) || queue@.contains(c),
                                forall|s2: Set<UntypedHandle>|
                                    #[trigger] closed_under_children(s2, *children)
                                    && s2.contains(handle)
                                    ==> removed.subset_of(s2)
                                        && (forall|q: int| 0 <= q < queue@.len()
                                            ==> s2.contains(#[trigger] queue@[q])),
                            decreases m - j,
                        {
                            let ghost q0 = queue@;
                            let child = list[j];
                            queue.push(child);
                            proof {
                                assert(queue@ =~= q0.push(child));
                                lemma_push_keeps(q0, child);
                                assert(queue@[q0.len() as int] == child);
                                assert(queue@.contains(child));
                                assert(kids[j as int] == child);
                                assert(children_of(*children, h.index as int).contains(child));
                                assert forall|x: UntypedHandle| #[trigger] queue@.contains(x)
                                    implies x == handle
                                        || exists|p: UntypedHandle| #[trigger] removed.contains(p)
                                            && children_of(*children, p.index as int).contains(x) by {
                                    if !q0.contains(x) {
                                        lemma_last_or_earlier(q0, child, x);
                                        assert(x == child);
                                        assert(removed.contains(h));
                                    }
                                }
                                assert forall|s2: Set<UntypedHandle>|
                                    #[trigger] closed_under_children(s2, *children)
                                    && s2.contains(handle)
                                    implies removed.subset_of(s2)
                                        && (forall|q: int| 0 <= q < queue@.len()
                                            ==> s2.contains(#[trigger] queue@[q])) by {
                                    // the pushed child sits in every closed
                                    // set that holds its parent
                                    assert(s2.contains(h));
                                    assert(s2.contains(child));
                                    assert forall|q: int| 0 <= q < queue@.len()
                                        implies s2.contains(#[trigger] queue@[q]) by {
                                        if q < q0.len() {
                                            assert(queue@[q] == q0[q]);
                                            assert(s2.contains(q0[q]));
                                        } else {
                                            assert(queue@[q] == child);
                                        }
                                    }
                                }
                            }
                            j = j + 1;
                        }
                        proof {
                            assert forall|i: int, c: UntypedHandle| 0 <= i < n && #[trigger] visited@[i]
                                && #[trigger] children_of(*children, i).contains(c)
                                implies removed.contains(c) || queue@.contains(c) by {
                                if i == h.index as int {
                                    let k = choose|k: int| 0 <= k < kids.len() && kids[k] == c;
                                    assert(queue@.contains(kids[k]));
                                } else {
                                    assert(visited0[i]);
                                }
                            }
                        }
                    }
                    None => {
                        proof {
                            assert(children_of(*children, h.index as int)
                                =~= Seq::<UntypedHandle>::empty());
                            assert forall|i: int, c: UntypedHandle| 0 <= i < n && #[trigger] visited@[i]
                                && #[trigger] children_of(*children, i).contains(c)
                                implies removed.contains(c) || queue@.contains(c) by {
                                if i != h.index as int {
                                    assert(visited0[i]);
                                }
                            }
                        }
                    }
                }
            }
        }
        proof {
            assert(removed.contains(handle)) by {
                if !removed.contains(handle) {
                    let w = choose|w: int| 0 <= w < queue@.len() && queue@[w] == handle;
                }
            }
            assert forall|h2: UntypedHandle, c: UntypedHandle| #[trigger] removed.contains(h2)
                && #[trigger] children_of(*children, h2.index as int).contains(c)
                implies removed.contains(c) by {
                if (h2.index as int) < n {
                    assert(visited@[h2.index as int]);
                    if !removed.contains(c) {
                        assert(queue@.contains(c));
                        let w = choose|w: int| 0 <= w < queue@.len() && queue@[w] == c;
                    }
                }
            }
            assert(subtree_closure(removed, handle, *children, old(self)@, self@));
        }
    }

    /// Empties the cache entirely — done when the surface is resized, since
    /// cached geometry would otherwise be drawn at the old scale.
    pub fn clear(&mut self)
        ensures
            final(self)@ == Map::<UntypedHandle, Vec<DrawRequest>>::empty(),
    {
        store_clear(&mut self.store);
        proof {
            assert(store_entries(self.store).dom() =~= Set::empty());
            assert(store_entries(self.store) =~= Map::<UntypedHandle, Vec<DrawRequest>>::empty());
        }
    }
}

} // verus!
