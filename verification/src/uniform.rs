//! Greedy allocator that maps uniform byte payloads to reusable GPU buffer
//! bindings. The binding pool persists across frames and never shrinks; a
//! binding is reused whenever a later payload fits its capacity, and within
//! one call no binding is handed to two payloads.

use vstd::prelude::*;

verus! {

/// Which pipeline stages see a uniform binding.
#[derive(Clone, Copy, Debug, PartialEq, Eq, Structural, Hash)]
pub enum IndigoShaderStage {
    Both,
    Vertex,
    Fragment,
}

/// One uniform payload handed in by a draw request: raw bytes plus the
/// stages that read them.
#[derive(Clone, Debug)]
pub struct UniformBlob {
    pub data: Vec<u8>,
    pub stages: IndigoShaderStage,
}

/// Two payloads are interchangeable when their bytes and their stage
/// visibility agree.
pub open spec fn blobs_equal(a: UniformBlob, b: UniformBlob) -> bool {
    a.data@ == b.data@ && a.stages == b.stages
}

/// Decides [`blobs_equal`] on two payloads.
pub fn blob_eq(a: &UniformBlob, b: &UniformBlob) -> (r: bool)
    ensures
        r == blobs_equal(*a, *b),
{
    let r = a.data == b.data && a.stages == b.stages;
    proof {
        if r {
            assert(a.data@ =~= b.data@);
        }
    }
    r
}

/// A reusable uniform binding: the capacity its GPU buffer was created with
/// and the stage visibility baked into its layout. The buffer and bind group
/// themselves live with the backend, addressed by this binding's pool index.
#[derive(Clone, Copy, Debug, PartialEq, Eq, Structural)]
pub struct UniformBinding {
    pub min_size: u64,
    pub stages: IndigoShaderStage,
}

/// Number of `true` entries in a sequence of flags.
pub open spec fn count_true(s: Seq<bool>) -> int
    decreases s.len(),
{
    if s.len() == 0 {
        0
    } else {
        count_true(s.drop_last()) + if s.last() {
            1int
        } else {
            0int
        }
    }
}

/// Counting flags never exceeds their number and never goes negative.
pub proof fn lemma_count_true_bounds(s: Seq<bool>)
    ensures
        0 <= count_true(s) <= s.len(),
    decreases s.len(),
{
    if s.len() > 0 {
        lemma_count_true_bounds(s.drop_last());
    }
}

/// A sequence of clear flags counts zero.
pub proof fn lemma_count_true_all_false(s: Seq<bool>)
    requires
        forall|i: int| 0 <= i < s.len() ==> !s[i],
    ensures
        count_true(s) == 0,
    decreases s.len(),
{
    if s.len() > 0 {
        lemma_count_true_all_false(s.drop_last());
    }
}

/// If fewer flags are set than there are flags, some flag is clear.
pub proof fn lemma_count_true_not_full(s: Seq<bool>)
    requires
        count_true(s) < s.len(),
    ensures
        exists|i: int| 0 <= i < s.len() && !s[i],
    decreases s.len(),
{
    if !s.last() {
        assert(!s[s.len() - 1]);
    } else {
        lemma_count_true_not_full(s.drop_last());
        let i = choose|i: int| 0 <= i < s.drop_last().len() && !s.drop_last()[i];
        assert(!s[i]);
    }
}

/// Setting a clear flag raises the count by one.
pub proof fn lemma_count_true_set(s: Seq<bool>, i: int)
    requires
        0 <= i < s.len(),
        !s[i],
    ensures
        count_true(s.update(i, true)) == count_true(s) + 1,
    decreases s.len(),
{
    let t = s.update(i, true);
    if i == s.len() - 1 {
        assert(t.drop_last() =~= s.drop_last());
    } else {
        assert(t.drop_last() =~= s.drop_last().update(i, true));
        lemma_count_true_set(s.drop_last(), i);
    }
}

/// First binding in pool order that fits a payload of `size` bytes and was
/// not already taken in this call; `None` when no binding fits.
fn find_free_binding(bindings: &Vec<UniformBinding>, chosen: &Vec<usize>, size: u64) -> (r: Option<usize>)
    ensures
        match r {
            Some(b) => {
                &&& (b as int) < bindings@.len()
                &&& bindings@[b as int].min_size >= size
                &&& !chosen@.contains(b)
                &&& forall|b2: int| 0 <= b2 < b
                    ==> (#[trigger] bindings@[b2]).min_size >= size
                        ==> chosen@.contains(b2 as usize)
            },
            None => forall|b2: int| 0 <= b2 < bindings@.len()
                ==> (#[trigger] bindings@[b2]).min_size >= size
                    ==> chosen@.contains(b2 as usize),
        },
{
    let mut b: usize = 0;
    while b < bindings.len()
        invariant
            b <= bindings@.len(),
            forall|b2: int| 0 <= b2 < b
                ==> (#[trigger] bindings@[b2]).min_size >= size
                    ==> chosen@.contains(b2 as usize),
        decreases bindings@.len() - b,
    {
        if bindings[b].min_size >= size && !chosen_contains(chosen, b) {
            return Some(b);
        }
        b = b + 1;
    }
    None
}

/// Linear scan for a pool index in the list of bindings already chosen
/// during the current call.
fn chosen_contains(chosen: &Vec<usize>, x: usize) -> (r: bool)
    ensures
        r == chosen@.contains(x),
{
    let mut i: usize = 0;
    while i < chosen.len()
        invariant
            i <= chosen@.len(),
            forall|j: int| 0 <= j < i ==> chosen@[j] != x,
        decreases chosen@.len() - i,
    {
        if chosen[i] == x {
            return true;
        }
        i = i + 1;
    }
    false
}

/// Greedy bin-packer for uniform payloads: owns the pool of bindings, which
/// persists across frames and is never deallocated.
pub struct UniformSlotAllocator {
    pub bindings: Vec<UniformBinding>,
}

impl UniformSlotAllocator {
    /// A fresh allocator with an empty binding pool.
    pub fn new() -> (r: UniformSlotAllocator)
        ensures
            r.bindings@.len() == 0,
    {
        UniformSlotAllocator { bindings: Vec::new() }
    }

    /// Assigns one binding to each payload, in input order. Payloads are
    /// packed largest first (ties by input order) so that small payloads do
    /// not occupy bindings a larger payload still needs; each payload takes
    /// the first binding in pool order that fits it and was not already taken
    /// in this call, and a payload no binding fits gets a new binding sized
    /// exactly to it, appended to the pool.
    pub fn assign(&mut self, blobs: &Vec<UniformBlob>) -> (r: Vec<usize>)
        requires
            old(self).bindings@.len() + blobs@.len() <= usize::MAX,
        ensures
            r@.len() == blobs@.len(),
            // no binding serves two payloads of one call
            forall|i1: int, i2: int| 0 <= i1 < i2 < r@.len() ==> r@[i1] != r@[i2],
            // every assignment addresses the pool and fits
            forall|i: int| 0 <= i < r@.len() ==> (#[trigger] r@[i]) < final(self).bindings@.len(),
            forall|i: int| 0 <= i < r@.len()
                ==> (#[trigger] final(self).bindings@[r@[i] as int]).min_size >= blobs@[i].data@.len(),
            // the pool only grows and existing bindings never change
            old(self).bindings@.len() <= final(self).bindings@.len()
                <= old(self).bindings@.len() + blobs@.len(),
            forall|j: int| 0 <= j < old(self).bindings@.len()
                ==> final(self).bindings@[j] == old(self).bindings@[j],
            // every new binding is sized and staged exactly for the one
            // payload assigned to it
            forall|j: int| old(self).bindings@.len() <= j < final(self).bindings@.len()
                ==> exists|i: int| 0 <= i < blobs@.len() && (#[trigger] r@[i]) as int == j
                    && (#[trigger] final(self).bindings@[j]).min_size == blobs@[i].data@.len()
                    && final(self).bindings@[j].stages == blobs@[i].stages,
            // reuse comes first: a payload takes the first fitting binding in
            // pool order that no payload of this call claims, so a fresh
            // binding appears only when every fitting binding is claimed, and
            // every fitting binding before a reused one is claimed too
            forall|i: int, j: int| 0 <= i < r@.len()
                && 0 <= j < final(self).bindings@.len()
                && (j < (#[trigger] r@[i]) as int
                    || (r@[i] as int) >= old(self).bindings@.len())
                && (#[trigger] final(self).bindings@[j]).min_size >= blobs@[i].data@.len()
                ==> exists|i2: int| 0 <= i2 < r@.len() && ((#[trigger] r@[i2]) as int) == j,
    {
        let n = blobs.len();
        let ghost old_len = self.bindings@.len() as int;
        let mut result: Vec<usize> = vec![0; n];
        let mut used: Vec<bool> = vec![false; n];
        let mut chosen: Vec<usize> = Vec::new();
        let ghost mut procd: Seq<int> = Seq::empty();
        proof {
            lemma_count_true_all_false(used@);
        }
        let mut round: usize = 0;
        while round < n
            invariant
                n == blobs@.len(),
                old_len + n <= usize::MAX,
                result@.len() == n,
                used@.len() == n,
                round <= n,
                chosen@.len() == round,
                procd.len() == round,
                count_true(used@) == round,
                forall|k: int| 0 <= k < round ==> 0 <= #[trigger] procd[k] < n,
                forall|k: int| 0 <= k < round ==> used@[#[trigger] procd[k]],
                forall|i: int| 0 <= i < n && #[trigger] used@[i]
                    ==> exists|k: int| 0 <= k < round && procd[k] == i,
                forall|k1: int, k2: int| 0 <= k1 < k2 < round ==> procd[k1] != procd[k2],
                forall|k1: int, k2: int| 0 <= k1 < k2 < round
                    ==> chosen@[k1] != chosen@[k2],
                forall|k: int| 0 <= k < round
                    ==> (#[trigger] chosen@[k]) < self.bindings@.len(),
                forall|k: int| 0 <= k < round
                    ==> result@[#[trigger] procd[k]] == chosen@[k],
                forall|k: int| 0 <= k < round
                    ==> (#[trigger] self.bindings@[chosen@[k] as int]).min_size
                        >= blobs@[procd[k]].data@.len(),
                old_len <= self.bindings@.len() <= old_len + round,
                forall|j: int| 0 <= j < old_len
                    ==> #[trigger] self.bindings@[j] == old(self).bindings@[j],
                forall|j: int| old_len <= j < self.bindings@.len()
                    ==> exists|k: int| 0 <= k < round && (#[trigger] chosen@[k]) as int == j
                        && (#[trigger] self.bindings@[j]).min_size == blobs@[procd[k]].data@.len()
                        && self.bindings@[j].stages == blobs@[procd[k]].stages,
                forall|k: int, j: int| 0 <= k < round && 0 <= j < self.bindings@.len()
                    && (j < (#[trigger] chosen@[k]) as int || (chosen@[k] as int) >= old_len)
                    && (#[trigger] self.bindings@[j]).min_size >= blobs@[procd[k]].data@.len()
                    ==> exists|k2: int| 0 <= k2 < round && ((#[trigger] chosen@[k2]) as int) == j,
            decreases n - round,
        {
            let ghost pool0 = self.bindings@;
            let ghost chosen0 = chosen@;
            let ghost procd0 = procd;
            let ghost used0 = used@;
            // pick the widest payload not yet handled; ties fall to the
            // earliest, which keeps the packing stable in input order
            proof {
                lemma_count_true_not_full(used@);
            }
            let mut best: usize = 0;
            let mut found = false;
            let mut i: usize = 0;
            while i < n
                invariant
                    n == blobs@.len(),
                    used@.len() == n,
                    i <= n,
                    (exists|j: int| 0 <= j < i && !used@[j]) ==> found,
                    found ==> best < n && !used@[best as int],
                decreases n - i,
            {
                if !used[i] {
                    if !found || blobs[i].data.len() > blobs[best].data.len() {
                        best = i;
                        found = true;
                    }
                }
                i = i + 1;
            }
            assert(found);

            assert(forall|k: int| 0 <= k < round ==> procd[k] != best) by {
                assert(forall|k: int| 0 <= k < round ==> used@[#[trigger] procd[k]]);
            }
            proof {
                lemma_count_true_set(used@, best as int);
            }
            used[best] = true;

            // first binding in pool order that fits and is still free
            let ghost pool_before = self.bindings@;
            let size = blobs[best].data.len() as u64;
            let slot: usize;
            match find_free_binding(&self.bindings, &chosen, size) {
                Some(b) => {
                    slot = b;
                }
                None => {
                    self.bindings.push(UniformBinding { min_size: size, stages: blobs[best].stages });
                    slot = self.bindings.len() - 1;
                }
            }
            assert(slot < self.bindings@.len());
            assert(self.bindings@[slot as int].min_size >= blobs@[best as int].data@.len());
            assert(!chosen@.contains(slot)) by {
                if slot as int == pool_before.len() {
                    assert(forall|k: int| 0 <= k < chosen@.len()
                        ==> (#[trigger] chosen@[k]) < pool_before.len());
                }
            }
            let ghost chosen0 = chosen@;
            chosen.push(slot);
            result[best] = slot;
            proof {
                procd = procd.push(best as int);
                let r1 = round as int;
                assert(procd[r1] == best as int);
                assert(chosen@[r1] == slot);
                assert(used@ =~= used0.update(best as int, true));
                assert forall|i: int| 0 <= i < n && #[trigger] used@[i]
                    implies exists|k: int| 0 <= k < r1 + 1 && procd[k] == i by {
                    if i == best as int {
                        assert(procd[r1] == i);
                    } else {
                        assert(used0[i]);
                        let k = choose|k: int| 0 <= k < r1 && procd0[k] == i;
                        assert(procd[k] == i);
                    }
                }
                assert forall|j: int| old_len <= j < self.bindings@.len()
                    implies exists|k: int| 0 <= k < r1 + 1 && (#[trigger] chosen@[k]) as int == j
                        && (#[trigger] self.bindings@[j]).min_size == blobs@[procd[k]].data@.len()
                        && self.bindings@[j].stages == blobs@[procd[k]].stages by {
                    if j < pool0.len() {
                        let k = choose|k: int| 0 <= k < r1 && (#[trigger] chosen0[k]) as int == j
                            && (#[trigger] pool0[j]).min_size == blobs@[procd0[k]].data@.len()
                            && pool0[j].stages == blobs@[procd0[k]].stages;
                        assert(chosen@[k] as int == j);
                        assert(self.bindings@[j] == pool0[j]);
                        assert(procd[k] == procd0[k]);
                    } else {
                        assert(chosen@[r1] as int == j);
                        assert(procd[r1] == best as int);
                        assert(self.bindings@[j].min_size == blobs@[best as int].data@.len());
                    }
                }
            }
            proof {
                let r1 = round as int;
                assert forall|k: int, j: int| 0 <= k < r1 + 1 && 0 <= j < self.bindings@.len()
                    && (j < (#[trigger] chosen@[k]) as int || (chosen@[k] as int) >= old_len)
                    && (#[trigger] self.bindings@[j]).min_size >= blobs@[procd[k]].data@.len()
                    implies exists|k2: int| 0 <= k2 < r1 + 1
                        && ((#[trigger] chosen@[k2]) as int) == j by {
                    if k < r1 {
                        if j < pool_before.len() {
                            assert(chosen@[k] == chosen0[k]);
                            assert(self.bindings@[j] == pool_before[j]);
                            let k2 = choose|k2: int| 0 <= k2 < r1
                                && ((#[trigger] chosen0[k2]) as int) == j;
                            assert(chosen@[k2] as int == j);
                        } else {
                            assert(j == slot as int);
                            assert(chosen@[r1] as int == j);
                        }
                    } else {
                        if (chosen@[r1] as int) >= old_len && (slot as int) < pool_before.len() {
                            // a binding born in this call is claimed at
                            // birth, so the scan could not have returned it
                            let k2 = choose|k2: int| 0 <= k2 < r1
                                && ((#[trigger] chosen0[k2]) as int) == slot as int
                                && pool_before[slot as int].min_size
                                    == blobs@[procd0[k2]].data@.len()
                                && pool_before[slot as int].stages == blobs@[procd0[k2]].stages;
                            assert(chosen0[k2] == slot);
                            assert(chosen0.contains(slot));
                            assert(false);
                        }
                        if j == slot as int {
                            assert(chosen@[r1] as int == j);
                        } else {
                            assert(j < pool_before.len());
                            assert(self.bindings@[j] == pool_before[j]);
                            assert(chosen0.contains(j as usize));
                            let k2 = choose|k2: int| 0 <= k2 < chosen0.len()
                                && chosen0[k2] == j as usize;
                            assert(chosen@[k2] as int == j);
                        }
                    }
                }
            }
            round = round + 1;
        }
        proof {
            assert forall|i: int| 0 <= i < n implies #[trigger] used@[i] by {
                assert(count_true(used@) == n);
                if !used@[i] {
                    lemma_count_true_set(used@, i);
                    lemma_count_true_bounds(used@.update(i, true));
                }
            }
            assert forall|i1: int, i2: int| 0 <= i1 < i2 < n
                implies result@[i1] != result@[i2] by {
                assert(used@[i1]);
                assert(used@[i2]);
                let k1 = choose|k: int| 0 <= k < round && (#[trigger] procd[k]) == i1;
                let k2 = choose|k: int| 0 <= k < round && (#[trigger] procd[k]) == i2;
                assert(result@[i1] == chosen@[k1]);
                assert(result@[i2] == chosen@[k2]);
            }
            assert forall|i: int| 0 <= i < n
                implies (#[trigger] result@[i]) < self.bindings@.len()
                    && self.bindings@[result@[i] as int].min_size >= blobs@[i].data@.len() by {
                assert(used@[i]);
                let k = choose|k: int| 0 <= k < round && (#[trigger] procd[k]) == i;
                assert(result@[i] == chosen@[k]);
            }
            assert forall|i: int, j: int| 0 <= i < n && 0 <= j < self.bindings@.len()
                && (j < (#[trigger] result@[i]) as int || (result@[i] as int) >= old_len)
                && (#[trigger] self.bindings@[j]).min_size >= blobs@[i].data@.len()
                implies exists|i2: int| 0 <= i2 < n
                    && ((#[trigger] result@[i2]) as int) == j by {
                assert(used@[i]);
                let k = choose|k: int| 0 <= k < round && (#[trigger] procd[k]) == i;
                assert(result@[i] == chosen@[k]);
                let k2 = choose|k2: int| 0 <= k2 < round
                    && ((#[trigger] chosen@[k2]) as int) == j;
                assert(result@[procd[k2]] == chosen@[k2]);
                assert(0 <= procd[k2] < n);
            }
        }
        result
    }
}

/// Law: within one `assign` call no two payloads share a binding, every
/// payload's binding fits it, and bindings that existed before the call are
/// left exactly as they were.
pub proof fn lemma_assign_injective(r: Seq<usize>, i1: int, i2: int)
    requires
        forall|k1: int, k2: int| 0 <= k1 < k2 < r.len() ==> r[k1] != r[k2],
        0 <= i1 < r.len(),
        0 <= i2 < r.len(),
        i1 != i2,
    ensures
        r[i1] != r[i2],
{
    if i1 < i2 {
        assert(r[i1] != r[i2]);
    } else {
        assert(r[i2] != r[i1]);
    }
}

} // verus!
