//! Groups draw requests by structural signature and fuses each group's
//! meshes into one mesh per batch, deduplicating uniform payloads into a
//! frame-local table along the way.

use vstd::prelude::*;

use crate::mesh::{lemma_merge_counts, LayoutInfo, LayoutView, Mesh};
use crate::pipeline::ShaderKey;
use crate::sums::{
    int_sum, lemma_int_sum_elem_bound, lemma_int_sum_push, lemma_int_sum_take_bound,
    lemma_int_sum_update,
};
use crate::uniform::{blob_eq, blobs_equal, UniformBlob};

verus! {

/// The structural signature under which draw requests are grouped: requests
/// agreeing on all four components render as one merged draw call.
#[derive(Clone, Debug)]
pub struct BatchKey {
    pub vertex_layout: LayoutInfo,
    pub shader: ShaderKey,
    pub textures: Vec<usize>,
    pub uniform_ids: Vec<usize>,
}

/// Mathematical model of a [`BatchKey`].
#[verifier::ext_equal]
pub ghost struct BatchKeyView {
    pub vertex_layout: LayoutView,
    pub shader: ShaderKey,
    pub textures: Seq<usize>,
    pub uniform_ids: Seq<usize>,
}

impl View for BatchKey {
    type V = BatchKeyView;

    open spec fn view(&self) -> BatchKeyView {
        BatchKeyView {
            vertex_layout: self.vertex_layout@,
            shader: self.shader,
            textures: self.textures@,
            uniform_ids: self.uniform_ids@,
        }
    }
}

/// Structural equality of two batch keys.
pub fn key_eq(a: &BatchKey, b: &BatchKey) -> (r: bool)
    ensures
        r == (a@ =~~= b@),
{
    let r = a.vertex_layout.matches(&b.vertex_layout) && a.shader.id == b.shader.id
        && a.textures == b.textures && a.uniform_ids == b.uniform_ids;
    proof {
        if r {
            assert(a.textures@ =~= b.textures@);
            assert(a.uniform_ids@ =~= b.uniform_ids@);
        }
    }
    r
}

/// One abstract draw request: geometry, shader identity, textures in bind
/// order, and uniform payloads in bind order. Produced per widget per frame
/// and consumed by the batcher.
#[derive(Clone, Debug)]
pub struct DrawRequest {
    pub mesh: Mesh,
    pub shader: ShaderKey,
    pub textures: Vec<usize>,
    pub uniforms: Vec<UniformBlob>,
}

impl DrawRequest {
    /// A request drawing `mesh` with `shader`, with no textures or uniforms
    /// bound yet.
    pub fn new(mesh: Mesh, shader: ShaderKey) -> (r: DrawRequest)
        ensures
            r.mesh == mesh,
            r.shader == shader,
            r.textures@.len() == 0,
            r.uniforms@.len() == 0,
    {
        DrawRequest { mesh, shader, textures: Vec::new(), uniforms: Vec::new() }
    }

    /// Binds one more texture after those already bound.
    pub fn add_texture(&mut self, texture: usize)
        ensures
            final(self).mesh == old(self).mesh,
            final(self).shader == old(self).shader,
            final(self).textures@ == old(self).textures@.push(texture),
            final(self).uniforms@ == old(self).uniforms@,
    {
        self.textures.push(texture);
    }

    /// Binds one more uniform payload after those already bound.
    pub fn add_uniform(&mut self, uniform: UniformBlob)
        ensures
            final(self).mesh == old(self).mesh,
            final(self).shader == old(self).shader,
            final(self).textures@ == old(self).textures@,
            final(self).uniforms@ == old(self).uniforms@.push(uniform),
    {
        self.uniforms.push(uniform);
    }
}

/// One output batch: the shared signature and the merged mesh.
#[derive(Clone, Debug)]
pub struct Batch {
    pub key: BatchKey,
    pub mesh: Mesh,
}

/// No two batches share a structural signature.
pub open spec fn batches_key_distinct(bs: Seq<Batch>) -> bool {
    forall|g1: int, g2: int| 0 <= g1 < g2 < bs.len()
        ==> !((#[trigger] bs[g1]).key@ =~~= (#[trigger] bs[g2]).key@)
}

/// No two entries of a frame's distinct-uniform table are interchangeable.
pub open spec fn table_distinct(t: Seq<UniformBlob>) -> bool {
    forall|i: int, j: int| 0 <= i < j < t.len() ==> !blobs_equal(t[i], t[j])
}

/// Law: within one table of pairwise distinct payloads, two interchangeable
/// entries are one entry — so two byte-identical uniform payloads are mapped
/// to the same uniform id within one batching pass, whatever order their
/// requests were submitted in.
pub proof fn lemma_equal_blobs_same_id(t: Seq<UniformBlob>, a: int, b: int)
    requires
        table_distinct(t),
        0 <= a < t.len(),
        0 <= b < t.len(),
        blobs_equal(t[a], t[b]),
    ensures
        a == b,
{
    if a < b {
        assert(!blobs_equal(t[a], t[b]));
    } else if b < a {
        assert(!blobs_equal(t[b], t[a]));
    }
}

/// Whether some payload in `us` is interchangeable with `t`.
pub open spec fn blob_in(t: UniformBlob, us: Seq<UniformBlob>) -> bool {
    exists|i: int| 0 <= i < us.len() && blobs_equal(t, #[trigger] us[i])
}

/// A payload with the same bytes and visibility as the given one.
fn clone_blob(b: &UniformBlob) -> (r: UniformBlob)
    ensures
        blobs_equal(r, *b),
{
    let mut data: Vec<u8> = Vec::new();
    let mut i: usize = 0;
    while i < b.data.len()
        invariant
            i <= b.data@.len(),
            data@ =~= b.data@.take(i as int),
        decreases b.data@.len() - i,
    {
        data.push(b.data[i]);
        i = i + 1;
    }
    proof {
        assert(data@ =~= b.data@);
    }
    UniformBlob { data, stages: b.stages }
}

/// First table entry interchangeable with `blob`, if any.
fn find_blob(table: &Vec<UniformBlob>, blob: &UniformBlob) -> (r: Option<usize>)
    ensures
        match r {
            Some(j) => (j as int) < table@.len() && blobs_equal(table@[j as int], *blob),
            None => forall|k: int| 0 <= k < table@.len()
                ==> !blobs_equal(#[trigger] table@[k], *blob),
        },
{
    let mut j: usize = 0;
    while j < table.len()
        invariant
            j <= table@.len(),
            forall|k: int| 0 <= k < j ==> !blobs_equal(#[trigger] table@[k], *blob),
        decreases table@.len() - j,
    {
        if blob_eq(&table[j], blob) {
            return Some(j);
        }
        j = j + 1;
    }
    None
}

/// Maps each payload to its id in the frame's distinct-uniform table: the id
/// of the interchangeable entry if the table has one (first occurrence wins),
/// else the id of a new entry appended for it. Existing entries and their
/// ids never change.
#[verifier::loop_isolation(false)]
pub fn dedup_uniforms(table: &mut Vec<UniformBlob>, uniforms: &Vec<UniformBlob>) -> (r: Vec<usize>)
    requires
        table_distinct(old(table)@),
        old(table)@.len() + uniforms@.len() <= usize::MAX,
    ensures
        r@.len() == uniforms@.len(),
        table_distinct(final(table)@),
        old(table)@.len() <= final(table)@.len() <= old(table)@.len() + uniforms@.len(),
        forall|j: int| 0 <= j < old(table)@.len()
            ==> #[trigger] final(table)@[j] == old(table)@[j],
        forall|i: int| 0 <= i < r@.len() ==> ((#[trigger] r@[i]) as int) < final(table)@.len(),
        forall|i: int| 0 <= i < r@.len()
            ==> blobs_equal(#[trigger] final(table)@[r@[i] as int], uniforms@[i]),
        forall|j: int| old(table)@.len() <= j < final(table)@.len()
            ==> blob_in(#[trigger] final(table)@[j], uniforms@),
{
    let mut r: Vec<usize> = Vec::new();
    let mut i: usize = 0;
    while i < uniforms.len()
        invariant
            i <= uniforms@.len(),
            r@.len() == i,
            table_distinct(table@),
            old(table)@.len() <= table@.len() <= old(table)@.len() + i,
            forall|j: int| 0 <= j < old(table)@.len()
                ==> #[trigger] table@[j] == old(table)@[j],
            forall|k: int| 0 <= k < i ==> ((#[trigger] r@[k]) as int) < table@.len(),
            forall|k: int| 0 <= k < i
                ==> blobs_equal(#[trigger] table@[r@[k] as int], uniforms@[k]),
            forall|j: int| old(table)@.len() <= j < table@.len()
                ==> blob_in(#[trigger] table@[j], uniforms@),
        decreases uniforms@.len() - i,
    {
        let ghost table0 = table@;
        let id: usize;
        match find_blob(table, &uniforms[i]) {
            Some(j) => {
                id = j;
            }
            None => {
                table.push(clone_blob(&uniforms[i]));
                id = table.len() - 1;
                assert forall|k1: int, k2: int| 0 <= k1 < k2 < table@.len()
                    implies !blobs_equal(table@[k1], table@[k2]) by {
                    if k2 == table@.len() - 1 {
                        assert(!blobs_equal(table0[k1], uniforms@[i as int]));
                    }
                }
                assert(blobs_equal(table@[table@.len() - 1], uniforms@[i as int]));
                assert(blob_in(table@[table@.len() - 1], uniforms@));
            }
        }
        r.push(id);
        proof {
            assert forall|j: int| old(table)@.len() <= j < table@.len()
                implies blob_in(#[trigger] table@[j], uniforms@) by {
                if j < table0.len() {
                    assert(table@[j] == table0[j]);
                    assert(blob_in(table0[j], uniforms@));
                }
            }
        }
        i = i + 1;
    }
    r
}

/// The vertex counts of the meshes of a request sequence, empty meshes
/// counting zero since the batcher drops them.
pub open spec fn request_vertex_counts(rs: Seq<DrawRequest>) -> Seq<int> {
    rs.map_values(|r: DrawRequest| if r.mesh@.is_empty() {
        0int
    } else {
        r.mesh@.vertex_count()
    })
}

/// The index-list lengths of the meshes of a request sequence, each plus the
/// two stitching indices a merge may add; empty meshes count zero.
pub open spec fn request_index_budget(rs: Seq<DrawRequest>) -> Seq<int> {
    rs.map_values(|r: DrawRequest| if r.mesh@.is_empty() {
        0int
    } else {
        r.mesh@.indices.len() as int + 2
    })
}

/// The vertex-byte lengths of the meshes of a request sequence; empty meshes
/// count zero.
pub open spec fn request_vertex_bytes(rs: Seq<DrawRequest>) -> Seq<int> {
    rs.map_values(|r: DrawRequest| if r.mesh@.is_empty() {
        0int
    } else {
        r.mesh@.vertices.len() as int
    })
}

/// The uniform-payload counts of a request sequence.
pub open spec fn request_uniform_counts(rs: Seq<DrawRequest>) -> Seq<int> {
    rs.map_values(|r: DrawRequest| r.uniforms@.len() as int)
}

/// The vertex counts of the merged meshes of a batch sequence.
pub open spec fn batch_vertex_counts(bs: Seq<Batch>) -> Seq<int> {
    bs.map_values(|b: Batch| b.mesh@.vertex_count())
}

/// The index-list lengths of the merged meshes of a batch sequence.
pub open spec fn batch_index_lens(bs: Seq<Batch>) -> Seq<int> {
    bs.map_values(|b: Batch| b.mesh@.indices.len() as int)
}

/// The vertex-byte lengths of the merged meshes of a batch sequence.
pub open spec fn batch_vertex_bytes(bs: Seq<Batch>) -> Seq<int> {
    bs.map_values(|b: Batch| b.mesh@.vertices.len() as int)
}

/// The batch's key carries this request's signature: its shader, its
/// texture list and its mesh's vertex layout.
pub open spec fn key_matches_request(b: Batch, req: DrawRequest) -> bool {
    &&& b.key.shader == req.shader
    &&& b.key.textures@ == req.textures@
    &&& b.key@.vertex_layout == req.mesh@.layout
}

/// The batch was opened by this request: the key carries the request's
/// signature, the request's vertex bytes lead the merged mesh, and the key's
/// uniform-id list resolves, entry by entry, to the request's payloads
/// through the frame's table.
pub open spec fn group_from_request(b: Batch, req: DrawRequest, table: Seq<UniformBlob>) -> bool {
    &&& !req.mesh@.is_empty()
    &&& key_matches_request(b, req)
    &&& req.mesh@.vertices.is_prefix_of(b.mesh@.vertices)
    &&& req.uniforms@.len() == b.key.uniform_ids@.len()
    &&& forall|v: int| 0 <= v < b.key.uniform_ids@.len()
        ==> blobs_equal(table[(#[trigger] b.key.uniform_ids@[v]) as int], req.uniforms@[v])
}

/// Some request of the frame opened this batch.
pub open spec fn some_request_opened(b: Batch, reqs: Seq<DrawRequest>, table: Seq<UniformBlob>) -> bool {
    exists|i: int| 0 <= i < reqs.len() && #[trigger] group_from_request(b, reqs[i], table)
}

/// Some batch of the frame carries this request's signature.
pub open spec fn has_batch_for(bs: Seq<Batch>, req: DrawRequest) -> bool {
    exists|g: int| 0 <= g < bs.len() && key_matches_request(#[trigger] bs[g], req)
}

/// A batch's link to its first request survives the table growing (existing
/// entries never change) and the batch's mesh growing by a merge (the
/// request's bytes stay its prefix), as long as the key is untouched.
proof fn lemma_group_link_stable(
    b0: Batch, b1: Batch, req: DrawRequest,
    t0: Seq<UniformBlob>, t1: Seq<UniformBlob>,
)
    requires
        group_from_request(b0, req, t0),
        b1.key == b0.key,
        b0.mesh@.vertices.is_prefix_of(b1.mesh@.vertices),
        t0.len() <= t1.len(),
        forall|j: int| 0 <= j < t0.len() ==> #[trigger] t1[j] == t0[j],
        forall|v: int| 0 <= v < b0.key.uniform_ids@.len()
            ==> ((#[trigger] b0.key.uniform_ids@[v]) as int) < t0.len(),
    ensures
        group_from_request(b1, req, t1),
{
    let rv = req.mesh@.vertices;
    assert(rv =~= b1.mesh@.vertices.subrange(0, rv.len() as int)) by {
        assert(rv =~= b0.mesh@.vertices.subrange(0, rv.len() as int));
        assert(b0.mesh@.vertices =~= b1.mesh@.vertices.subrange(0, b0.mesh@.vertices.len() as int));
        assert forall|k: int| 0 <= k < rv.len()
            implies rv[k] == b1.mesh@.vertices[k] by {
            assert(rv[k] == b0.mesh@.vertices[k]);
        }
    }
    assert forall|v: int| 0 <= v < b1.key.uniform_ids@.len()
        implies blobs_equal(t1[(#[trigger] b1.key.uniform_ids@[v]) as int], req.uniforms@[v]) by {
        assert(t1[b0.key.uniform_ids@[v] as int] == t0[b0.key.uniform_ids@[v] as int]);
    }
}

/// First group whose key equals `key`, if any.
fn find_group(groups: &Vec<Batch>, key: &BatchKey) -> (r: Option<usize>)
    ensures
        match r {
            Some(g) => (g as int) < groups@.len() && (groups@[g as int].key@ =~~= key@),
            None => forall|g: int| 0 <= g < groups@.len()
                ==> !((#[trigger] groups@[g]).key@ =~~= key@),
        },
{
    let mut g: usize = 0;
    while g < groups.len()
        invariant
            g <= groups@.len(),
            forall|h: int| 0 <= h < g ==> !((#[trigger] groups@[h]).key@ =~~= key@),
        decreases groups@.len() - g,
    {
        if key_eq(&groups[g].key, key) {
            return Some(g);
        }
        g = g + 1;
    }
    None
}

/// Groups draw requests sharing a signature and merges each group's meshes
/// into one mesh per group.
pub struct MeshBatcher;

impl MeshBatcher {
    /// Batches a frame's requests. Uniform payloads are deduplicated into a
    /// frame-local table (byte equality; the first occurrence wins an id) and
    /// each request's id list joins its batch key; requests with an empty
    /// mesh (no vertices or no indices) are dropped; the rest are grouped by
    /// key, keys in first-encounter order, and each group's meshes are merged
    /// pairwise in encounter order. Returns the batches and the table.
    #[verifier::loop_isolation(false)]
    #[verifier::rlimit(60)]
    pub fn batch(requests: Vec<DrawRequest>) -> (r: (Vec<Batch>, Vec<UniformBlob>))
        requires
            forall|i: int| 0 <= i < requests@.len() ==> (#[trigger] requests@[i]).mesh@.wf(),
            int_sum(request_vertex_counts(requests@)) <= 0x10000,
            int_sum(request_index_budget(requests@)) <= usize::MAX,
            int_sum(request_vertex_bytes(requests@)) <= usize::MAX,
            int_sum(request_uniform_counts(requests@)) <= usize::MAX,
        ensures
            // no two batches share a key
            batches_key_distinct(r.0@),
            // every batch was opened by some request of the frame: its key
            // carries that request's signature, the request's vertex bytes
            // lead the merged mesh, and the key's ids resolve to the
            // request's payloads through the returned table
            forall|g: int| 0 <= g < r.0@.len()
                ==> some_request_opened(#[trigger] r.0@[g], requests@, r.1@),
            // conversely, every non-empty request's signature has its batch
            forall|i: int| 0 <= i < requests@.len() && !(#[trigger] requests@[i]).mesh@.is_empty()
                ==> has_batch_for(r.0@, requests@[i]),
            // each merged mesh is well-formed, non-empty, and laid out as its
            // key says
            forall|g: int| 0 <= g < r.0@.len() ==> (#[trigger] r.0@[g]).mesh@.wf(),
            forall|g: int| 0 <= g < r.0@.len() ==> !(#[trigger] r.0@[g]).mesh@.is_empty(),
            forall|g: int| 0 <= g < r.0@.len()
                ==> (#[trigger] r.0@[g]).mesh@.layout == r.0@[g].key@.vertex_layout,
            // nothing is lost or invented: the batches hold exactly the
            // vertices and vertex bytes of the non-empty requests, and
            // exactly their indices plus two stitches per merge (each group
            // merges one fewer time than it has members)
            int_sum(batch_vertex_counts(r.0@)) == int_sum(request_vertex_counts(requests@)),
            int_sum(batch_vertex_bytes(r.0@)) == int_sum(request_vertex_bytes(requests@)),
            int_sum(batch_index_lens(r.0@))
                == int_sum(request_index_budget(requests@)) - 2 * r.0@.len(),
            // at most one batch per request, and a table entry only per
            // distinct payload
            r.0@.len() <= requests@.len(),
            r.1@.len() <= int_sum(request_uniform_counts(requests@)),
            // the frame table holds pairwise distinct payloads, each taken
            // from a non-empty request, and every key id addresses it
            table_distinct(r.1@),
            forall|j: int| 0 <= j < r.1@.len()
                ==> exists|i: int| 0 <= i < requests@.len()
                    && !(#[trigger] requests@[i]).mesh@.is_empty()
                    && blob_in(#[trigger] r.1@[j], requests@[i].uniforms@),
            forall|g: int, k: int| 0 <= g < r.0@.len()
                && 0 <= k < (#[trigger] r.0@[g]).key.uniform_ids@.len()
                ==> ((#[trigger] r.0@[g].key.uniform_ids@[k]) as int) < r.1@.len(),
    {
        let ghost all = requests@;
        let n = requests.len();
        let mut requests = requests;
        let mut table: Vec<UniformBlob> = Vec::new();
        let mut groups: Vec<Batch> = Vec::new();
        let mut i: usize = 0;
        while i < n
            invariant
                n == all.len(),
                forall|k: int| 0 <= k < all.len() ==> (#[trigger] all[k]).mesh@.wf(),
                int_sum(request_vertex_counts(all)) <= 0x10000,
                int_sum(request_index_budget(all)) <= usize::MAX,
                int_sum(request_vertex_bytes(all)) <= usize::MAX,
                int_sum(request_uniform_counts(all)) <= usize::MAX,
                requests@ =~= all.skip(i as int),
                i <= n,
                table_distinct(table@),
                table@.len() <= int_sum(request_uniform_counts(all.take(i as int))),
                groups@.len() <= i,
                batches_key_distinct(groups@),
                forall|g: int| 0 <= g < groups@.len() ==> (#[trigger] groups@[g]).mesh@.wf(),
                forall|g: int| 0 <= g < groups@.len()
                    ==> !(#[trigger] groups@[g]).mesh@.is_empty(),
                forall|g: int| 0 <= g < groups@.len()
                    ==> (#[trigger] groups@[g]).mesh@.layout == groups@[g].key@.vertex_layout,
                forall|g: int, k: int| 0 <= g < groups@.len()
                    && 0 <= k < (#[trigger] groups@[g]).key.uniform_ids@.len()
                    ==> ((#[trigger] groups@[g].key.uniform_ids@[k]) as int) < table@.len(),
                forall|g: int| 0 <= g < groups@.len()
                    ==> some_request_opened(#[trigger] groups@[g], all, table@),
                forall|i2: int| 0 <= i2 < i && !(#[trigger] all[i2]).mesh@.is_empty()
                    ==> has_batch_for(groups@, all[i2]),
                forall|j: int| 0 <= j < table@.len()
                    ==> exists|i2: int| 0 <= i2 < all.len()
                        && !(#[trigger] all[i2]).mesh@.is_empty()
                        && blob_in(#[trigger] table@[j], all[i2].uniforms@),
                int_sum(batch_vertex_counts(groups@))
                    == int_sum(request_vertex_counts(all.take(i as int))),
                int_sum(batch_index_lens(groups@))
                    == int_sum(request_index_budget(all.take(i as int))) - 2 * groups@.len(),
                int_sum(batch_vertex_bytes(groups@))
                    == int_sum(request_vertex_bytes(all.take(i as int))),
            decreases n - i,
        {
            proof {
                lemma_request_sums_step(all, i as int);
                lemma_batch_seq_facts(groups@);
                lemma_request_seq_facts(all);
                lemma_int_sum_take_bound(request_vertex_counts(all), i as int + 1);
                lemma_int_sum_take_bound(request_index_budget(all), i as int + 1);
                lemma_int_sum_take_bound(request_vertex_bytes(all), i as int + 1);
                lemma_int_sum_take_bound(request_uniform_counts(all), i as int + 1);
                assert(request_vertex_counts(all.take(i as int + 1))
                    =~= request_vertex_counts(all).take(i as int + 1));
                assert(request_index_budget(all.take(i as int + 1))
                    =~= request_index_budget(all).take(i as int + 1));
                assert(request_vertex_bytes(all.take(i as int + 1))
                    =~= request_vertex_bytes(all).take(i as int + 1));
                assert(request_uniform_counts(all.take(i as int + 1))
                    =~= request_uniform_counts(all).take(i as int + 1));
            }
            assert(requests@[0] == all[i as int]);
            let request = requests.remove(0);
            proof {
                assert(requests@ =~= all.skip(i as int + 1));
            }
            let ghost gs0 = groups@;
            if request.mesh.vertices.len() == 0 || request.mesh.indices.len() == 0 {
                proof {
                    assert(all[i as int].mesh@.is_empty());
                    assert(request_vertex_counts(all)[i as int] == 0);
                    assert(request_index_budget(all)[i as int] == 0);
                    assert(request_vertex_bytes(all)[i as int] == 0);
                }
                i = i + 1;
                continue;
            }
            let DrawRequest { mesh, shader, textures, uniforms } = request;
            proof {
                assert(request_uniform_counts(all)[i as int] == uniforms@.len() as int);
                assert(table@.len() + uniforms@.len()
                    <= int_sum(request_uniform_counts(all.take(i as int + 1))));
            }
            let ghost table_pre = table@;
            let ids = dedup_uniforms(&mut table, &uniforms);
            proof {
                // the table only grew and old entries are unchanged, so every
                // group's linkage into it carries over, and the new entries
                // come from this (non-empty) request
                assert forall|g: int| 0 <= g < groups@.len()
                    implies some_request_opened(#[trigger] groups@[g], all, table@) by {
                    let w = choose|w: int| 0 <= w < all.len()
                        && #[trigger] group_from_request(groups@[g], all[w], table_pre);
                    assert(groups@[g].mesh@.vertices
                        =~= groups@[g].mesh@.vertices.subrange(
                            0, groups@[g].mesh@.vertices.len() as int));
                    lemma_group_link_stable(
                        groups@[g], groups@[g], all[w], table_pre, table@);
                }
                assert forall|j: int| 0 <= j < table@.len()
                    implies exists|i2: int| 0 <= i2 < all.len()
                        && !(#[trigger] all[i2]).mesh@.is_empty()
                        && blob_in(#[trigger] table@[j], all[i2].uniforms@) by {
                    if j < table_pre.len() {
                        assert(table@[j] == table_pre[j]);
                        let i2 = choose|i2: int| 0 <= i2 < all.len()
                            && !(#[trigger] all[i2]).mesh@.is_empty()
                            && blob_in(table_pre[j], all[i2].uniforms@);
                        assert(blob_in(table@[j], all[i2].uniforms@));
                    } else {
                        assert(blob_in(table@[j], uniforms@));
                        assert(uniforms@ == all[i as int].uniforms@);
                        assert(!all[i as int].mesh@.is_empty());
                    }
                }
            }
            let key = BatchKey {
                vertex_layout: mesh.layout.clone_info(),
                shader,
                textures,
                uniform_ids: ids,
            };
            proof {
                assert(request_vertex_counts(all)[i as int] == mesh@.vertex_count());
                assert(request_index_budget(all)[i as int] == mesh@.indices.len() as int + 2);
                assert(request_vertex_bytes(all)[i as int] == mesh@.vertices.len() as int);
            }
            match find_group(&groups, &key) {
                Some(gi) => {
                    let mut grp = groups.remove(gi);
                    proof {
                        assert(grp == gs0[gi as int]);
                        lemma_int_sum_elem_bound(batch_vertex_counts(gs0), gi as int);
                        lemma_int_sum_elem_bound(batch_index_lens(gs0), gi as int);
                        lemma_int_sum_elem_bound(batch_vertex_bytes(gs0), gi as int);
                        assert(grp.mesh@.layout == mesh@.layout);
                        assert(batch_vertex_counts(gs0)[gi as int] == grp.mesh@.vertex_count());
                        assert(grp.mesh@.vertex_count() + mesh@.vertex_count()
                            <= int_sum(request_vertex_counts(all.take(i as int + 1))));
                        assert(batch_index_lens(gs0)[gi as int] == grp.mesh@.indices.len() as int);
                        assert(grp.mesh@.indices.len() + 2 + mesh@.indices.len()
                            <= int_sum(request_index_budget(all.take(i as int + 1))));
                        assert(batch_vertex_bytes(gs0)[gi as int] == grp.mesh@.vertices.len() as int);
                        assert(grp.mesh@.vertices.len() + mesh@.vertices.len()
                            <= int_sum(request_vertex_bytes(all.take(i as int + 1))));
                        lemma_merge_counts(grp.mesh@, mesh@);
                    }
                    let ghost merged_view = grp.mesh@.merged(mesh@);
                    grp.mesh.merge(mesh);
                    groups.insert(gi, grp);
                    proof {
                        assert(groups@ =~= gs0.update(gi as int, groups@[gi as int]));
                        lemma_int_sum_update(
                            batch_vertex_counts(gs0),
                            gi as int,
                            merged_view.vertex_count(),
                        );
                        assert(batch_vertex_counts(groups@)
                            =~= batch_vertex_counts(gs0).update(gi as int, merged_view.vertex_count()));
                        lemma_int_sum_update(
                            batch_index_lens(gs0),
                            gi as int,
                            merged_view.indices.len() as int,
                        );
                        assert(batch_index_lens(groups@)
                            =~= batch_index_lens(gs0).update(gi as int, merged_view.indices.len() as int));
                        lemma_int_sum_update(
                            batch_vertex_bytes(gs0),
                            gi as int,
                            merged_view.vertices.len() as int,
                        );
                        assert(batch_vertex_bytes(groups@)
                            =~= batch_vertex_bytes(gs0).update(gi as int, merged_view.vertices.len() as int));
                        // keys are untouched by the merge
                        assert(forall|g: int| 0 <= g < groups@.len()
                            ==> (#[trigger] groups@[g]).key == gs0[g].key);
                        // this request's signature is the joined group's key
                        assert(key_matches_request(groups@[gi as int], all[i as int]));
                        assert forall|i2: int| 0 <= i2 < i + 1
                            && !(#[trigger] all[i2]).mesh@.is_empty()
                            implies has_batch_for(groups@, all[i2]) by {
                            if i2 < i {
                                let g = choose|g: int| 0 <= g < gs0.len()
                                    && key_matches_request(#[trigger] gs0[g], all[i2]);
                                assert(groups@[g].key == gs0[g].key);
                                assert(key_matches_request(groups@[g], all[i2]));
                            }
                        }
                        // the group's forward witness persists: its key is
                        // unchanged and its first request's bytes stay a
                        // prefix of the grown mesh
                        assert forall|g: int| 0 <= g < groups@.len()
                            implies some_request_opened(#[trigger] groups@[g], all, table@) by {
                            let w = choose|w: int| 0 <= w < all.len()
                                && #[trigger] group_from_request(gs0[g], all[w], table@);
                            if g == gi as int {
                                assert(groups@[g].mesh@.vertices
                                    =~= gs0[g].mesh@.vertices + mesh@.vertices);
                                assert(gs0[g].mesh@.vertices
                                    =~= groups@[g].mesh@.vertices.subrange(
                                        0, gs0[g].mesh@.vertices.len() as int));
                                lemma_group_link_stable(
                                    gs0[g], groups@[g], all[w], table@, table@);
                            } else {
                                assert(groups@[g] == gs0[g]);
                            }
                        }
                    }
                }
                None => {
                    groups.push(Batch { key, mesh });
                    proof {
                        assert(!all[i as int].mesh@.is_empty());
                        assert(all[i as int].shader == groups@.last().key.shader);
                        assert(all[i as int].textures@ == groups@.last().key.textures@);
                        assert(all[i as int].mesh@.layout == groups@.last().key@.vertex_layout);
                        lemma_int_sum_push(
                            batch_vertex_counts(gs0),
                            groups@.last().mesh@.vertex_count(),
                        );
                        assert(batch_vertex_counts(groups@)
                            =~= batch_vertex_counts(gs0).push(groups@.last().mesh@.vertex_count()));
                        lemma_int_sum_push(
                            batch_index_lens(gs0),
                            groups@.last().mesh@.indices.len() as int,
                        );
                        assert(batch_index_lens(groups@)
                            =~= batch_index_lens(gs0).push(groups@.last().mesh@.indices.len() as int));
                        lemma_int_sum_push(
                            batch_vertex_bytes(gs0),
                            groups@.last().mesh@.vertices.len() as int,
                        );
                        assert(batch_vertex_bytes(groups@)
                            =~= batch_vertex_bytes(gs0).push(groups@.last().mesh@.vertices.len() as int));
                        // the new group is keyed and filled by this request
                        let gl = groups@.len() - 1;
                        assert(groups@[gl].mesh@.vertices
                            =~= all[i as int].mesh@.vertices.subrange(
                                0, all[i as int].mesh@.vertices.len() as int));
                        assert(group_from_request(groups@[gl], all[i as int], table@));
                        assert forall|g: int| 0 <= g < groups@.len()
                            implies some_request_opened(#[trigger] groups@[g], all, table@) by {
                            if g < gl {
                                let w = choose|w: int| 0 <= w < all.len()
                                    && #[trigger] group_from_request(gs0[g], all[w], table@);
                                assert(groups@[g] == gs0[g]);
                                assert(group_from_request(groups@[g], all[w], table@));
                            } else {
                                assert(group_from_request(groups@[g], all[i as int], table@));
                            }
                        }
                        assert forall|i2: int| 0 <= i2 < i + 1
                            && !(#[trigger] all[i2]).mesh@.is_empty()
                            implies has_batch_for(groups@, all[i2]) by {
                            if i2 < i {
                                let g = choose|g: int| 0 <= g < gs0.len()
                                    && key_matches_request(#[trigger] gs0[g], all[i2]);
                                assert(groups@[g] == gs0[g]);
                                assert(key_matches_request(groups@[g], all[i2]));
                            } else {
                                assert(key_matches_request(groups@[gl], all[i2]));
                            }
                        }
                    }
                }
            }
            i = i + 1;
        }
        proof {
            assert(all.take(n as int) =~= all);
        }
        (groups, table)
    }
}

/// Extending the processed prefix by one request extends each running total
/// by that request's contribution.
proof fn lemma_request_sums_step(all: Seq<DrawRequest>, i: int)
    requires
        0 <= i < all.len(),
    ensures
        int_sum(request_vertex_counts(all.take(i + 1)))
            == int_sum(request_vertex_counts(all.take(i))) + request_vertex_counts(all)[i],
        int_sum(request_index_budget(all.take(i + 1)))
            == int_sum(request_index_budget(all.take(i))) + request_index_budget(all)[i],
        int_sum(request_vertex_bytes(all.take(i + 1)))
            == int_sum(request_vertex_bytes(all.take(i))) + request_vertex_bytes(all)[i],
        int_sum(request_uniform_counts(all.take(i + 1)))
            == int_sum(request_uniform_counts(all.take(i))) + request_uniform_counts(all)[i],
{
    assert(request_vertex_counts(all.take(i + 1))
        =~= request_vertex_counts(all.take(i)).push(request_vertex_counts(all)[i]));
    lemma_int_sum_push(request_vertex_counts(all.take(i)), request_vertex_counts(all)[i]);
    assert(request_index_budget(all.take(i + 1))
        =~= request_index_budget(all.take(i)).push(request_index_budget(all)[i]));
    lemma_int_sum_push(request_index_budget(all.take(i)), request_index_budget(all)[i]);
    assert(request_vertex_bytes(all.take(i + 1))
        =~= request_vertex_bytes(all.take(i)).push(request_vertex_bytes(all)[i]));
    lemma_int_sum_push(request_vertex_bytes(all.take(i)), request_vertex_bytes(all)[i]);
    assert(request_uniform_counts(all.take(i + 1))
        =~= request_uniform_counts(all.take(i)).push(request_uniform_counts(all)[i]));
    lemma_int_sum_push(request_uniform_counts(all.take(i)), request_uniform_counts(all)[i]);
}

/// The per-request totals of well-formed requests are non-negative.
proof fn lemma_request_seq_facts(rs: Seq<DrawRequest>)
    requires
        forall|i: int| 0 <= i < rs.len() ==> (#[trigger] rs[i]).mesh@.wf(),
    ensures
        forall|i: int| 0 <= i < rs.len() ==> #[trigger] request_vertex_counts(rs)[i] >= 0,
        forall|i: int| 0 <= i < rs.len() ==> #[trigger] request_index_budget(rs)[i] >= 0,
        forall|i: int| 0 <= i < rs.len() ==> #[trigger] request_vertex_bytes(rs)[i] >= 0,
        forall|i: int| 0 <= i < rs.len() ==> #[trigger] request_uniform_counts(rs)[i] >= 0,
{
    assert forall|i: int| 0 <= i < rs.len()
        implies #[trigger] request_vertex_counts(rs)[i] >= 0 by {
        vstd::arithmetic::div_mod::lemma_div_pos_is_pos(
            rs[i].mesh@.vertices.len() as int,
            rs[i].mesh@.layout.array_stride as int,
        );
    }
}

/// The per-batch totals of well-formed batches are non-negative.
proof fn lemma_batch_seq_facts(bs: Seq<Batch>)
    requires
        forall|g: int| 0 <= g < bs.len() ==> (#[trigger] bs[g]).mesh@.wf(),
    ensures
        forall|g: int| 0 <= g < bs.len() ==> #[trigger] batch_vertex_counts(bs)[g] >= 0,
        forall|g: int| 0 <= g < bs.len() ==> #[trigger] batch_index_lens(bs)[g] >= 0,
        forall|g: int| 0 <= g < bs.len() ==> #[trigger] batch_vertex_bytes(bs)[g] >= 0,
{
    assert forall|g: int| 0 <= g < bs.len()
        implies #[trigger] batch_vertex_counts(bs)[g] >= 0 by {
        vstd::arithmetic::div_mod::lemma_div_pos_is_pos(
            bs[g].mesh@.vertices.len() as int,
            bs[g].mesh@.layout.array_stride as int,
        );
    }
}

} // verus!
