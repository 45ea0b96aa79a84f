//! The per-frame driver: groups and merges a frame's draw requests, orders
//! the batches for painter's-algorithm submission, assigns uniform bindings
//! to the frame's distinct payloads, and resolves (or registers) a pipeline
//! for each batch's signature. The result is a plan the backend executes
//! verbatim: write each chosen binding, compile the pipelines marked new,
//! then draw the batches in order.

use vstd::prelude::*;

use crate::batch::{Batch, DrawRequest, MeshBatcher};
use crate::batch::{
    batch_index_lens, batch_vertex_bytes, batch_vertex_counts, batches_key_distinct,
    has_batch_for, key_matches_request, request_index_budget, request_uniform_counts,
    request_vertex_bytes, request_vertex_counts, some_request_opened, table_distinct,
};

use crate::order::{depth_of, is_transparent, lemma_multiset_keys_distinct, lemma_multiset_map_sum, TransparencySorter};
use crate::pipeline::{PipelineCache, RenderPipelineInfo, ShaderRegistry};
use crate::sums::int_sum;
use crate::uniform::{UniformBlob, UniformSlotAllocator};

verus! {

/// The batches of a frame plan, in submission order.
pub open spec fn plan_batches(ps: Seq<BatchPlan>) -> Seq<Batch> {
    ps.map_values(|p: BatchPlan| p.batch)
}

/// One plan entry is sound against the pipeline memo and the frame's binding
/// assignment: the mesh is well-formed and non-empty, the cached pipeline
/// signature carries the batch key's layout, shader and textures and exactly
/// the routed binding list, and each binding is the one assigned to the
/// key's uniform id.
pub open spec fn plan_entry_ok(
    b: BatchPlan,
    infos: Seq<RenderPipelineInfo>,
    binding_of: Seq<usize>,
) -> bool {
    &&& b.batch.mesh@.wf()
    &&& !b.batch.mesh@.is_empty()
    &&& (b.pipeline as int) < infos.len()
    &&& infos[b.pipeline as int].vertex_layout@ =~= b.batch.key.vertex_layout@
    &&& infos[b.pipeline as int].shader == b.batch.key.shader
    &&& infos[b.pipeline as int].textures@ =~= b.batch.key.textures@
    &&& infos[b.pipeline as int].uniform_binding_ids@ =~= b.binding_ids@
    &&& b.binding_ids@.len() == b.batch.key.uniform_ids@.len()
    &&& forall|u: int| 0 <= u < b.binding_ids@.len()
        ==> #[trigger] b.binding_ids@[u] == binding_of[b.batch.key.uniform_ids@[u] as int]
}

/// What the batcher guarantees survives any reordering of its batches: the
/// per-batch facts transfer along the multiset equality, and the per-batch
/// sums are unchanged.
proof fn lemma_order_transfer(
    bview: Seq<Batch>,
    all: Seq<Batch>,
    table: Seq<UniformBlob>,
    reqs: Seq<DrawRequest>,
)
    requires
        bview.to_multiset() == all.to_multiset(),
        batches_key_distinct(bview),
        forall|g: int| 0 <= g < bview.len() ==> (#[trigger] bview[g]).mesh@.wf(),
        forall|g: int| 0 <= g < bview.len() ==> !(#[trigger] bview[g]).mesh@.is_empty(),
        forall|g: int, v: int| 0 <= g < bview.len()
            && 0 <= v < (#[trigger] bview[g]).key.uniform_ids@.len()
            ==> ((#[trigger] bview[g].key.uniform_ids@[v]) as int) < table.len(),
        forall|g: int| 0 <= g < bview.len()
            ==> some_request_opened(#[trigger] bview[g], reqs, table),
        forall|i: int| 0 <= i < reqs.len() && !(#[trigger] reqs[i]).mesh@.is_empty()
            ==> has_batch_for(bview, reqs[i]),
    ensures
        all.len() == bview.len(),
        batches_key_distinct(all),
        forall|k: int| 0 <= k < all.len() ==> (#[trigger] all[k]).mesh@.wf(),
        forall|k: int| 0 <= k < all.len() ==> !(#[trigger] all[k]).mesh@.is_empty(),
        forall|k: int, v: int| 0 <= k < all.len()
            && 0 <= v < (#[trigger] all[k]).key.uniform_ids@.len()
            ==> ((#[trigger] all[k].key.uniform_ids@[v]) as int) < table.len(),
        forall|k: int| 0 <= k < all.len()
            ==> some_request_opened(#[trigger] all[k], reqs, table),
        forall|i: int| 0 <= i < reqs.len() && !(#[trigger] reqs[i]).mesh@.is_empty()
            ==> has_batch_for(all, reqs[i]),
        int_sum(batch_vertex_counts(all)) == int_sum(batch_vertex_counts(bview)),
        int_sum(batch_vertex_bytes(all)) == int_sum(batch_vertex_bytes(bview)),
        int_sum(batch_index_lens(all)) == int_sum(batch_index_lens(bview)),
{
    lemma_order_transfer_batches(bview, all, table, reqs);
    lemma_order_transfer_requests(bview, all, table, reqs);
    lemma_multiset_keys_distinct(bview, all);
    lemma_order_transfer_sums(bview, all);
}

/// The per-batch facts transfer along the multiset equality.
proof fn lemma_order_transfer_batches(
    bview: Seq<Batch>,
    all: Seq<Batch>,
    table: Seq<UniformBlob>,
    reqs: Seq<DrawRequest>,
)
    requires
        bview.to_multiset() == all.to_multiset(),
        forall|g: int| 0 <= g < bview.len() ==> (#[trigger] bview[g]).mesh@.wf(),
        forall|g: int| 0 <= g < bview.len() ==> !(#[trigger] bview[g]).mesh@.is_empty(),
        forall|g: int, v: int| 0 <= g < bview.len()
            && 0 <= v < (#[trigger] bview[g]).key.uniform_ids@.len()
            ==> ((#[trigger] bview[g].key.uniform_ids@[v]) as int) < table.len(),
        forall|g: int| 0 <= g < bview.len()
            ==> some_request_opened(#[trigger] bview[g], reqs, table),
    ensures
        all.len() == bview.len(),
        forall|k: int| 0 <= k < all.len() ==> (#[trigger] all[k]).mesh@.wf(),
        forall|k: int| 0 <= k < all.len() ==> !(#[trigger] all[k]).mesh@.is_empty(),
        forall|k: int, v: int| 0 <= k < all.len()
            && 0 <= v < (#[trigger] all[k]).key.uniform_ids@.len()
            ==> ((#[trigger] all[k].key.uniform_ids@[v]) as int) < table.len(),
        forall|k: int| 0 <= k < all.len()
            ==> some_request_opened(#[trigger] all[k], reqs, table),
{
    broadcast use vstd::seq_lib::group_to_multiset_ensures;

    assert(all.len() == bview.len()) by {
        assert(bview.to_multiset().len() == bview.len());
        assert(all.to_multiset().len() == all.len());
    }
    assert forall|k: int| 0 <= k < all.len() implies {
        &&& (#[trigger] all[k]).mesh@.wf()
        &&& !all[k].mesh@.is_empty()
        &&& forall|v: int| 0 <= v < all[k].key.uniform_ids@.len()
            ==> ((#[trigger] all[k].key.uniform_ids@[v]) as int) < table.len()
    } by {
        assert(all.contains(all[k]));
        assert(all.to_multiset().count(all[k]) > 0);
        assert(bview.to_multiset().count(all[k]) > 0);
        assert(bview.contains(all[k]));
        let g = choose|g: int| 0 <= g < bview.len() && bview[g] == all[k];
        assert(bview[g].mesh@.wf());
    }
    assert forall|k: int| 0 <= k < all.len()
        implies some_request_opened(#[trigger] all[k], reqs, table) by {
        assert(all.contains(all[k]));
        assert(all.to_multiset().count(all[k]) > 0);
        assert(bview.to_multiset().count(all[k]) > 0);
        assert(bview.contains(all[k]));
        let g = choose|g: int| 0 <= g < bview.len() && bview[g] == all[k];
        assert(some_request_opened(bview[g], reqs, table));
    }
}

/// The per-request reverse lookup transfers along the multiset equality.
proof fn lemma_order_transfer_requests(
    bview: Seq<Batch>,
    all: Seq<Batch>,
    table: Seq<UniformBlob>,
    reqs: Seq<DrawRequest>,
)
    requires
        bview.to_multiset() == all.to_multiset(),
        forall|i: int| 0 <= i < reqs.len() && !(#[trigger] reqs[i]).mesh@.is_empty()
            ==> has_batch_for(bview, reqs[i]),
    ensures
        forall|i: int| 0 <= i < reqs.len() && !(#[trigger] reqs[i]).mesh@.is_empty()
            ==> has_batch_for(all, reqs[i]),
{
    broadcast use vstd::seq_lib::group_to_multiset_ensures;

    assert forall|i: int| 0 <= i < reqs.len() && !(#[trigger] reqs[i]).mesh@.is_empty()
        implies has_batch_for(all, reqs[i]) by {
        let g = choose|g: int| 0 <= g < bview.len()
            && key_matches_request(#[trigger] bview[g], reqs[i]);
        assert(bview.contains(bview[g]));
        assert(bview.to_multiset().count(bview[g]) > 0);
        assert(all.to_multiset().count(bview[g]) > 0);
        assert(all.contains(bview[g]));
        let k = choose|k: int| 0 <= k < all.len() && all[k] == bview[g];
        assert(key_matches_request(all[k], reqs[i]));
    }
}

/// The per-batch sums transfer along the multiset equality.
proof fn lemma_order_transfer_sums(bview: Seq<Batch>, all: Seq<Batch>)
    requires
        bview.to_multiset() == all.to_multiset(),
    ensures
        int_sum(batch_vertex_counts(all)) == int_sum(batch_vertex_counts(bview)),
        int_sum(batch_vertex_bytes(all)) == int_sum(batch_vertex_bytes(bview)),
        int_sum(batch_index_lens(all)) == int_sum(batch_index_lens(bview)),
{
    lemma_multiset_map_sum(bview, all, |b: Batch| b.mesh@.vertex_count());
    lemma_multiset_map_sum(bview, all, |b: Batch| b.mesh@.indices.len() as int);
    lemma_multiset_map_sum(bview, all, |b: Batch| b.mesh@.vertices.len() as int);
    lemma_batch_sum_bridges(bview);
    lemma_batch_sum_bridges(all);
}

/// One batch as the backend should draw it: the merged mesh, the binding
/// assigned to each of the batch's uniform ids, and the pipeline slot to
/// bind (freshly compiled when `pipeline_created` says so).
pub struct BatchPlan {
    pub batch: Batch,
    pub binding_ids: Vec<usize>,
    pub pipeline: usize,
    pub pipeline_created: bool,
}

/// A compiled frame: the batches in submission order, the frame's distinct
/// uniform payloads, and which binding each payload goes into.
pub struct FramePlan {
    pub batches: Vec<BatchPlan>,
    pub uniform_table: Vec<UniformBlob>,
    pub binding_of: Vec<usize>,
}

/// The process-lifetime state of the render path: the uniform binding pool
/// and the pipeline and shader memos. Mutated only by the frame loop.
pub struct FrameCompiler {
    pub uniforms: UniformSlotAllocator,
    pub pipelines: PipelineCache,
    pub shaders: ShaderRegistry,
}

impl FrameCompiler {
    /// A compiler with empty pools and memos.
    pub fn new() -> (r: FrameCompiler)
        ensures
            r.uniforms.bindings@.len() == 0,
            r.pipelines.infos@.len() == 0,
            r.pipelines.wf(),
            r.shaders.sources@.len() == 0,
            r.shaders.wf(),
    {
        FrameCompiler {
            uniforms: UniformSlotAllocator::new(),
            pipelines: PipelineCache::new(),
            shaders: ShaderRegistry::new(),
        }
    }

    /// Compiles one frame. The requests are batched and merged, the batches
    /// ordered with every opaque batch before every transparent one and the
    /// transparent ones back to front, the frame's distinct uniform payloads
    /// assigned pairwise distinct bindings that fit them, and each batch
    /// given the pipeline slot cached (or newly entered) for its signature.
    #[verifier::loop_isolation(false)]
    #[verifier::rlimit(100)]
    pub fn compile(&mut self, requests: Vec<DrawRequest>) -> (r: FramePlan)
        requires
            old(self).pipelines.wf(),
            forall|i: int| 0 <= i < requests@.len() ==> (#[trigger] requests@[i]).mesh@.wf(),
            // a request naming an unregistered shader is an invariant
            // violation of the caller, never compiled around
            forall|i: int| 0 <= i < requests@.len()
                ==> (((#[trigger] requests@[i]).shader.id) as int)
                    < old(self).shaders.sources@.len(),
            int_sum(request_vertex_counts(requests@)) <= 0x10000,
            int_sum(request_index_budget(requests@)) <= usize::MAX,
            int_sum(request_vertex_bytes(requests@)) <= usize::MAX,
            int_sum(request_uniform_counts(requests@)) <= usize::MAX,
            old(self).uniforms.bindings@.len() + int_sum(request_uniform_counts(requests@))
                <= usize::MAX,
            old(self).pipelines.infos@.len() + requests@.len() < usize::MAX,
        ensures
            final(self).pipelines.wf(),
            final(self).shaders == old(self).shaders,
            // every opaque batch is submitted before every transparent one,
            // and the transparent tail ascends by depth
            forall|i: int, j: int| 0 <= i <= j < r.batches@.len()
                && is_transparent((#[trigger] r.batches@[i]).batch)
                ==> is_transparent((#[trigger] r.batches@[j]).batch),
            forall|i: int, j: int| 0 <= i <= j < r.batches@.len()
                && is_transparent((#[trigger] r.batches@[i]).batch)
                ==> depth_of(r.batches@[i].batch) <= depth_of((#[trigger] r.batches@[j]).batch),
            // each distinct payload has a binding of its own that fits it
            r.binding_of@.len() == r.uniform_table@.len(),
            forall|i1: int, i2: int| 0 <= i1 < i2 < r.binding_of@.len()
                ==> r.binding_of@[i1] != r.binding_of@[i2],
            forall|i: int| 0 <= i < r.binding_of@.len()
                ==> ((#[trigger] r.binding_of@[i]) as int) < final(self).uniforms.bindings@.len(),
            forall|i: int| 0 <= i < r.binding_of@.len()
                ==> (#[trigger] final(self).uniforms.bindings@[r.binding_of@[i] as int]).min_size
                    >= r.uniform_table@[i].data@.len(),
            // the binding pool persists: nothing already allocated changes
            forall|j: int| 0 <= j < old(self).uniforms.bindings@.len()
                ==> #[trigger] final(self).uniforms.bindings@[j]
                    == old(self).uniforms.bindings@[j],
            // the plan holds the batcher's output, reordered: no two plan
            // batches share a key, every batch was opened by some request,
            // every non-empty request's signature has its batch, the frame
            // table is pairwise distinct, and nothing is lost or invented
            batches_key_distinct(plan_batches(r.batches@)),
            table_distinct(r.uniform_table@),
            int_sum(batch_vertex_counts(plan_batches(r.batches@)))
                == int_sum(request_vertex_counts(requests@)),
            int_sum(batch_vertex_bytes(plan_batches(r.batches@)))
                == int_sum(request_vertex_bytes(requests@)),
            int_sum(batch_index_lens(plan_batches(r.batches@)))
                == int_sum(request_index_budget(requests@)) - 2 * r.batches@.len(),
            forall|k: int| 0 <= k < r.batches@.len()
                ==> some_request_opened(
                    (#[trigger] r.batches@[k]).batch, requests@, r.uniform_table@),
            forall|i: int| 0 <= i < requests@.len() && !(#[trigger] requests@[i]).mesh@.is_empty()
                ==> has_batch_for(plan_batches(r.batches@), requests@[i]),
            // every batch draws a well-formed, non-empty merged mesh through
            // the pipeline slot cached for its full signature
            forall|k: int| 0 <= k < r.batches@.len()
                ==> plan_entry_ok(
                    #[trigger] r.batches@[k], final(self).pipelines.infos@, r.binding_of@),
    {
        let (batches, uniform_table) = MeshBatcher::batch(requests);
        let ghost bview = batches@;
        let ordered = TransparencySorter::order(batches);
        let binding_of = self.uniforms.assign(&uniform_table);
        let ghost bindings_now = self.uniforms.bindings@;

        let mut plans: Vec<BatchPlan> = Vec::new();
        let n = ordered.len();
        let mut ordered = ordered;
        let ghost all = ordered@;
        proof {
            lemma_order_transfer(bview, all, uniform_table@, requests@);
        }
        let mut k: usize = 0;
        #[verifier::loop_isolation(true)]
        while k < n
            invariant
                n == all.len(),
                all.len() <= requests@.len(),
                binding_of@.len() == uniform_table@.len(),
                forall|k2: int| 0 <= k2 < all.len()
                    ==> (#[trigger] all[k2]).mesh@.wf() && !all[k2].mesh@.is_empty(),
                forall|k2: int, v: int| 0 <= k2 < all.len()
                    && 0 <= v < (#[trigger] all[k2]).key.uniform_ids@.len()
                    ==> ((#[trigger] all[k2].key.uniform_ids@[v]) as int)
                        < uniform_table@.len(),
                old(self).pipelines.infos@.len() + requests@.len() < usize::MAX,
                ordered@ =~= all.skip(k as int),
                k <= n,
                self.uniforms.bindings@ == bindings_now,
                self.shaders == old(self).shaders,
                self.pipelines.wf(),
                self.pipelines.infos@.len() <= old(self).pipelines.infos@.len() + k,
                plans@.len() == k,
                forall|m: int| 0 <= m < k ==> (#[trigger] plans@[m]).batch == all[m],
                forall|m: int| 0 <= m < k
                    ==> plan_entry_ok(#[trigger] plans@[m], self.pipelines.infos@, binding_of@),
            decreases n - k,
        {
            assert(ordered@[0] == all[k as int]);
            let b = ordered.remove(0);
            proof {
                assert(ordered@ =~= all.skip(k as int + 1));
            }

            proof {
                assert(forall|v: int| 0 <= v < b.key.uniform_ids@.len()
                    ==> ((#[trigger] b.key.uniform_ids@[v]) as int) < binding_of@.len());
            }
            // the batch's uniform ids, routed through the frame's binding
            // assignment
            let mut binding_ids: Vec<usize> = Vec::new();
            let mut u: usize = 0;
            while u < b.key.uniform_ids.len()
                invariant
                    u <= b.key.uniform_ids@.len(),
                    binding_ids@.len() == u,
                    forall|v: int| 0 <= v < b.key.uniform_ids@.len()
                        ==> ((#[trigger] b.key.uniform_ids@[v]) as int) < binding_of@.len(),
                    forall|v: int| 0 <= v < u
                        ==> #[trigger] binding_ids@[v]
                            == binding_of@[b.key.uniform_ids@[v] as int],
                decreases b.key.uniform_ids@.len() - u,
            {
                binding_ids.push(binding_of[b.key.uniform_ids[u]]);
                u = u + 1;
            }

            let info = RenderPipelineInfo {
                vertex_layout: b.key.vertex_layout.clone_info(),
                shader: b.key.shader,
                textures: copy_usizes(&b.key.textures),
                uniform_binding_ids: copy_usizes(&binding_ids),
            };
            let ghost infos0 = self.pipelines.infos@;
            let (pipeline, pipeline_created) = self.pipelines.get_or_create(info);
            plans.push(BatchPlan { batch: b, binding_ids, pipeline, pipeline_created });
            proof {
                assert forall|m: int| 0 <= m < k + 1
                    implies plan_entry_ok(
                        #[trigger] plans@[m], self.pipelines.infos@, binding_of@) by {
                    if m < k {
                        assert(plan_entry_ok(plans@[m], infos0, binding_of@));
                        assert(self.pipelines.infos@[plans@[m].pipeline as int]
                            == infos0[plans@[m].pipeline as int]);
                    } else {
                        assert(plans@[m].batch == all[m]);
                    }
                }
            }
            k = k + 1;
        }
        proof {
            assert(all.skip(n as int) =~= Seq::<Batch>::empty());
            assert forall|i: int, j: int| 0 <= i <= j < plans@.len()
                && is_transparent((#[trigger] plans@[i]).batch)
                implies is_transparent((#[trigger] plans@[j]).batch)
                    && depth_of(plans@[i].batch) <= depth_of(plans@[j].batch) by {
                assert(plans@[i].batch == all[i]);
                assert(plans@[j].batch == all[j]);
            }
            assert(plan_batches(plans@) =~= all);
        }
        FramePlan { batches: plans, uniform_table, binding_of }
    }
}

/// The per-batch quantity sequences are the plain maps of their closures.
proof fn lemma_batch_sum_bridges(bs: Seq<Batch>)
    ensures
        batch_vertex_counts(bs) =~= bs.map_values(|b: Batch| b.mesh@.vertex_count()),
        batch_index_lens(bs) =~= bs.map_values(|b: Batch| b.mesh@.indices.len() as int),
        batch_vertex_bytes(bs) =~= bs.map_values(|b: Batch| b.mesh@.vertices.len() as int),
{
}

/// A copy of a list of indices.
fn copy_usizes(v: &Vec<usize>) -> (r: Vec<usize>)
    ensures
        r@ =~= v@,
{
    let mut r: Vec<usize> = Vec::new();
    let mut i: usize = 0;
    while i < v.len()
        invariant
            i <= v@.len(),
            r@ =~= v@.take(i as int),
        decreases v@.len() - i,
    {
        r.push(v[i]);
        i = i + 1;
    }
    proof {
        assert(r@ =~= v@);
    }
    r
}

} // verus!
