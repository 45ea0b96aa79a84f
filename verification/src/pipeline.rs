//! Memoization of compiled GPU state: shader modules are registered once and
//! addressed by a stable content-derived key, and pipelines are cached by the
//! structural signature of what they draw. The cache only decides; the GPU
//! compile itself is performed by the backend when a lookup reports a miss.

use vstd::prelude::*;

use crate::mesh::{LayoutInfo, LayoutView};

verus! {

/// Stable identity of a registered shader pair, issued once at load time.
/// Two loads of byte-identical sources and entry points yield the same key,
/// however the source strings are stored in memory.
#[derive(Clone, Copy, Debug, PartialEq, Eq, Structural, Hash)]
pub struct ShaderKey {
    pub id: usize,
}

/// The source text and entry point names of one vertex/fragment shader pair,
/// as raw bytes.
#[derive(Clone, Debug)]
pub struct ShaderSource {
    pub vertex_src: Vec<u8>,
    pub vertex_entry: Vec<u8>,
    pub fragment_src: Vec<u8>,
    pub fragment_entry: Vec<u8>,
}

/// Mathematical model of a [`ShaderSource`].
#[verifier::ext_equal]
pub ghost struct ShaderSourceView {
    pub vertex_src: Seq<u8>,
    pub vertex_entry: Seq<u8>,
    pub fragment_src: Seq<u8>,
    pub fragment_entry: Seq<u8>,
}

impl View for ShaderSource {
    type V = ShaderSourceView;

    open spec fn view(&self) -> ShaderSourceView {
        ShaderSourceView {
            vertex_src: self.vertex_src@,
            vertex_entry: self.vertex_entry@,
            fragment_src: self.fragment_src@,
            fragment_entry: self.fragment_entry@,
        }
    }
}

/// Byte equality of two shader sources.
fn source_eq(a: &ShaderSource, b: &ShaderSource) -> (r: bool)
    ensures
        r == (a@ =~= b@),
{
    let r = a.vertex_src == b.vertex_src && a.vertex_entry == b.vertex_entry
        && a.fragment_src == b.fragment_src && a.fragment_entry == b.fragment_entry;
    proof {
        if r {
            assert(a.vertex_src@ =~= b.vertex_src@);
            assert(a.vertex_entry@ =~= b.vertex_entry@);
            assert(a.fragment_src@ =~= b.fragment_src@);
            assert(a.fragment_entry@ =~= b.fragment_entry@);
        }
    }
    r
}

/// The pool of registered shader sources: index `i` is the pair behind
/// `ShaderKey { id: i }`. Grows at load time, never shrinks.
pub struct ShaderRegistry {
    pub sources: Vec<ShaderSource>,
}

impl ShaderRegistry {
    /// No two registered sources are byte-identical.
    pub open spec fn wf(self) -> bool {
        forall|i: int, j: int| 0 <= i < j < self.sources@.len()
            ==> !(self.sources@[i]@ =~~= self.sources@[j]@)
    }

    /// An empty registry.
    pub fn new() -> (r: ShaderRegistry)
        ensures
            r.sources@.len() == 0,
            r.wf(),
    {
        ShaderRegistry { sources: Vec::new() }
    }

    /// Registers a shader pair and returns its stable key: byte-identical
    /// sources get the key issued at their first registration, new sources
    /// are appended. Keyed by content, never by the source's address.
    #[verifier::loop_isolation(false)]
    pub fn register(&mut self, source: ShaderSource) -> (k: ShaderKey)
        requires
            old(self).wf(),
            old(self).sources@.len() < usize::MAX,
        ensures
            final(self).wf(),
            k.id < final(self).sources@.len(),
            final(self).sources@[k.id as int]@ =~~= source@,
            // a repeated registration changes nothing and returns the key of
            // the first occurrence
            (exists|i: int| 0 <= i < old(self).sources@.len()
                && (#[trigger] old(self).sources@[i])@ =~~= source@)
                ==> *final(self) == *old(self),
            // an unseen source is appended and keyed by its slot
            !(exists|i: int| 0 <= i < old(self).sources@.len()
                && (#[trigger] old(self).sources@[i])@ =~~= source@)
                ==> final(self).sources@ == old(self).sources@.push(source)
                    && k.id == old(self).sources@.len(),
    {
        let mut i: usize = 0;
        while i < self.sources.len()
            invariant
                i <= self.sources@.len(),
                forall|j: int| 0 <= j < i
                    ==> !((#[trigger] self.sources@[j])@ =~~= source@),
            decreases self.sources@.len() - i,
        {
            if source_eq(&self.sources[i], &source) {
                return ShaderKey { id: i };
            }
            i = i + 1;
        }
        self.sources.push(source);
        ShaderKey { id: self.sources.len() - 1 }
    }
}

/// The structural signature a pipeline is compiled for: vertex layout, shader
/// pair, texture list and uniform binding list. Two batches with equal
/// signatures share one pipeline.
#[derive(Clone, Debug)]
pub struct RenderPipelineInfo {
    pub vertex_layout: LayoutInfo,
    pub shader: ShaderKey,
    pub textures: Vec<usize>,
    pub uniform_binding_ids: Vec<usize>,
}

/// Mathematical model of a [`RenderPipelineInfo`].
#[verifier::ext_equal]
pub ghost struct RenderPipelineInfoView {
    pub vertex_layout: LayoutView,
    pub shader: ShaderKey,
    pub textures: Seq<usize>,
    pub uniform_binding_ids: Seq<usize>,
}

impl View for RenderPipelineInfo {
    type V = RenderPipelineInfoView;

    open spec fn view(&self) -> RenderPipelineInfoView {
        RenderPipelineInfoView {
            vertex_layout: self.vertex_layout@,
            shader: self.shader,
            textures: self.textures@,
            uniform_binding_ids: self.uniform_binding_ids@,
        }
    }
}

/// Structural equality of two pipeline signatures.
pub fn info_eq(a: &RenderPipelineInfo, b: &RenderPipelineInfo) -> (r: bool)
    ensures
        r == (a@ =~~= b@),
{
    let r = a.vertex_layout.matches(&b.vertex_layout) && a.shader.id == b.shader.id
        && a.textures == b.textures && a.uniform_binding_ids == b.uniform_binding_ids;
    proof {
        if r {
            assert(a.textures@ =~= b.textures@);
            assert(a.uniform_binding_ids@ =~= b.uniform_binding_ids@);
        }
    }
    r
}

/// One slot of a pipeline's bind-group layout list.
#[derive(Clone, Copy, Debug, PartialEq, Eq, Structural)]
pub enum BindGroupSlot {
    Uniform(usize),
    Texture(usize),
}

/// The bind-group layout list a pipeline is compiled with: the layouts of
/// the signature's uniform bindings first, its textures after, both in the
/// order the signature lists them.
#[verifier::loop_isolation(false)]
pub fn bind_group_order(info: &RenderPipelineInfo) -> (r: Vec<BindGroupSlot>)
    requires
        info.uniform_binding_ids@.len() + info.textures@.len() <= usize::MAX,
    ensures
        r@ =~= info.uniform_binding_ids@.map_values(|u: usize| BindGroupSlot::Uniform(u))
            + info.textures@.map_values(|t: usize| BindGroupSlot::Texture(t)),
{
    let mut r: Vec<BindGroupSlot> = Vec::new();
    let mut i: usize = 0;
    while i < info.uniform_binding_ids.len()
        invariant
            i <= info.uniform_binding_ids@.len(),
            r@.len() == i,
            forall|j: int| 0 <= j < i
                ==> #[trigger] r@[j] == BindGroupSlot::Uniform(info.uniform_binding_ids@[j]),
        decreases info.uniform_binding_ids@.len() - i,
    {
        r.push(BindGroupSlot::Uniform(info.uniform_binding_ids[i]));
        i = i + 1;
    }
    let mut t: usize = 0;
    while t < info.textures.len()
        invariant
            t <= info.textures@.len(),
            r@.len() == info.uniform_binding_ids@.len() + t,
            forall|j: int| 0 <= j < info.uniform_binding_ids@.len()
                ==> #[trigger] r@[j] == BindGroupSlot::Uniform(info.uniform_binding_ids@[j]),
            forall|j: int| 0 <= j < t
                ==> #[trigger] r@[info.uniform_binding_ids@.len() + j]
                    == BindGroupSlot::Texture(info.textures@[j]),
        decreases info.textures@.len() - t,
    {
        r.push(BindGroupSlot::Texture(info.textures[t]));
        t = t + 1;
    }
    proof {
        let expected = info.uniform_binding_ids@.map_values(|u: usize| BindGroupSlot::Uniform(u))
            + info.textures@.map_values(|t2: usize| BindGroupSlot::Texture(t2));
        assert forall|j: int| 0 <= j < r@.len() implies r@[j] == expected[j] by {
            if j < info.uniform_binding_ids@.len() {
                assert(r@[j] == BindGroupSlot::Uniform(info.uniform_binding_ids@[j]));
            } else {
                let off = j - info.uniform_binding_ids@.len();
                assert(r@[info.uniform_binding_ids@.len() + off]
                    == BindGroupSlot::Texture(info.textures@[off]));
            }
        }
        assert(r@ =~= expected);
    }
    r
}

/// A primitive topology the backend can assemble.
#[derive(Clone, Copy, Debug, PartialEq, Eq, Structural)]
pub enum Topology {
    TriangleList,
    TriangleStrip,
    LineList,
    PointList,
}

/// Which winding a front-facing triangle has.
#[derive(Clone, Copy, Debug, PartialEq, Eq, Structural)]
pub enum FrontFace {
    CounterClockwise,
    Clockwise,
}

/// Which faces are culled.
#[derive(Clone, Copy, Debug, PartialEq, Eq, Structural)]
pub enum CullMode {
    NoCulling,
    Front,
    Back,
}

/// A blend factor of the color pipeline.
#[derive(Clone, Copy, Debug, PartialEq, Eq, Structural)]
pub enum BlendFactor {
    Zero,
    One,
    SrcAlpha,
    OneMinusSrcAlpha,
}

/// The fixed-function state every pipeline is compiled with, independent of
/// its structural signature.
#[derive(Clone, Copy, Debug, PartialEq, Eq, Structural)]
pub struct FixedPipelineState {
    pub topology: Topology,
    pub front_face: FrontFace,
    pub cull_mode: CullMode,
    pub color_src_factor: BlendFactor,
    pub color_dst_factor: BlendFactor,
    pub alpha_replace: bool,
    pub depth_stencil: bool,
    pub sample_count: u32,
}

impl FixedPipelineState {
    /// The one state this renderer compiles pipelines with: triangle lists,
    /// counter-clockwise front faces with back-face culling, standard
    /// over-compositing for color with replace for alpha, no depth or
    /// stencil target (back-to-front batch ordering stands in for a depth
    /// buffer), and no multisampling.
    pub fn render_default() -> (s: FixedPipelineState)
        ensures
            s.topology == Topology::TriangleList,
            s.front_face == FrontFace::CounterClockwise,
            s.cull_mode == CullMode::Back,
            s.color_src_factor == BlendFactor::SrcAlpha,
            s.color_dst_factor == BlendFactor::OneMinusSrcAlpha,
            s.alpha_replace,
            !s.depth_stencil,
            s.sample_count == 1,
    {
        FixedPipelineState {
            topology: Topology::TriangleList,
            front_face: FrontFace::CounterClockwise,
            cull_mode: CullMode::Back,
            color_src_factor: BlendFactor::SrcAlpha,
            color_dst_factor: BlendFactor::OneMinusSrcAlpha,
            alpha_replace: true,
            depth_stencil: false,
            sample_count: 1,
        }
    }
}

/// Memo of compiled pipelines: slot `i` of the pool stands for the pipeline
/// object the backend compiled for signature `i`. Entries are created lazily
/// and never evicted.
pub struct PipelineCache {
    pub infos: Vec<RenderPipelineInfo>,
}

impl PipelineCache {
    /// No two cached signatures are structurally equal.
    pub open spec fn wf(self) -> bool {
        forall|i: int, j: int| 0 <= i < j < self.infos@.len()
            ==> !((#[trigger] self.infos@[i])@ =~~= (#[trigger] self.infos@[j])@)
    }

    /// An empty cache.
    pub fn new() -> (r: PipelineCache)
        ensures
            r.infos@.len() == 0,
            r.wf(),
    {
        PipelineCache { infos: Vec::new() }
    }

    /// Returns the handle of the pipeline compiled for this signature. On a
    /// hit the cache is unchanged and the stored handle returned; on a miss
    /// the signature is appended and `created` is true, telling the backend
    /// to compile the pipeline and park it in the new slot.
    #[verifier::loop_isolation(false)]
    pub fn get_or_create(&mut self, info: RenderPipelineInfo) -> (r: (usize, bool))
        requires
            old(self).wf(),
            old(self).infos@.len() < usize::MAX,
        ensures
            final(self).wf(),
            r.0 < final(self).infos@.len(),
            final(self).infos@[r.0 as int]@ =~~= info@,
            r.1 == !(exists|i: int| 0 <= i < old(self).infos@.len()
                && (#[trigger] old(self).infos@[i])@ =~~= info@),
            !r.1 ==> *final(self) == *old(self),
            r.1 ==> final(self).infos@ == old(self).infos@.push(info)
                && r.0 == old(self).infos@.len(),
    {
        let mut i: usize = 0;
        while i < self.infos.len()
            invariant
                i <= self.infos@.len(),
                forall|j: int| 0 <= j < i
                    ==> !((#[trigger] self.infos@[j])@ =~~= info@),
            decreases self.infos@.len() - i,
        {
            if info_eq(&self.infos[i], &info) {
                return (i, false);
            }
            i = i + 1;
        }
        self.infos.push(info);
        (self.infos.len() - 1, true)
    }
}

} // verus!
