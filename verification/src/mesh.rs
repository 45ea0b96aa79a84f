//! Plain-old-data geometry buffers and the merge operation the batcher uses
//! to fuse all meshes of one batch into a single draw call.

use vstd::prelude::*;

verus! {

/// The scalar or vector format of one vertex attribute.
#[derive(Clone, Copy, Debug, PartialEq, Eq, Structural, Hash)]
pub enum VertexType {
    Float32,
    Float32x2,
    Float32x3,
    Float32x4,
    Uint32,
    Uint32x2,
    Uint32x3,
    Uint32x4,
    Sint32,
    Sint32x2,
    Sint32x3,
    Sint32x4,
}

impl VertexType {
    /// Size of one attribute of this format, in bytes.
    pub open spec fn spec_size(self) -> u64 {
        match self {
            VertexType::Float32 => 4,
            VertexType::Float32x2 => 8,
            VertexType::Float32x3 => 12,
            VertexType::Float32x4 => 16,
            VertexType::Uint32 => 4,
            VertexType::Uint32x2 => 8,
            VertexType::Uint32x3 => 12,
            VertexType::Uint32x4 => 16,
            VertexType::Sint32 => 4,
            VertexType::Sint32x2 => 8,
            VertexType::Sint32x3 => 12,
            VertexType::Sint32x4 => 16,
        }
    }

    /// Size of one attribute of this format, in bytes.
    #[verifier::when_used_as_spec(spec_size)]
    pub fn size(self) -> (s: u64)
        ensures
            s == self.spec_size(),
    {
        match self {
            VertexType::Float32 => 4,
            VertexType::Float32x2 => 8,
            VertexType::Float32x3 => 12,
            VertexType::Float32x4 => 16,
            VertexType::Uint32 => 4,
            VertexType::Uint32x2 => 8,
            VertexType::Uint32x3 => 12,
            VertexType::Uint32x4 => 16,
            VertexType::Sint32 => 4,
            VertexType::Sint32x2 => 8,
            VertexType::Sint32x3 => 12,
            VertexType::Sint32x4 => 16,
        }
    }
}

/// Whether a vertex buffer advances per vertex or per instance.
#[derive(Clone, Copy, Debug, PartialEq, Eq, Structural, Hash)]
pub enum StepMode {
    Vertex,
    Instance,
}

/// One attribute of a vertex layout: where it sits inside a vertex record and
/// which shader location it feeds.
#[derive(Clone, Copy, Debug, PartialEq, Eq, Structural, Hash)]
pub struct AttributeInfo {
    pub offset: u64,
    pub shader_location: u32,
    pub format: VertexType,
}

/// Structural descriptor of a vertex buffer layout.
#[derive(Clone, Debug)]
pub struct LayoutInfo {
    pub array_stride: u64,
    pub step_mode: StepMode,
    pub attributes: Vec<AttributeInfo>,
}

/// Mathematical model of a [`LayoutInfo`].
#[verifier::ext_equal]
pub ghost struct LayoutView {
    pub array_stride: u64,
    pub step_mode: StepMode,
    pub attributes: Seq<AttributeInfo>,
}

impl View for LayoutInfo {
    type V = LayoutView;

    open spec fn view(&self) -> LayoutView {
        LayoutView {
            array_stride: self.array_stride,
            step_mode: self.step_mode,
            attributes: self.attributes@,
        }
    }
}

/// Sum of the sizes of the first `i` formats: the byte offset at which
/// attribute `i` starts when the formats are packed back to back.
pub open spec fn prefix_size(types: Seq<VertexType>, i: int) -> int
    decreases i,
{
    if i <= 0 {
        0
    } else {
        prefix_size(types, i - 1) + types[i - 1].spec_size()
    }
}

/// Every attribute format is at most 16 bytes wide, so the packed offset of
/// attribute `i` is at most `16 * i`.
pub proof fn lemma_prefix_size_bound(types: Seq<VertexType>, i: int)
    requires
        0 <= i,
    ensures
        0 <= prefix_size(types, i) <= 16 * i,
    decreases i,
{
    if i > 0 {
        lemma_prefix_size_bound(types, i - 1);
    }
}

impl LayoutInfo {
    /// Builds the layout for vertex records whose attributes of the given
    /// formats are packed back to back: attribute `i` sits at the sum of the
    /// sizes of formats `0..i` and feeds shader location `i`.
    pub fn from_vertex_types(types: &Vec<VertexType>, array_stride: u64, step_mode: StepMode) -> (r: LayoutInfo)
        requires
            types@.len() <= u32::MAX,
        ensures
            r@.array_stride == array_stride,
            r@.step_mode == step_mode,
            r@.attributes.len() == types@.len(),
            forall|i: int| 0 <= i < types@.len() ==> {
                &&& (#[trigger] r@.attributes[i]).format == types@[i]
                &&& r@.attributes[i].shader_location == i
                &&& r@.attributes[i].offset == prefix_size(types@, i)
            },
    {
        let mut attributes: Vec<AttributeInfo> = Vec::new();
        let mut offset: u64 = 0;
        let mut i: usize = 0;
        while i < types.len()
            invariant
                types@.len() <= u32::MAX,
                i <= types@.len(),
                offset == prefix_size(types@, i as int),
                attributes@.len() == i,
                forall|j: int| 0 <= j < i ==> {
                    &&& (#[trigger] attributes@[j]).format == types@[j]
                    &&& attributes@[j].shader_location == j
                    &&& attributes@[j].offset == prefix_size(types@, j)
                },
            decreases types@.len() - i,
        {
            let format = types[i];
            attributes.push(AttributeInfo { offset, shader_location: i as u32, format });
            proof {
                lemma_prefix_size_bound(types@, i as int);
            }
            offset = offset + format.size();
            i = i + 1;
        }
        LayoutInfo { array_stride, step_mode, attributes }
    }

    /// A layout with the same stride, step mode and attributes.
    pub fn clone_info(&self) -> (r: LayoutInfo)
        ensures
            r@ =~= self@,
    {
        let mut attributes: Vec<AttributeInfo> = Vec::new();
        let mut i: usize = 0;
        while i < self.attributes.len()
            invariant
                i <= self.attributes@.len(),
                attributes@ =~= self.attributes@.take(i as int),
            decreases self.attributes@.len() - i,
        {
            attributes.push(self.attributes[i]);
            i = i + 1;
        }
        proof {
            assert(attributes@ =~= self.attributes@);
        }
        LayoutInfo { array_stride: self.array_stride, step_mode: self.step_mode, attributes }
    }

    /// Structural equality of two layouts, which decides whether two meshes
    /// may be merged and whether two batch keys agree.
    pub fn matches(&self, other: &LayoutInfo) -> (r: bool)
        ensures
            r == (self@ =~= other@),
    {
        if self.array_stride != other.array_stride {
            return false;
        }
        if self.step_mode != other.step_mode {
            return false;
        }
        if self.attributes.len() != other.attributes.len() {
            return false;
        }
        let mut i: usize = 0;
        while i < self.attributes.len()
            invariant
                self.attributes@.len() == other.attributes@.len(),
                i <= self.attributes@.len(),
                forall|j: int| 0 <= j < i ==> self.attributes@[j] == other.attributes@[j],
            decreases self.attributes@.len() - i,
        {
            let a = self.attributes[i];
            let b = other.attributes[i];
            if a.offset != b.offset || a.shader_location != b.shader_location {
                return false;
            }
            if !format_eq(a.format, b.format) {
                return false;
            }
            i = i + 1;
        }
        proof {
            assert(self.attributes@ =~= other.attributes@);
        }
        true
    }
}

/// Structural equality of two attribute formats.
pub fn format_eq(a: VertexType, b: VertexType) -> (r: bool)
    ensures
        r == (a == b),
{
    a == b
}

/// A plain-old-data geometry buffer: raw vertex bytes, a `u16` index list,
/// the vertex layout the bytes follow, a flag saying whether any primitive
/// may be translucent, and the largest depth value among its vertices.
#[derive(Clone, Debug)]
pub struct Mesh {
    pub vertices: Vec<u8>,
    pub indices: Vec<u16>,
    pub layout: LayoutInfo,
    pub could_be_transparent: bool,
    pub highest_z: i32,
}

/// Mathematical model of a [`Mesh`].
#[verifier::ext_equal]
pub ghost struct MeshView {
    pub vertices: Seq<u8>,
    pub indices: Seq<u16>,
    pub layout: LayoutView,
    pub could_be_transparent: bool,
    pub highest_z: int,
}

impl View for Mesh {
    type V = MeshView;

    open spec fn view(&self) -> MeshView {
        MeshView {
            vertices: self.vertices@,
            indices: self.indices@,
            layout: self.layout@,
            could_be_transparent: self.could_be_transparent,
            highest_z: self.highest_z as int,
        }
    }
}

impl MeshView {
    /// Number of whole vertex records held in the byte buffer.
    pub open spec fn vertex_count(self) -> int {
        self.vertices.len() as int / self.layout.array_stride as int
    }

    /// Well-formedness: the stride is positive and addressable, the byte
    /// buffer holds whole records only, and every index addresses a record.
    pub open spec fn wf(self) -> bool {
        &&& 0 < self.layout.array_stride <= usize::MAX
        &&& self.vertices.len() as int % (self.layout.array_stride as int) == 0
        &&& forall|i: int| 0 <= i < self.indices.len() ==> ((#[trigger] self.indices[i]) as int) < self.vertex_count()
    }

    /// The other operand's indices, renumbered to address the combined
    /// vertex buffer in which its records start after `shift` records.
    pub open spec fn shifted_indices(self, shift: int) -> Seq<u16> {
        self.indices.map_values(|x: u16| (x + shift) as u16)
    }

    /// The two degenerate stitching indices inserted between the operands'
    /// index runs: two copies of the first operand's last index, which form a
    /// zero-area triangle with the second operand's first index, so the
    /// rasterizer discards the seam instead of drawing it.
    pub open spec fn stitch(self, other: MeshView) -> Seq<u16> {
        if self.indices.len() > 0 && other.indices.len() > 0 {
            let last = self.indices[self.indices.len() - 1];
            seq![last, last]
        } else {
            Seq::empty()
        }
    }

    /// The result of merging `other` after `self`: vertex bytes concatenated,
    /// `other`'s indices renumbered and appended after the stitch, depth the
    /// maximum of the two, transparency the disjunction.
    pub open spec fn merged(self, other: MeshView) -> MeshView {
        MeshView {
            vertices: self.vertices + other.vertices,
            indices: self.indices + self.stitch(other) + other.shifted_indices(self.vertex_count()),
            layout: self.layout,
            could_be_transparent: self.could_be_transparent || other.could_be_transparent,
            highest_z: if other.highest_z > self.highest_z {
                other.highest_z
            } else {
                self.highest_z
            },
        }
    }

    /// A mesh is empty when it has no vertices or no indices; the batcher
    /// drops such meshes before grouping.
    pub open spec fn is_empty(self) -> bool {
        self.vertices.len() == 0 || self.indices.len() == 0
    }
}

/// With both operands well-formed, of equal layout, and jointly holding at
/// most 65536 vertices, the merged vertex count is the sum of the operands'.
pub proof fn lemma_merged_vertex_count(a: MeshView, b: MeshView)
    requires
        a.wf(),
        b.wf(),
        a.layout == b.layout,
    ensures
        a.merged(b).vertex_count() == a.vertex_count() + b.vertex_count(),
{
    let s = a.layout.array_stride as int;
    let va = a.vertices.len() as int;
    let vb = b.vertices.len() as int;
    let q1 = va / s;
    let q2 = vb / s;
    vstd::arithmetic::div_mod::lemma_fundamental_div_mod(va, s);
    vstd::arithmetic::div_mod::lemma_fundamental_div_mod(vb, s);
    assert(va + vb == s * (q1 + q2)) by (nonlinear_arith)
        requires
            va == s * q1,
            vb == s * q2,
    ;
    vstd::arithmetic::div_mod::lemma_div_multiples_vanish(q1 + q2, s);
}

/// Law: merging meshes of `n1` and `n2` vertices yields a well-formed mesh of
/// `n1 + n2` vertices whose indices are all below `n1 + n2`; its index count
/// is `len1 + 2 + len2` when both operands have indices (the two stitching
/// indices), while an operand without vertices and indices leaves the other's
/// index list unchanged.
pub proof fn lemma_merge_counts(a: MeshView, b: MeshView)
    requires
        a.wf(),
        b.wf(),
        a.layout == b.layout,
        a.vertex_count() + b.vertex_count() <= 0x10000,
    ensures
        a.merged(b).wf(),
        a.merged(b).vertex_count() == a.vertex_count() + b.vertex_count(),
        forall|i: int| 0 <= i < a.merged(b).indices.len()
            ==> ((#[trigger] a.merged(b).indices[i]) as int) < a.vertex_count() + b.vertex_count(),
        a.indices.len() > 0 && b.indices.len() > 0
            ==> a.merged(b).indices.len() == a.indices.len() + 2 + b.indices.len(),
        b.indices.len() == 0 ==> a.merged(b).indices =~= a.indices,
        a.vertices.len() == 0 && a.indices.len() == 0 ==> a.merged(b).indices =~= b.indices,
{
    lemma_merged_vertex_count(a, b);
    let m = a.merged(b);
    let n1 = a.vertex_count();
    let n2 = b.vertex_count();
    let s = a.layout.array_stride as int;
    let shifted = b.shifted_indices(n1);
    assert(forall|i: int| 0 <= i < shifted.len()
        ==> (#[trigger] shifted[i]) as int == b.indices[i] as int + n1) by {
        assert forall|i: int| 0 <= i < shifted.len()
            implies (#[trigger] shifted[i]) as int == b.indices[i] as int + n1 by {
            assert((b.indices[i] as int) < n2);
            assert(b.indices[i] + n1 < 0x10000);
        }
    }
    assert((a.vertices.len() as int + b.vertices.len() as int) % s == 0) by {
        vstd::arithmetic::div_mod::lemma_fundamental_div_mod(a.vertices.len() as int, s);
        vstd::arithmetic::div_mod::lemma_fundamental_div_mod(b.vertices.len() as int, s);
        let q1 = a.vertices.len() as int / s;
        let q2 = b.vertices.len() as int / s;
        assert(a.vertices.len() as int + b.vertices.len() as int == s * (q1 + q2)) by (nonlinear_arith)
            requires
                a.vertices.len() as int == s * q1,
                b.vertices.len() as int == s * q2,
        ;
        vstd::arithmetic::div_mod::lemma_mod_multiples_basic(q1 + q2, s);
    }
    if a.vertices.len() == 0 && a.indices.len() == 0 {
        assert(n1 == 0);
        assert(m.indices =~= shifted);
        assert(shifted =~= b.indices) by {
            assert forall|i: int| 0 <= i < shifted.len()
                implies shifted[i] == b.indices[i] by {
                assert(shifted[i] as int == b.indices[i] as int + 0);
            }
        }
    }
}

impl Mesh {
    /// Number of whole vertex records held in the byte buffer.
    pub fn vertex_count(&self) -> (n: usize)
        requires
            self@.wf(),
        ensures
            n as int == self@.vertex_count(),
    {
        self.vertices.len() / (self.layout.array_stride as usize)
    }

    /// Marks the mesh as possibly translucent, so the sorter orders it after
    /// all opaque batches.
    pub fn possibly_transparent(&mut self)
        ensures
            final(self)@ == (MeshView { could_be_transparent: true, ..old(self)@ }),
    {
        self.could_be_transparent = true;
    }

    /// Merges `other` into `self`, consuming it: `other`'s vertex bytes are
    /// appended after `self`'s, its indices are renumbered by `self`'s vertex
    /// count, and when both operands have indices a degenerate (zero-area)
    /// stitching triangle is inserted between the two index runs so the
    /// rasterizer discards the seam.
    pub fn merge(&mut self, other: Mesh)
        requires
            old(self)@.wf(),
            other@.wf(),
            old(self)@.layout == other@.layout,
            old(self)@.vertex_count() + other@.vertex_count() <= 0x10000,
            old(self)@.vertices.len() + other@.vertices.len() <= usize::MAX,
            old(self)@.indices.len() + 2 + other@.indices.len() <= usize::MAX,
        ensures
            final(self)@ == old(self)@.merged(other@),
            final(self)@.wf(),
    {
        proof {
            lemma_merge_counts(old(self)@, other@);
        }
        let mut other = other;
        let ghost b0 = other@;
        let stride: usize = self.layout.array_stride as usize;
        let n1: usize = self.vertices.len() / stride;
        assert(n1 as int == old(self)@.vertex_count());

        let mut i: usize = 0;
        while i < other.indices.len()
            invariant
                other@.vertices == b0.vertices,
                other@.layout == b0.layout,
                other@.could_be_transparent == b0.could_be_transparent,
                other@.highest_z == b0.highest_z,
                b0.wf(),
                i <= other.indices@.len(),
                other.indices@.len() == b0.indices.len(),
                n1 as int == old(self)@.vertex_count(),
                old(self)@.vertex_count() + b0.vertex_count() <= 0x10000,
                forall|j: int| 0 <= j < i
                    ==> (#[trigger] other.indices@[j]) as int == b0.indices[j] as int + n1,
                forall|j: int| i <= j < other.indices@.len()
                    ==> #[trigger] other.indices@[j] == b0.indices[j],
            decreases other.indices@.len() - i,
        {
            let v = other.indices[i];
            assert((v as int) < b0.vertex_count());
            assert(b0.vertex_count() >= 1);
            assert(n1 < 0x10000);
            other.indices[i] = v + (n1 as u16);
            i = i + 1;
        }
        proof {
            assert(other.indices@ =~= b0.shifted_indices(n1 as int)) by {
                assert forall|j: int| 0 <= j < other.indices@.len()
                    implies other.indices@[j] == b0.shifted_indices(n1 as int)[j] by {
                    assert(other.indices@[j] as int == b0.indices[j] as int + n1);
                }
            }
        }

        if self.indices.len() > 0 && other.indices.len() > 0 {
            let last = self.indices[self.indices.len() - 1];
            self.indices.push(last);
            self.indices.push(last);
            proof {
                assert(self.indices@ =~= old(self)@.indices + old(self)@.stitch(b0));
            }
        } else {
            proof {
                assert(self.indices@ =~= old(self)@.indices + old(self)@.stitch(b0));
            }
        }
        self.indices.append(&mut other.indices);
        self.vertices.append(&mut other.vertices);
        if other.highest_z > self.highest_z {
            self.highest_z = other.highest_z;
        }
        if other.could_be_transparent {
            self.could_be_transparent = true;
        }
        proof {
            assert(self@.indices =~= old(self)@.merged(b0).indices);
            assert(self@ =~= old(self)@.merged(b0));
        }
    }
}

} // verus!
