//! Shelf-packs rasterized glyph bitmaps into one shared texture. Each glyph
//! is padded conceptually to a square quad rounded up to a multiple of 16
//! pixels (bucketing the sizes improves shelf reuse), placed into the first
//! free rectangle that holds it (scanning the most recently split ones
//! first), and finally blitted into an RGBA buffer sized by the running
//! maximum extent of all placements.

use vstd::prelude::*;

use crate::sums::{int_sum, lemma_int_sum_push};


verus! {

/// One rasterized glyph handed to the packer: its pixel size, its RGBA
/// bitmap (4 bytes per pixel, rows of `width` pixels), and the metrics the
/// text layouter reads back.
#[derive(Clone, Debug)]
pub struct GlyphInput {
    pub glyph: char,
    pub width: u32,
    pub height: u32,
    pub bitmap: Vec<u8>,
    pub xmin: i32,
    pub ymin: i32,
}

/// Where a glyph landed in the atlas: the origin of its quad, the quad's
/// side, the glyph's own pixel size and metrics, and which input it came
/// from.
#[derive(Clone, Copy, Debug)]
pub struct GlyphPlacement {
    pub glyph: char,
    pub x: u64,
    pub y: u64,
    pub quad: u64,
    pub width: u32,
    pub height: u32,
    pub xmin: i32,
    pub ymin: i32,
    pub source: usize,
}

/// A free rectangle of the shelf packer.
#[derive(Clone, Copy, Debug, PartialEq, Eq, Structural)]
pub struct FreeRect {
    pub x: u64,
    pub y: u64,
    pub w: u64,
    pub h: u64,
}

/// The packed atlas: its pixel extent and where each placed glyph sits.
/// Glyphs whose quad fits no free rectangle are left out: the packer drops
/// them rather than growing the atlas.
#[derive(Clone, Debug)]
pub struct AtlasLayout {
    pub width: u64,
    pub height: u64,
    pub placements: Vec<GlyphPlacement>,
}

/// Two axis-aligned rectangles share no pixel.
pub open spec fn rects_disjoint(
    x1: int, y1: int, w1: int, h1: int,
    x2: int, y2: int, w2: int, h2: int,
) -> bool {
    x1 + w1 <= x2 || x2 + w2 <= x1 || y1 + h1 <= y2 || y2 + h2 <= y1
}

/// The first rectangle lies entirely inside the second.
pub open spec fn rect_inside(
    x1: int, y1: int, w1: int, h1: int,
    x2: int, y2: int, w2: int, h2: int,
) -> bool {
    x2 <= x1 && x1 + w1 <= x2 + w2 && y2 <= y1 && y1 + h1 <= y2 + h2
}

/// A rectangle inside one of two disjoint rectangles is disjoint from the
/// other.
pub proof fn lemma_inside_disjoint(
    x1: int, y1: int, w1: int, h1: int,
    x2: int, y2: int, w2: int, h2: int,
    x3: int, y3: int, w3: int, h3: int,
)
    requires
        rect_inside(x1, y1, w1, h1, x2, y2, w2, h2),
        rects_disjoint(x2, y2, w2, h2, x3, y3, w3, h3),
    ensures
        rects_disjoint(x1, y1, w1, h1, x3, y3, w3, h3),
{
}

/// No two placed quads overlap.
pub open spec fn placements_disjoint(ps: Seq<GlyphPlacement>) -> bool {
    forall|a: int, b: int| 0 <= a < b < ps.len() ==> rects_disjoint(
        (#[trigger] ps[a]).x as int, ps[a].y as int, ps[a].quad as int, ps[a].quad as int,
        (#[trigger] ps[b]).x as int, ps[b].y as int, ps[b].quad as int, ps[b].quad as int,
    )
}

/// The square quad side a glyph of the given pixel size is padded to: the
/// larger of its width and height, each rounded up to the next multiple
/// of 16.
pub open spec fn spec_quad_size(width: u32, height: u32) -> int {
    let wr = (width as int / 16) * 16 + 16;
    let hr = (height as int / 16) * 16 + 16;
    if wr >= hr {
        wr
    } else {
        hr
    }
}

/// The quad side used to pack a glyph of the given pixel size.
pub fn quad_size(width: u32, height: u32) -> (q: u64)
    ensures
        q == spec_quad_size(width, height),
        q >= width,
        q >= height,
        16 <= q <= 0x1_0000_0000,
{
    let wr: u64 = ((width as u64) / 16) * 16 + 16;
    let hr: u64 = ((height as u64) / 16) * 16 + 16;
    proof {
        vstd::arithmetic::div_mod::lemma_fundamental_div_mod(width as int, 16);
        vstd::arithmetic::div_mod::lemma_fundamental_div_mod(height as int, 16);
    }
    if wr >= hr {
        wr
    } else {
        hr
    }
}

/// The smallest width `w` with `19 * w * w >= 20 * area`: the exact integer
/// form of rounding `sqrt(area / 0.95)` upward, 0.95 being the packer's
/// fill-factor safety margin.
#[verifier::loop_isolation(false)]
pub fn start_width_for(area: u64) -> (w: u64)
    requires
        area <= 0x1_0000_0000_0000,
    ensures
        19 * ((w as int) * (w as int)) >= 20 * area,
        w > 0 ==> 19 * ((w as int - 1) * (w as int - 1)) < 20 * area,
        w <= area + 2,
{
    if area == 0 {
        return 0;
    }
    let mut lo: u64 = 0;
    let mut hi: u64 = area + 2;
    proof {
        let a = area as int;
        assert(19 * ((a + 2) * (a + 2)) >= 20 * a) by (nonlinear_arith)
            requires
                a >= 1,
        ;
    }
    while lo + 1 < hi
        invariant
            lo < hi <= area + 2,
            19 * ((hi as int) * (hi as int)) >= 20 * area,
            19 * ((lo as int) * (lo as int)) < 20 * area,
        decreases hi - lo,
    {
        let mid = lo + (hi - lo) / 2;
        assert(lo < mid < hi);
        proof {
            assert((mid as int) * (mid as int) <= 0x1_0000_0000_0002 * 0x1_0000_0000_0002)
                by (nonlinear_arith)
                requires
                    0 <= (mid as int) <= 0x1_0000_0000_0002,
            ;
        }
        let m128 = (mid as u128) * (mid as u128);
        assert(m128 as int == (mid as int) * (mid as int));
        if 19 * m128 >= 20 * (area as u128) {
            assert(19 * ((mid as int) * (mid as int)) >= 20 * area);
            hi = mid;
        } else {
            assert(19 * ((mid as int) * (mid as int)) < 20 * area);
            lo = mid;
        }
    }
    hi
}

/// Whether a free space avoids a placement's quad.
spec fn space_avoids(s: FreeRect, p: GlyphPlacement) -> bool {
    rects_disjoint(
        s.x as int, s.y as int, s.w as int, s.h as int,
        p.x as int, p.y as int, p.quad as int, p.quad as int,
    )
}

/// Every free rectangle lies in the packing box and no two overlap.
spec fn spaces_wf(ss: Seq<FreeRect>, w0: int, h0: int) -> bool {
    &&& forall|k: int| 0 <= k < ss.len()
        ==> (#[trigger] ss[k]).x + ss[k].w <= w0 && ss[k].y + ss[k].h <= h0
    &&& forall|k1: int, k2: int| 0 <= k1 < k2 < ss.len() ==> rects_disjoint(
        (#[trigger] ss[k1]).x as int, ss[k1].y as int, ss[k1].w as int, ss[k1].h as int,
        (#[trigger] ss[k2]).x as int, ss[k2].y as int, ss[k2].w as int, ss[k2].h as int,
    )
}

/// Every free rectangle avoids every placed quad.
spec fn spaces_avoid(ss: Seq<FreeRect>, ps: Seq<GlyphPlacement>) -> bool {
    forall|k: int, m: int| 0 <= k < ss.len() && 0 <= m < ps.len()
        ==> space_avoids(#[trigger] ss[k], #[trigger] ps[m])
}

/// The placement's quad lies inside the consumed free rectangle.
spec fn quad_inside(p: GlyphPlacement, sp: FreeRect) -> bool {
    p.x == sp.x && p.y == sp.y && p.quad <= sp.w && p.quad <= sp.h
}

/// Splitting by replacing the consumed rectangle with one sub-rectangle that
/// avoids the new quad keeps the free list well-formed and clear of every
/// placement.
proof fn lemma_split_update(
    ss0: Seq<FreeRect>, si: int, sp: FreeRect, s1: FreeRect,
    p: GlyphPlacement, ps0: Seq<GlyphPlacement>,
    w0: int, h0: int,
)
    requires
        spaces_wf(ss0, w0, h0),
        spaces_avoid(ss0, ps0),
        0 <= si < ss0.len(),
        ss0[si] == sp,
        quad_inside(p, sp),
        rect_inside(
            s1.x as int, s1.y as int, s1.w as int, s1.h as int,
            sp.x as int, sp.y as int, sp.w as int, sp.h as int,
        ),
        space_avoids(s1, p),
    ensures
        spaces_wf(ss0.update(si, s1), w0, h0),
        spaces_avoid(ss0.update(si, s1), ps0.push(p)),
{
    let ss1 = ss0.update(si, s1);
    let ps1 = ps0.push(p);
    assert forall|k1: int, k2: int| 0 <= k1 < k2 < ss1.len() implies rects_disjoint(
        (#[trigger] ss1[k1]).x as int, ss1[k1].y as int, ss1[k1].w as int, ss1[k1].h as int,
        (#[trigger] ss1[k2]).x as int, ss1[k2].y as int, ss1[k2].w as int, ss1[k2].h as int,
    ) by {
        if k1 == si {
            lemma_inside_disjoint(
                s1.x as int, s1.y as int, s1.w as int, s1.h as int,
                sp.x as int, sp.y as int, sp.w as int, sp.h as int,
                ss0[k2].x as int, ss0[k2].y as int, ss0[k2].w as int, ss0[k2].h as int,
            );
        } else if k2 == si {
            lemma_inside_disjoint(
                s1.x as int, s1.y as int, s1.w as int, s1.h as int,
                sp.x as int, sp.y as int, sp.w as int, sp.h as int,
                ss0[k1].x as int, ss0[k1].y as int, ss0[k1].w as int, ss0[k1].h as int,
            );
        }
    }
    assert forall|k: int, m: int| 0 <= k < ss1.len() && 0 <= m < ps1.len()
        implies space_avoids(#[trigger] ss1[k], #[trigger] ps1[m]) by {
        if m < ps0.len() {
            if k == si {
                lemma_inside_disjoint(
                    s1.x as int, s1.y as int, s1.w as int, s1.h as int,
                    sp.x as int, sp.y as int, sp.w as int, sp.h as int,
                    ps0[m].x as int, ps0[m].y as int, ps0[m].quad as int, ps0[m].quad as int,
                );
            }
        } else {
            if k != si {
                lemma_inside_disjoint(
                    p.x as int, p.y as int, p.quad as int, p.quad as int,
                    sp.x as int, sp.y as int, sp.w as int, sp.h as int,
                    ss0[k].x as int, ss0[k].y as int, ss0[k].w as int, ss0[k].h as int,
                );
            }
        }
    }
}

/// Dropping the exactly consumed rectangle (by swapping the last one into
/// its place) keeps the free list well-formed and clear of every placement.
proof fn lemma_split_remove(
    ss0: Seq<FreeRect>, si: int, sp: FreeRect,
    p: GlyphPlacement, ps0: Seq<GlyphPlacement>,
    w0: int, h0: int,
)
    requires
        spaces_wf(ss0, w0, h0),
        spaces_avoid(ss0, ps0),
        0 <= si < ss0.len(),
        ss0[si] == sp,
        quad_inside(p, sp),
    ensures
        spaces_wf(ss0.update(si, ss0.last()).drop_last(), w0, h0),
        spaces_avoid(ss0.update(si, ss0.last()).drop_last(), ps0.push(p)),
{
    let ss1 = ss0.update(si, ss0.last()).drop_last();
    let ps1 = ps0.push(p);
    assert forall|k: int| 0 <= k < ss1.len()
        implies (#[trigger] ss1[k]).x + ss1[k].w <= w0 && ss1[k].y + ss1[k].h <= h0 by {
        if k == si {
            assert(ss1[k] == ss0[ss0.len() - 1]);
        } else {
            assert(ss1[k] == ss0[k]);
        }
    }
    assert forall|k1: int, k2: int| 0 <= k1 < k2 < ss1.len() implies rects_disjoint(
        (#[trigger] ss1[k1]).x as int, ss1[k1].y as int, ss1[k1].w as int, ss1[k1].h as int,
        (#[trigger] ss1[k2]).x as int, ss1[k2].y as int, ss1[k2].w as int, ss1[k2].h as int,
    ) by {
        let o1: int = if k1 == si { ss0.len() - 1 } else { k1 };
        let o2: int = if k2 == si { ss0.len() - 1 } else { k2 };
        assert(ss1[k1] == ss0[o1]);
        assert(ss1[k2] == ss0[o2]);
        assert(o1 != o2);
    }
    assert forall|k: int, m: int| 0 <= k < ss1.len() && 0 <= m < ps1.len()
        implies space_avoids(#[trigger] ss1[k], #[trigger] ps1[m]) by {
        let o: int = if k == si { ss0.len() - 1 } else { k };
        assert(ss1[k] == ss0[o]);
        if m < ps0.len() {
            assert(space_avoids(ss0[o], ps0[m]));
        } else {
            assert(o != si);
            lemma_inside_disjoint(
                p.x as int, p.y as int, p.quad as int, p.quad as int,
                sp.x as int, sp.y as int, sp.w as int, sp.h as int,
                ss0[o].x as int, ss0[o].y as int, ss0[o].w as int, ss0[o].h as int,
            );
        }
    }
}

/// Splitting into a shrunk rectangle plus a right remainder keeps the free
/// list well-formed and clear of every placement.
proof fn lemma_split_two(
    ss0: Seq<FreeRect>, si: int, sp: FreeRect, s1: FreeRect, s2: FreeRect,
    p: GlyphPlacement, ps0: Seq<GlyphPlacement>,
    w0: int, h0: int,
)
    requires
        spaces_wf(ss0, w0, h0),
        spaces_avoid(ss0, ps0),
        0 <= si < ss0.len(),
        ss0[si] == sp,
        quad_inside(p, sp),
        rect_inside(
            s1.x as int, s1.y as int, s1.w as int, s1.h as int,
            sp.x as int, sp.y as int, sp.w as int, sp.h as int,
        ),
        rect_inside(
            s2.x as int, s2.y as int, s2.w as int, s2.h as int,
            sp.x as int, sp.y as int, sp.w as int, sp.h as int,
        ),
        space_avoids(s1, p),
        space_avoids(s2, p),
        rects_disjoint(
            s1.x as int, s1.y as int, s1.w as int, s1.h as int,
            s2.x as int, s2.y as int, s2.w as int, s2.h as int,
        ),
    ensures
        spaces_wf(ss0.update(si, s1).push(s2), w0, h0),
        spaces_avoid(ss0.update(si, s1).push(s2), ps0.push(p)),
{
    lemma_split_update(ss0, si, sp, s1, p, ps0, w0, h0);
    let ssa = ss0.update(si, s1);
    let ss1 = ssa.push(s2);
    let ps1 = ps0.push(p);
    assert forall|k1: int, k2: int| 0 <= k1 < k2 < ss1.len() implies rects_disjoint(
        (#[trigger] ss1[k1]).x as int, ss1[k1].y as int, ss1[k1].w as int, ss1[k1].h as int,
        (#[trigger] ss1[k2]).x as int, ss1[k2].y as int, ss1[k2].w as int, ss1[k2].h as int,
    ) by {
        if k2 == ss1.len() - 1 {
            if k1 != si {
                lemma_inside_disjoint(
                    s2.x as int, s2.y as int, s2.w as int, s2.h as int,
                    sp.x as int, sp.y as int, sp.w as int, sp.h as int,
                    ss0[k1].x as int, ss0[k1].y as int, ss0[k1].w as int, ss0[k1].h as int,
                );
            }
        }
    }
    assert forall|k: int, m: int| 0 <= k < ss1.len() && 0 <= m < ps1.len()
        implies space_avoids(#[trigger] ss1[k], #[trigger] ps1[m]) by {
        if k == ss1.len() - 1 {
            if m < ps0.len() {
                lemma_inside_disjoint(
                    s2.x as int, s2.y as int, s2.w as int, s2.h as int,
                    sp.x as int, sp.y as int, sp.w as int, sp.h as int,
                    ps0[m].x as int, ps0[m].y as int, ps0[m].quad as int, ps0[m].quad as int,
                );
            }
        } else {
            assert(space_avoids(ssa[k], ps1[m]));
        }
    }
}

/// The greatest index of a free rectangle that holds a `q`-sided quad, or
/// -1 when none does: the walk tries the most recently added rectangle
/// first.
pub open spec fn fit_index(spaces: Seq<FreeRect>, q: u64) -> int
    decreases spaces.len(),
{
    if spaces.len() == 0 {
        -1
    } else if q <= spaces.last().w && q <= spaces.last().h {
        spaces.len() - 1
    } else {
        fit_index(spaces.drop_last(), q)
    }
}

/// What [`fit_index`] returns: the greatest fitting index, or -1 when no
/// rectangle fits.
pub proof fn lemma_fit_index(spaces: Seq<FreeRect>, q: u64)
    ensures
        fit_index(spaces, q) == -1 || 0 <= fit_index(spaces, q) < spaces.len(),
        fit_index(spaces, q) == -1 ==> forall|k: int| 0 <= k < spaces.len()
            ==> !(q <= (#[trigger] spaces[k]).w && q <= spaces[k].h),
        fit_index(spaces, q) >= 0 ==> q <= spaces[fit_index(spaces, q)].w
            && q <= spaces[fit_index(spaces, q)].h,
        fit_index(spaces, q) >= 0 ==> forall|k: int| fit_index(spaces, q) < k < spaces.len()
            ==> !(q <= (#[trigger] spaces[k]).w && q <= spaces[k].h),
    decreases spaces.len(),
{
    if spaces.len() > 0 && !(q <= spaces.last().w && q <= spaces.last().h) {
        lemma_fit_index(spaces.drop_last(), q);
        assert(forall|k: int| 0 <= k < spaces.len() - 1
            ==> #[trigger] spaces[k] == spaces.drop_last()[k]);
    }
}

/// The packing state at one turn of the walk: the free rectangles, the
/// placements made so far, and the running extent maxima.
#[verifier::ext_equal]
pub ghost struct PackState {
    pub spaces: Seq<FreeRect>,
    pub placements: Seq<GlyphPlacement>,
    pub width: u64,
    pub height: u64,
}

/// One turn of the walk: glyph `idx` takes the most recently added free
/// rectangle its quad fits — placed at the rectangle's origin, the
/// rectangle split around the quad, the extent maxima updated — or, when no
/// rectangle fits the quad, the glyph is dropped and the state unchanged.
pub open spec fn pack_step(st: PackState, g: GlyphInput, idx: int) -> PackState {
    let q = spec_quad_size(g.width, g.height) as u64;
    let si = fit_index(st.spaces, q);
    if si < 0 {
        st
    } else {
        let sp = st.spaces[si];
        let p = GlyphPlacement {
            glyph: g.glyph,
            x: sp.x,
            y: sp.y,
            quad: q,
            width: g.width,
            height: g.height,
            xmin: g.xmin,
            ymin: g.ymin,
            source: idx as usize,
        };
        let spaces = if q == sp.w && q == sp.h {
            st.spaces.update(si, st.spaces.last()).drop_last()
        } else if q == sp.h {
            st.spaces.update(
                si,
                FreeRect { x: (sp.x + q) as u64, y: sp.y, w: (sp.w - q) as u64, h: sp.h },
            )
        } else if q == sp.w {
            st.spaces.update(
                si,
                FreeRect { x: sp.x, y: (sp.y + q) as u64, w: sp.w, h: (sp.h - q) as u64 },
            )
        } else {
            st.spaces.update(
                si,
                FreeRect { x: sp.x, y: (sp.y + q) as u64, w: sp.w, h: (sp.h - q) as u64 },
            ).push(FreeRect { x: (sp.x + q) as u64, y: sp.y, w: (sp.w - q) as u64, h: q })
        };
        PackState {
            spaces,
            placements: st.placements.push(p),
            width: if sp.x + q > st.width {
                (sp.x + q) as u64
            } else {
                st.width
            },
            height: if sp.y + q > st.height {
                (sp.y + q) as u64
            } else {
                st.height
            },
        }
    }
}

/// The walk's state after its first `i` turns, starting from one shelf of
/// width `w0` and the packer's 8192-pixel height bound.
pub open spec fn pack_states(glyphs: Seq<GlyphInput>, w0: u64, i: int) -> PackState
    decreases i,
{
    if i <= 0 {
        PackState {
            spaces: seq![FreeRect { x: 0, y: 0, w: w0, h: 8192 }],
            placements: Seq::empty(),
            width: 0,
            height: 0,
        }
    } else {
        pack_step(pack_states(glyphs, w0, i - 1), glyphs[i - 1], i - 1)
    }
}

/// The glyphs' pixel areas; their sum drives the start width.
pub open spec fn glyph_areas(gs: Seq<GlyphInput>) -> Seq<int> {
    gs.map_values(|g: GlyphInput| g.width as int * g.height as int)
}

/// The widest glyph's pixel width.
pub open spec fn max_glyph_width(gs: Seq<GlyphInput>) -> int
    decreases gs.len(),
{
    if gs.len() == 0 {
        0
    } else if gs.last().width as int > max_glyph_width(gs.drop_last()) {
        gs.last().width as int
    } else {
        max_glyph_width(gs.drop_last())
    }
}

/// The smallest `w` with `19 * w * w >= 20 * area`: the integer ceiling of
/// `sqrt(area / 0.95)`.
pub open spec fn spec_start_width(area: int) -> int {
    choose|w: int| 0 <= w && 19 * (#[trigger] (w * w)) >= 20 * area
        && (w == 0 || 19 * ((w - 1) * (w - 1)) < 20 * area)
}

/// The width the walk's initial shelf spans: the area-derived start width,
/// widened to the widest glyph.
pub open spec fn spec_pack_width(gs: Seq<GlyphInput>) -> int {
    if spec_start_width(int_sum(glyph_areas(gs))) > max_glyph_width(gs) {
        spec_start_width(int_sum(glyph_areas(gs)))
    } else {
        max_glyph_width(gs)
    }
}

/// Only one width is the smallest square root bound for a given area.
proof fn lemma_start_width_unique(area: int, w1: int, w2: int)
    requires
        area >= 0,
        0 <= w1,
        19 * (w1 * w1) >= 20 * area,
        w1 == 0 || 19 * ((w1 - 1) * (w1 - 1)) < 20 * area,
        0 <= w2,
        19 * (w2 * w2) >= 20 * area,
        w2 == 0 || 19 * ((w2 - 1) * (w2 - 1)) < 20 * area,
    ensures
        w1 == w2,
{
    if w1 < w2 {
        assert(19 * (w1 * w1) <= 19 * ((w2 - 1) * (w2 - 1))) by (nonlinear_arith)
            requires
                0 <= w1 <= w2 - 1,
        ;
    } else if w2 < w1 {
        assert(19 * (w2 * w2) <= 19 * ((w1 - 1) * (w1 - 1))) by (nonlinear_arith)
            requires
                0 <= w2 <= w1 - 1,
        ;
    }
}

/// The most recently added free rectangle that holds a `q`-sided quad, if
/// any.
fn find_space(spaces: &Vec<FreeRect>, q: u64) -> (r: Option<usize>)
    ensures
        match r {
            Some(si) => (si as int) < spaces@.len()
                && q <= spaces@[si as int].w && q <= spaces@[si as int].h
                && forall|k: int| si < k < spaces@.len()
                    ==> !(q <= (#[trigger] spaces@[k]).w && q <= spaces@[k].h),
            None => forall|k: int| 0 <= k < spaces@.len()
                ==> !(q <= (#[trigger] spaces@[k]).w && q <= spaces@[k].h),
        },
{
    let mut i: usize = spaces.len();
    while i > 0
        invariant
            i <= spaces@.len(),
            forall|k: int| i <= k < spaces@.len()
                ==> !(q <= (#[trigger] spaces@[k]).w && q <= spaces@[k].h),
        decreases i,
    {
        i = i - 1;
        if q <= spaces[i].w && q <= spaces[i].h {
            return Some(i);
        }
    }
    None
}

/// Rasterizes nothing and draws nothing: decides where each glyph's quad
/// goes in the shared texture, and copies the bitmaps there.
pub struct GlyphAtlasPacker;

impl GlyphAtlasPacker {
    /// Shelf-packs the glyphs. An initial free rectangle spans the start
    /// width (the integer ceiling of the square root of the total glyph area
    /// divided by the 0.95 fill factor, widened to the widest glyph) by a
    /// generous height bound; each glyph takes the most recently added free
    /// rectangle its quad fits, placed at the rectangle's origin, and the
    /// rectangle is split around it. The atlas extent is the running maximum
    /// over all placements. A glyph whose quad fits no free rectangle is
    /// dropped; the atlas is never grown for it.
    #[verifier::loop_isolation(false)]
    #[verifier::rlimit(100)]
    pub fn pack(glyphs: &Vec<GlyphInput>) -> (r: AtlasLayout)
        requires
            glyphs@.len() <= 0x1_0000,
            forall|i: int| 0 <= i < glyphs@.len()
                ==> (#[trigger] glyphs@[i]).width <= 0xFFFF && glyphs@[i].height <= 0xFFFF,
        ensures
            placements_disjoint(r.placements@),
            forall|k: int| 0 <= k < r.placements@.len() ==> {
                let p = #[trigger] r.placements@[k];
                &&& p.x + p.quad <= r.width
                &&& p.y + p.quad <= r.height
                &&& (p.source as int) < glyphs@.len()
                &&& p.glyph == glyphs@[p.source as int].glyph
                &&& p.width == glyphs@[p.source as int].width
                &&& p.height == glyphs@[p.source as int].height
                &&& p.xmin == glyphs@[p.source as int].xmin
                &&& p.ymin == glyphs@[p.source as int].ymin
                &&& p.quad == spec_quad_size(p.width, p.height)
                &&& p.width <= p.quad
                &&& p.height <= p.quad
            },
            forall|k1: int, k2: int| 0 <= k1 < k2 < r.placements@.len()
                ==> (#[trigger] r.placements@[k1]).source < (#[trigger] r.placements@[k2]).source,
            r.width <= 0x2_0000_0000_0000,
            r.height <= 8192,
            // the result is exactly what the documented greedy walk decides:
            // a glyph is placed where the walk places it, and absent exactly
            // when no free rectangle of the walk held its quad at its turn
            r.placements@ == pack_states(
                glyphs@, spec_pack_width(glyphs@) as u64, glyphs@.len() as int).placements,
            r.width == pack_states(
                glyphs@, spec_pack_width(glyphs@) as u64, glyphs@.len() as int).width,
            r.height == pack_states(
                glyphs@, spec_pack_width(glyphs@) as u64, glyphs@.len() as int).height,
    {
        let n = glyphs.len();

        // total pixel area and widest glyph, for the start width
        let mut area: u64 = 0;
        let mut max_w: u64 = 0;
        let mut i: usize = 0;
        while i < n
            invariant
                i <= n,
                area <= (i as int) * 0x1_0000_0000,
                area == int_sum(glyph_areas(glyphs@.take(i as int))),
                max_w <= 0xFFFF,
                max_w == max_glyph_width(glyphs@.take(i as int)),
            decreases n - i,
        {
            let gw = glyphs[i].width as u64;
            let gh = glyphs[i].height as u64;
            assert(gw * gh < 0x1_0000_0000) by (nonlinear_arith)
                requires
                    gw <= 0xFFFF,
                    gh <= 0xFFFF,
            ;
            proof {
                assert(glyph_areas(glyphs@.take(i as int + 1))
                    =~= glyph_areas(glyphs@.take(i as int)).push(gw as int * gh as int));
                lemma_int_sum_push(glyph_areas(glyphs@.take(i as int)), gw as int * gh as int);
                assert(glyphs@.take(i as int + 1).drop_last() =~= glyphs@.take(i as int));
                assert(glyphs@.take(i as int + 1).last() == glyphs@[i as int]);
            }
            area = area + gw * gh;
            if gw > max_w {
                max_w = gw;
            }
            i = i + 1;
        }
        proof {
            assert(glyphs@.take(n as int) =~= glyphs@);
        }
        assert(area <= 0x1_0000_0000_0000);
        assert(area == int_sum(glyph_areas(glyphs@)));
        assert(max_w == max_glyph_width(glyphs@));
        let sw = start_width_for(area);
        proof {
            let a = area as int;
            assert(exists|w: int| 0 <= w && 19 * (#[trigger] (w * w)) >= 20 * a
                && (w == 0 || 19 * ((w - 1) * (w - 1)) < 20 * a)) by {
                assert(0 <= sw as int && 19 * (#[trigger] ((sw as int) * (sw as int))) >= 20 * a
                    && (sw as int == 0 || 19 * ((sw as int - 1) * (sw as int - 1)) < 20 * a));
            }
            lemma_start_width_unique(a, sw as int, spec_start_width(a));
            assert(sw as int == spec_start_width(a));
        }
        let w0: u64 = if sw > max_w {
            sw
        } else {
            max_w
        };
        assert(w0 as int == spec_pack_width(glyphs@));
        let h0: u64 = 8192;
        assert(w0 <= 0x1_0000_0000_0002);

        let mut spaces: Vec<FreeRect> = Vec::new();
        spaces.push(FreeRect { x: 0, y: 0, w: w0, h: h0 });
        let mut placements: Vec<GlyphPlacement> = Vec::new();
        let mut final_w: u64 = 0;
        let mut final_h: u64 = 0;
        let mut g: usize = 0;
        proof {
            assert(spaces@ =~= pack_states(glyphs@, w0, 0).spaces);
        }
        while g < n
            invariant
                g <= n,
                w0 as int == spec_pack_width(glyphs@),
                spaces@ == pack_states(glyphs@, w0, g as int).spaces,
                placements@ == pack_states(glyphs@, w0, g as int).placements,
                final_w == pack_states(glyphs@, w0, g as int).width,
                final_h == pack_states(glyphs@, w0, g as int).height,
                spaces_wf(spaces@, w0 as int, h0 as int),
                spaces_avoid(spaces@, placements@),
                placements_disjoint(placements@),
                final_w <= w0,
                final_h <= h0,
                forall|m: int| 0 <= m < placements@.len() ==> {
                    let p = #[trigger] placements@[m];
                    &&& p.x + p.quad <= final_w
                    &&& p.y + p.quad <= final_h
                    &&& (p.source as int) < g
                    &&& p.glyph == glyphs@[p.source as int].glyph
                    &&& p.width == glyphs@[p.source as int].width
                    &&& p.height == glyphs@[p.source as int].height
                    &&& p.xmin == glyphs@[p.source as int].xmin
                    &&& p.ymin == glyphs@[p.source as int].ymin
                    &&& p.quad == spec_quad_size(p.width, p.height)
                    &&& p.width <= p.quad
                    &&& p.height <= p.quad
                },
                forall|m1: int, m2: int| 0 <= m1 < m2 < placements@.len()
                    ==> (#[trigger] placements@[m1]).source
                        < (#[trigger] placements@[m2]).source,
            decreases n - g,
        {
            let q = quad_size(glyphs[g].width, glyphs[g].height);
            let ghost st = pack_states(glyphs@, w0, g as int);
            let ghost next = pack_states(glyphs@, w0, g as int + 1);
            proof {
                assert(next == pack_step(st, glyphs@[g as int], g as int));
                assert(q as int == spec_quad_size(glyphs@[g as int].width, glyphs@[g as int].height));
                lemma_fit_index(st.spaces, q);
            }
            match find_space(&spaces, q) {
                Some(si) => {
                    proof {
                        let fi = fit_index(st.spaces, q);
                        assert(fi >= 0) by {
                            if fi == -1 {
                                assert(!(q <= st.spaces[si as int].w && q <= st.spaces[si as int].h));
                            }
                        }
                        assert(fi == si as int) by {
                            if fi < si as int {
                                assert(!(q <= st.spaces[si as int].w && q <= st.spaces[si as int].h));
                            } else if fi > si as int {
                                assert(!(q <= st.spaces[fi].w && q <= st.spaces[fi].h));
                            }
                        }
                    }
                    let ghost spaces0 = spaces@;
                    let ghost placements0 = placements@;
                    let sp = spaces[si];
                    let p = GlyphPlacement {
                        glyph: glyphs[g].glyph,
                        x: sp.x,
                        y: sp.y,
                        quad: q,
                        width: glyphs[g].width,
                        height: glyphs[g].height,
                        xmin: glyphs[g].xmin,
                        ymin: glyphs[g].ymin,
                        source: g,
                    };
                    assert(sp.x + q <= w0 && sp.y + q <= h0);
                    if sp.x + q > final_w {
                        final_w = sp.x + q;
                    }
                    if sp.y + q > final_h {
                        final_h = sp.y + q;
                    }
                    placements.push(p);
                    proof {
                        assert(quad_inside(p, sp));
                        assert forall|m1: int, m2: int| 0 <= m1 < m2 < placements@.len()
                            implies rects_disjoint(
                                (#[trigger] placements@[m1]).x as int, placements@[m1].y as int,
                                placements@[m1].quad as int, placements@[m1].quad as int,
                                (#[trigger] placements@[m2]).x as int, placements@[m2].y as int,
                                placements@[m2].quad as int, placements@[m2].quad as int,
                            ) by {
                            if m2 == placements@.len() - 1 {
                                assert(space_avoids(spaces0[si as int], placements0[m1]));
                                lemma_inside_disjoint(
                                    p.x as int, p.y as int, p.quad as int, p.quad as int,
                                    sp.x as int, sp.y as int, sp.w as int, sp.h as int,
                                    placements0[m1].x as int, placements0[m1].y as int,
                                    placements0[m1].quad as int, placements0[m1].quad as int,
                                );
                            }
                        }
                    }
                    // split the consumed rectangle around the quad
                    proof {
                        assert(placements@ =~= next.placements);
                        assert(final_w == next.width);
                        assert(final_h == next.height);
                    }
                    if q == sp.w && q == sp.h {
                        proof {
                            lemma_split_remove(
                                spaces0, si as int, sp, p, placements0,
                                w0 as int, h0 as int,
                            );
                        }
                        spaces.swap_remove(si);
                        proof {
                            assert(spaces@ =~= next.spaces);
                        }
                    } else if q == sp.h {
                        let s1 = FreeRect { x: sp.x + q, y: sp.y, w: sp.w - q, h: sp.h };
                        proof {
                            lemma_split_update(
                                spaces0, si as int, sp, s1, p, placements0,
                                w0 as int, h0 as int,
                            );
                        }
                        spaces[si] = s1;
                        proof {
                            assert(spaces@ =~= next.spaces);
                        }
                    } else if q == sp.w {
                        let s1 = FreeRect { x: sp.x, y: sp.y + q, w: sp.w, h: sp.h - q };
                        proof {
                            lemma_split_update(
                                spaces0, si as int, sp, s1, p, placements0,
                                w0 as int, h0 as int,
                            );
                        }
                        spaces[si] = s1;
                        proof {
                            assert(spaces@ =~= next.spaces);
                        }
                    } else {
                        let s1 = FreeRect { x: sp.x, y: sp.y + q, w: sp.w, h: sp.h - q };
                        let s2 = FreeRect { x: sp.x + q, y: sp.y, w: sp.w - q, h: q };
                        proof {
                            lemma_split_two(
                                spaces0, si as int, sp, s1, s2, p, placements0,
                                w0 as int, h0 as int,
                            );
                        }
                        spaces[si] = s1;
                        spaces.push(s2);
                        proof {
                            assert(spaces@ =~= next.spaces);
                        }
                    }
                }
                None => {
                    proof {
                        assert(fit_index(st.spaces, q) == -1) by {
                            let fi = fit_index(st.spaces, q);
                            if fi >= 0 {
                                assert(!(q <= spaces@[fi].w && q <= spaces@[fi].h));
                            }
                        }
                        assert(next == st);
                    }
                }
            }
            g = g + 1;
        }
        AtlasLayout { width: final_w, height: final_h, placements }
    }
}

/// The byte index of channel `dx % 4` of atlas pixel
/// `(p.x + dx / 4, p.y + dy)`, in an atlas of the given pixel width.
pub open spec fn atlas_byte(width: int, p: GlyphPlacement, dy: int, dx: int) -> int {
    (p.y + dy) * (4 * width) + 4 * p.x + dx
}

/// Byte `(k, dy, dx)` of the atlas holds byte `dx` of row `dy` of the
/// placed glyph's bitmap.
pub open spec fn glyph_byte_copied(
    r: Seq<u8>,
    glyphs: Seq<GlyphInput>,
    width: int,
    p: GlyphPlacement,
    dy: int,
    dx: int,
) -> bool {
    r[atlas_byte(width, p, dy, dx)] == glyphs[p.source as int].bitmap@[dy * (4 * p.width as int) + dx]
}

/// Bytes in different atlas rows, or at different offsets of one row, have
/// different indices.
proof fn lemma_rows_distinct(w4: int, y1: int, b1: int, y2: int, b2: int)
    by (nonlinear_arith)
    requires
        0 <= b1 < w4,
        0 <= b2 < w4,
        0 <= y1,
        0 <= y2,
        y1 != y2 || b1 != b2,
    ensures
        y1 * w4 + b1 != y2 * w4 + b2,
{
}

/// A glyph byte's index lies inside the atlas buffer.
proof fn lemma_atlas_byte_in_range(width: int, height: int, p: GlyphPlacement, dy: int, dx: int)
    by (nonlinear_arith)
    requires
        0 <= dy,
        0 <= dx,
        p.y + dy < height,
        4 * p.x + dx < 4 * width,
        width >= 0,
    ensures
        0 <= atlas_byte(width, p, dy, dx) < 4 * (width * height),
{
}

/// Bytes of two disjointly placed glyphs, or two distinct bytes of one
/// glyph, have different indices.
proof fn lemma_atlas_bytes_distinct(
    width: int,
    p1: GlyphPlacement, dy1: int, dx1: int,
    p2: GlyphPlacement, dy2: int, dx2: int,
)
    requires
        0 <= dy1 < p1.quad,
        0 <= dx1 < 4 * p1.width as int,
        p1.width <= p1.quad,
        p1.x + p1.quad <= width,
        0 <= dy2 < p2.quad,
        0 <= dx2 < 4 * p2.width as int,
        p2.width <= p2.quad,
        p2.x + p2.quad <= width,
        rects_disjoint(
            p1.x as int, p1.y as int, p1.quad as int, p1.quad as int,
            p2.x as int, p2.y as int, p2.quad as int, p2.quad as int,
        ) || (p1 == p2 && (dy1 != dy2 || dx1 != dx2)),
    ensures
        atlas_byte(width, p1, dy1, dx1) != atlas_byte(width, p2, dy2, dx2),
{
    let y1 = p1.y + dy1;
    let b1 = 4 * p1.x + dx1;
    let y2 = p2.y + dy2;
    let b2 = 4 * p2.x + dx2;
    assert(b1 < 4 * width);
    assert(b2 < 4 * width);
    if y1 == y2 && b1 == b2 {
        // the bytes would be one pixel channel; rule every case out
        if p1 == p2 {
            assert(dy1 == dy2 && dx1 == dx2);
        } else {
            // the x or y ranges of the quads are separated
            assert(!(p1.y + p1.quad <= p2.y) && !(p2.y + p2.quad <= p1.y));
            assert(p1.x + p1.quad <= p2.x || p2.x + p2.quad <= p1.x);
            assert(b1 != b2);
        }
    } else {
        lemma_rows_distinct(4 * width, y1, b1, y2, b2);
    }
}

impl GlyphAtlasPacker {
    /// Allocates the RGBA atlas and copies each placed glyph's bitmap into
    /// its assigned offset: byte `dx` of bitmap row `dy` lands at atlas byte
    /// `(p.y + dy) * 4 * width + 4 * p.x + dx`. Because placements are
    /// disjoint, each glyph's bytes survive all later copies. Bytes no glyph
    /// covers stay zero from the allocation.
    #[verifier::loop_isolation(false)]
    #[verifier::rlimit(100)]
    pub fn blit(glyphs: &Vec<GlyphInput>, layout: &AtlasLayout) -> (r: Vec<u8>)
        requires
            placements_disjoint(layout.placements@),
            forall|k: int| 0 <= k < layout.placements@.len() ==> {
                let p = #[trigger] layout.placements@[k];
                &&& p.x + p.quad <= layout.width
                &&& p.y + p.quad <= layout.height
                &&& (p.source as int) < glyphs@.len()
                &&& p.width <= p.quad
                &&& p.height <= p.quad
                &&& p.quad >= 1
                &&& glyphs@[p.source as int].bitmap@.len()
                    == (p.height as int) * (4 * p.width as int)
                &&& (p.height as int) * (4 * p.width as int) <= usize::MAX
            },
            4 * (layout.width as int) <= u64::MAX,
            4 * ((layout.width as int) * (layout.height as int)) <= usize::MAX,
        ensures
            r@.len() == 4 * ((layout.width as int) * (layout.height as int)),
            forall|k: int, dy: int, dx: int| 0 <= k < layout.placements@.len()
                && 0 <= dy < (#[trigger] layout.placements@[k]).height
                && 0 <= dx < 4 * (layout.placements@[k].width as int)
                ==> #[trigger] glyph_byte_copied(
                    r@, glyphs@, layout.width as int, layout.placements@[k], dy, dx),
    {
        let width = layout.width;
        let height = layout.height;
        proof {
            assert((width as int) * (height as int) >= 0) by (nonlinear_arith);
        }
        let wh: u64 = width * height;
        let sz: usize = (4 * wh) as usize;
        assert(sz == 4 * ((width as int) * (height as int)));
        let mut r: Vec<u8> = vec![0u8; sz];
        assert(r@.len() == 4 * ((width as int) * (height as int)));
        let ghost ps = layout.placements@;
        let nk = layout.placements.len();
        let mut k: usize = 0;
        while k < nk
            invariant
                nk == ps.len(),
                k <= nk,
                r@.len() == 4 * ((width as int) * (height as int)),
                forall|k2: int, dy: int, dx: int| 0 <= k2 < k
                    && 0 <= dy < (#[trigger] ps[k2]).height
                    && 0 <= dx < 4 * (ps[k2].width as int)
                    ==> #[trigger] glyph_byte_copied(r@, glyphs@, width as int, ps[k2], dy, dx),
            decreases nk - k,
        {
            let p = layout.placements[k];
            assert(p == ps[k as int]);
            let rw: u64 = 4 * (p.width as u64);
            let mut dy: u64 = 0;
            while dy < p.height as u64
                invariant
                    p == ps[k as int],
                    (k as int) < ps.len(),
                    dy <= p.height,
                    rw == 4 * (p.width as int),
                    r@.len() == 4 * ((width as int) * (height as int)),
                    forall|k2: int, dy2: int, dx2: int| 0 <= k2 < k
                        && 0 <= dy2 < (#[trigger] ps[k2]).height
                        && 0 <= dx2 < 4 * (ps[k2].width as int)
                        ==> #[trigger] glyph_byte_copied(r@, glyphs@, width as int, ps[k2], dy2, dx2),
                    forall|dy2: int, dx2: int| 0 <= dy2 < dy
                        && 0 <= dx2 < 4 * (p.width as int)
                        ==> #[trigger] glyph_byte_copied(r@, glyphs@, width as int, p, dy2, dx2),
                decreases p.height - dy,
            {
                proof {
                    assert((p.y + dy) * (4 * (width as int)) + 4 * p.x + rw
                        <= 4 * ((width as int) * (height as int))) by (nonlinear_arith)
                        requires
                            0 <= p.y + dy,
                            p.y + dy < height as int,
                            0 <= 4 * p.x + rw <= 4 * (width as int),
                            width as int >= 0,
                            rw == 4 * (p.width as int),
                    ;
                    assert((dy as int) * (4 * (p.width as int)) + 4 * (p.width as int)
                        <= (p.height as int) * (4 * (p.width as int))) by (nonlinear_arith)
                        requires
                            0 <= dy,
                            dy + 1 <= p.height as int,
                    ;
                }
                let rowbase: u64 = (p.y + dy) * (4 * width) + 4 * p.x;
                let srcbase: u64 = dy * rw;
                let mut dx: u64 = 0;
                while dx < rw
                    invariant
                        p == ps[k as int],
                        (k as int) < ps.len(),
                        dx <= rw,
                        dy < p.height,
                        rw == 4 * (p.width as int),
                        rowbase == (p.y + dy as int) * (4 * (width as int)) + 4 * p.x,
                        srcbase == dy * (4 * (p.width as int)),
                        r@.len() == 4 * ((width as int) * (height as int)),
                        forall|k2: int, dy2: int, dx2: int| 0 <= k2 < k
                            && 0 <= dy2 < (#[trigger] ps[k2]).height
                            && 0 <= dx2 < 4 * (ps[k2].width as int)
                            ==> #[trigger] glyph_byte_copied(r@, glyphs@, width as int, ps[k2], dy2, dx2),
                        forall|dy2: int, dx2: int| 0 <= dy2 < dy
                            && 0 <= dx2 < 4 * (p.width as int)
                            ==> #[trigger] glyph_byte_copied(r@, glyphs@, width as int, p, dy2, dx2),
                        forall|dx2: int| 0 <= dx2 < dx
                            ==> #[trigger] glyph_byte_copied(r@, glyphs@, width as int, p, dy as int, dx2),
                    decreases rw - dx,
                {
                    let ghost r0 = r@;
                    proof {
                        lemma_atlas_byte_in_range(
                            width as int, height as int, p, dy as int, dx as int);
                    }
                    let b = glyphs[p.source].bitmap[(srcbase + dx) as usize];
                    let idx: usize = (rowbase + dx) as usize;
                    assert(idx as int == atlas_byte(width as int, p, dy as int, dx as int));
                    r[idx] = b;
                    proof {
                        let w = width as int;
                        assert forall|k2: int, dy2: int, dx2: int| 0 <= k2 < k
                            && 0 <= dy2 < (#[trigger] ps[k2]).height
                            && 0 <= dx2 < 4 * (ps[k2].width as int)
                            implies #[trigger] glyph_byte_copied(r@, glyphs@, w, ps[k2], dy2, dx2) by {
                            lemma_atlas_byte_in_range(w, height as int, ps[k2], dy2, dx2);
                            lemma_atlas_bytes_distinct(
                                w, ps[k2], dy2, dx2, p, dy as int, dx as int);
                            assert(glyph_byte_copied(r0, glyphs@, w, ps[k2], dy2, dx2));
                            assert(r@[atlas_byte(w, ps[k2], dy2, dx2)]
                                == r0[atlas_byte(w, ps[k2], dy2, dx2)]);
                        }
                        assert forall|dy2: int, dx2: int| 0 <= dy2 < dy
                            && 0 <= dx2 < 4 * (p.width as int)
                            implies #[trigger] glyph_byte_copied(r@, glyphs@, w, p, dy2, dx2) by {
                            lemma_atlas_byte_in_range(w, height as int, p, dy2, dx2);
                            lemma_atlas_bytes_distinct(
                                w, p, dy2, dx2, p, dy as int, dx as int);
                            assert(glyph_byte_copied(r0, glyphs@, w, p, dy2, dx2));
                            assert(r@[atlas_byte(w, p, dy2, dx2)]
                                == r0[atlas_byte(w, p, dy2, dx2)]);
                        }
                        assert forall|dx2: int| 0 <= dx2 < dx + 1
                            implies #[trigger] glyph_byte_copied(r@, glyphs@, w, p, dy as int, dx2) by {
                            if dx2 < dx {
                                lemma_atlas_byte_in_range(w, height as int, p, dy as int, dx2);
                                lemma_atlas_bytes_distinct(
                                    w, p, dy as int, dx2, p, dy as int, dx as int);
                                assert(glyph_byte_copied(r0, glyphs@, w, p, dy as int, dx2));
                                assert(r@[atlas_byte(w, p, dy as int, dx2)]
                                    == r0[atlas_byte(w, p, dy as int, dx2)]);
                            } else {
                                assert(r@[atlas_byte(w, p, dy as int, dx as int)] == b);
                            }
                        }
                    }
                    dx = dx + 1;
                }
                dy = dy + 1;
            }
            proof {
                assert forall|k2: int, dy2: int, dx2: int| 0 <= k2 < k + 1
                    && 0 <= dy2 < (#[trigger] ps[k2]).height
                    && 0 <= dx2 < 4 * (ps[k2].width as int)
                    implies #[trigger] glyph_byte_copied(r@, glyphs@, width as int, ps[k2], dy2, dx2) by {
                    if k2 == k {
                        assert(glyph_byte_copied(r@, glyphs@, width as int, p, dy2, dx2));
                    }
                }
            }
            k = k + 1;
        }
        r
    }
}

} // verus!
