use anura::atlas::{GlyphAtlasPacker, GlyphInput, GlyphPlacement};

fn glyph(c: char, width: u32, height: u32, fill: u8) -> GlyphInput {
    let mut bitmap = Vec::new();
    for i in 0..(width * height * 4) {
        bitmap.push(fill.wrapping_add((i % 251) as u8));
    }
    GlyphInput { glyph: c, width, height, bitmap, xmin: 0, ymin: 0 }
}

fn overlap(a: &GlyphPlacement, b: &GlyphPlacement) -> bool {
    !(a.x + a.quad <= b.x || b.x + b.quad <= a.x || a.y + a.quad <= b.y || b.y + b.quad <= a.y)
}

#[test]
fn quad_sizes_round_up_to_sixteens() {
    let layout = GlyphAtlasPacker::pack(&vec![glyph('a', 1000, 990, 1)]);
    assert_eq!(layout.placements.len(), 1);
    // both sides round up to the next multiple of 16; the quad is the larger
    assert_eq!(layout.placements[0].quad, 1008);
    assert!(layout.width >= 1008);
    assert!(layout.height >= 1008);
}

#[test]
fn tiny_glyphs_are_dropped_when_the_start_width_is_narrow() {
    // one 10 by 20 glyph: the area-derived start width (15) is narrower than
    // the glyph's padded 32-pixel quad, so the shelf never fits it and the
    // packer drops it
    let layout = GlyphAtlasPacker::pack(&vec![glyph('a', 10, 20, 1)]);
    assert!(layout.placements.is_empty());
}

#[test]
fn packed_quads_never_overlap_and_fit_the_extent() {
    let glyphs = vec![
        glyph('a', 40, 42, 1),
        glyph('b', 44, 38, 2),
        glyph('c', 35, 40, 3),
        glyph('d', 47, 47, 4),
        glyph('e', 33, 31, 5),
    ];
    let layout = GlyphAtlasPacker::pack(&glyphs);
    assert_eq!(layout.placements.len(), 5);
    for (i, p) in layout.placements.iter().enumerate() {
        assert!(p.x + p.quad <= layout.width);
        assert!(p.y + p.quad <= layout.height);
        assert!(p.width as u64 <= p.quad);
        assert!(p.height as u64 <= p.quad);
        for q in layout.placements.iter().skip(i + 1) {
            assert!(!overlap(p, q));
        }
    }
    // sources stay in input order, one placement per glyph
    let sources: Vec<usize> = layout.placements.iter().map(|p| p.source).collect();
    assert_eq!(sources, vec![0, 1, 2, 3, 4]);
}

#[test]
fn oversized_glyph_is_dropped() {
    // its quad (9008) exceeds the packer's height bound, so no free
    // rectangle ever fits it
    let huge = GlyphInput {
        glyph: 'x',
        width: 9000,
        height: 9000,
        bitmap: Vec::new(),
        xmin: 0,
        ymin: 0,
    };
    let layout = GlyphAtlasPacker::pack(&vec![huge]);
    assert!(layout.placements.is_empty());
}

#[test]
fn blit_copies_each_bitmap_to_its_offset() {
    let glyphs = vec![glyph('a', 40, 40, 0x11), glyph('b', 44, 20, 0x22)];
    let layout = GlyphAtlasPacker::pack(&glyphs);
    assert_eq!(layout.placements.len(), 2);
    let atlas = GlyphAtlasPacker::blit(&glyphs, &layout);
    assert_eq!(atlas.len() as u64, 4 * layout.width * layout.height);
    for p in &layout.placements {
        let src = &glyphs[p.source];
        for dy in 0..p.height as u64 {
            for dx in 0..(4 * p.width as u64) {
                let atlas_at = ((p.y + dy) * 4 * layout.width + 4 * p.x + dx) as usize;
                let src_at = (dy * 4 * p.width as u64 + dx) as usize;
                assert_eq!(atlas[atlas_at], src.bitmap[src_at]);
            }
        }
    }
}
