use mesh::font::{atlas_size, pack_glyphs, GlyphBitmap, GlyphPlacement};

fn glyph(width: i32, rows: i32, fill: u8) -> GlyphBitmap {
    let n = (width.max(0) * rows.max(0)) as usize;
    GlyphBitmap { width, rows, pitch: width, buffer: (0..n).map(|i| fill + i as u8).collect() }
}

#[test]
fn atlas_side_is_the_next_power_of_two() {
    assert_eq!(atlas_size(-5), 1);
    assert_eq!(atlas_size(0), 1);
    assert_eq!(atlas_size(1), 1);
    assert_eq!(atlas_size(2), 2);
    assert_eq!(atlas_size(3), 4);
    assert_eq!(atlas_size(1000), 1024);
    assert_eq!(atlas_size(1024), 1024);
    assert_eq!(atlas_size(1025), 2048);
    assert_eq!(atlas_size(1 << 30), 1 << 30);
}

#[test]
fn glyphs_go_left_to_right_and_wrap() {
    let glyphs = vec![glyph(2, 2, 1), glyph(3, 1, 10), glyph(2, 2, 20)];
    let (bitmap, placed) = pack_glyphs(&glyphs, 8, 3).unwrap();
    assert_eq!(
        placed,
        vec![GlyphPlacement { x: 0, y: 0 }, GlyphPlacement { x: 3, y: 0 }, GlyphPlacement { x: 0, y: 3 }]
    );
    assert_eq!(bitmap.len(), 64);
    assert_eq!(&bitmap[0..8], &[1, 2, 0, 10, 11, 12, 0, 0]);
    assert_eq!(&bitmap[8..16], &[3, 4, 0, 0, 0, 0, 0, 0]);
    assert_eq!(&bitmap[24..32], &[20, 21, 0, 0, 0, 0, 0, 0]);
    assert_eq!(&bitmap[32..40], &[22, 23, 0, 0, 0, 0, 0, 0]);
    assert_eq!(bitmap.iter().filter(|b| **b != 0).count(), 11);
}

#[test]
fn glyph_reaching_the_edge_wraps() {
    let glyphs = vec![glyph(4, 1, 1), glyph(4, 1, 5)];
    let (bitmap, placed) = pack_glyphs(&glyphs, 8, 2).unwrap();
    assert_eq!(placed, vec![GlyphPlacement { x: 0, y: 0 }, GlyphPlacement { x: 0, y: 2 }]);
    assert_eq!(&bitmap[16..20], &[5, 6, 7, 8]);
}

#[test]
fn pitch_longer_than_width_skips_padding() {
    let g = GlyphBitmap { width: 2, rows: 2, pitch: 3, buffer: vec![1, 2, 99, 3, 4, 99] };
    let (bitmap, _) = pack_glyphs(&vec![g], 4, 2).unwrap();
    assert_eq!(bitmap, vec![1, 2, 0, 0, 3, 4, 0, 0, 0, 0, 0, 0, 0, 0, 0, 0]);
}

#[test]
fn empty_and_blank_glyphs_only_move_the_pen() {
    let glyphs = vec![glyph(0, 0, 0), glyph(1, 0, 0), glyph(1, 1, 9)];
    let (bitmap, placed) = pack_glyphs(&glyphs, 4, 1).unwrap();
    assert_eq!(placed[1], GlyphPlacement { x: 1, y: 0 });
    assert_eq!(placed[2], GlyphPlacement { x: 0, y: 1 });
    assert_eq!(bitmap[4], 9);
    assert_eq!(bitmap.iter().filter(|b| **b != 0).count(), 1);
    assert_eq!(pack_glyphs(&vec![], 2, 1).unwrap(), (vec![0; 4], vec![]));
}

#[test]
fn glyph_below_the_atlas_is_refused() {
    let glyphs = vec![glyph(3, 1, 1), glyph(3, 2, 1)];
    assert!(pack_glyphs(&glyphs, 4, 2).is_some());
    let glyphs = vec![glyph(3, 1, 1), glyph(3, 3, 1)];
    assert!(pack_glyphs(&glyphs, 4, 2).is_none());
}

#[test]
fn short_glyph_buffer_is_refused() {
    let g = GlyphBitmap { width: 2, rows: 2, pitch: 2, buffer: vec![1, 2, 3] };
    assert!(pack_glyphs(&vec![g], 8, 2).is_none());
}

#[test]
fn negative_pitch_is_refused() {
    let g = GlyphBitmap { width: 1, rows: 2, pitch: -1, buffer: vec![1, 2] };
    assert!(pack_glyphs(&vec![g], 8, 2).is_none());
    let g = GlyphBitmap { width: 1, rows: 1, pitch: -1, buffer: vec![1] };
    assert!(pack_glyphs(&vec![g], 8, 2).is_some());
}

#[test]
fn glyph_wider_than_the_atlas_runs_into_the_next_row() {
    let (bitmap, placed) = pack_glyphs(&vec![glyph(5, 1, 1)], 4, 1).unwrap();
    assert_eq!(placed, vec![GlyphPlacement { x: 0, y: 1 }]);
    assert_eq!(&bitmap[4..9], &[1, 2, 3, 4, 5]);
    assert!(pack_glyphs(&vec![glyph(5, 3, 1)], 4, 1).is_none());
}

#[test]
fn pen_overflowing_i32_is_refused() {
    let wide = GlyphBitmap { width: i32::MAX, rows: 0, pitch: 0, buffer: vec![] };
    assert!(pack_glyphs(&vec![wide], 4, 1).is_none());
}

#[test]
fn every_packed_glyph_reads_back() {
    let glyphs = vec![glyph(3, 2, 1), glyph(2, 3, 40), glyph(4, 1, 80), glyph(1, 3, 120)];
    let tex = 8;
    let (bitmap, placed) = pack_glyphs(&glyphs, tex, 3).unwrap();
    for (g, p) in glyphs.iter().zip(&placed) {
        assert!(p.x == 0 || p.x + g.width < tex);
        for row in 0..g.rows {
            for col in 0..g.width {
                let at = ((p.y + row) * tex + p.x + col) as usize;
                assert_eq!(bitmap[at], g.buffer[(row * g.pitch + col) as usize]);
            }
        }
    }
    for w in placed.windows(2) {
        assert!(w[1].y >= w[0].y + 3 || w[1].y == w[0].y && w[1].x > w[0].x);
    }
}

#[test]
fn bytes_no_glyph_covers_stay_zero() {
    let glyphs = vec![glyph(3, 2, 1), glyph(2, 1, 50)];
    let tex = 8;
    let (bitmap, placed) = pack_glyphs(&glyphs, tex, 3).unwrap();
    for (i, byte) in bitmap.iter().enumerate() {
        let covered = glyphs.iter().zip(&placed).any(|(g, p)| {
            (0..g.rows).any(|r| (0..g.width).any(|c| ((p.y + r) * tex + p.x + c) as usize == i))
        });
        if !covered {
            assert_eq!(*byte, 0);
        }
    }
}
