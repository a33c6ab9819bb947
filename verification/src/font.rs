//! Packing rendered glyph bitmaps into one square texture atlas.
use vstd::prelude::*;
use vstd::arithmetic::power2::{pow2, lemma2_to64, lemma_pow2_unfold, lemma_pow2_strictly_increases};

verus! {

/// A rendered glyph: `rows` rows of `width` bytes each; row `r` starts at
/// `r * pitch` in `buffer`.
pub struct GlyphBitmap {
    pub width: i32,
    pub rows: i32,
    pub pitch: i32,
    pub buffer: Vec<u8>,
}

/// Where a glyph's top-left corner was put in the atlas, in pixels.
#[derive(Clone, Copy, Debug, PartialEq, Eq, Structural)]
pub struct GlyphPlacement {
    pub x: i32,
    pub y: i32,
}

/// `v` fits in an `i32`.
pub open spec fn in_i32(v: int) -> bool {
    i32::MIN <= v <= i32::MAX
}

/// Where a glyph of `width` goes when the pen stands at `pen`: on the same line if it
/// ends left of the texture's edge, else at the start of the next line, `line` further down.
pub open spec fn wrap_pen(pen: (int, int), width: int, tex: int, line: int) -> (int, int) {
    if pen.0 + width >= tex {
        (0, pen.1 + line)
    } else {
        pen
    }
}

/// The pen before glyph `k`: it starts at the origin and, after each glyph, stands one
/// pixel right of that glyph.
pub open spec fn pen_before(glyphs: Seq<GlyphBitmap>, tex: int, line: int, k: nat) -> (int, int)
    decreases k,
{
    if k == 0 || k > glyphs.len() {
        (0, 0)
    } else {
        let w = glyphs[k - 1].width as int;
        let p = wrap_pen(pen_before(glyphs, tex, line, (k - 1) as nat), w, tex, line);
        (p.0 + w + 1, p.1)
    }
}

/// Where glyph `k` is put.
pub open spec fn placement_of(glyphs: Seq<GlyphBitmap>, tex: int, line: int, k: nat) -> (int, int) {
    wrap_pen(pen_before(glyphs, tex, line, k), glyphs[k as int].width as int, tex, line)
}

/// Copying the byte at (`row`, `col`) of `g`, put at `p`, into a `tex` x `tex` atlas
/// stays within `i32` arithmetic and within both buffers.
pub open spec fn pixel_ok(g: GlyphBitmap, tex: int, p: (int, int), row: int, col: int) -> bool {
    let x = p.0 + col;
    let y = p.1 + row;
    &&& in_i32(x)
    &&& in_i32(y)
    &&& in_i32(y * tex)
    &&& in_i32(y * tex + x)
    &&& 0 <= y * tex + x < tex * tex
    &&& in_i32(row * g.pitch)
    &&& in_i32(row * g.pitch + col)
    &&& 0 <= row * g.pitch + col < g.buffer@.len()
}

/// Placing `g` with the pen at `pen`, copying it and moving the pen on stays within
/// `i32` arithmetic and within both buffers.
pub open spec fn glyph_ok(g: GlyphBitmap, tex: int, line: int, pen: (int, int)) -> bool {
    let w = g.width as int;
    let p = wrap_pen(pen, w, tex, line);
    &&& in_i32(pen.0 + w)
    &&& (pen.0 + w >= tex ==> in_i32(pen.1 + line))
    &&& forall|row: int, col: int|
        0 <= row < g.rows && 0 <= col < w ==> #[trigger] pixel_ok(g, tex, p, row, col)
    &&& in_i32(w + 1)
    &&& in_i32(p.0 + w + 1)
}

/// Every glyph can be packed in turn.
pub open spec fn packs(glyphs: Seq<GlyphBitmap>, tex: int, line: int) -> bool {
    forall|k: int|
        0 <= k < glyphs.len() ==> #[trigger] glyph_ok(
            glyphs[k],
            tex,
            line,
            pen_before(glyphs, tex, line, k as nat),
        )
}

/// The first `ncols` bytes of row `row` of `g`, put at `p`, copied into `bm` left to right.
pub open spec fn write_row(bm: Seq<u8>, g: GlyphBitmap, tex: int, p: (int, int), row: int, ncols: int) -> Seq<u8>
    decreases ncols,
{
    if ncols <= 0 {
        bm
    } else {
        let col = ncols - 1;
        let before = write_row(bm, g, tex, p, row, col);
        let at = (p.1 + row) * tex + p.0 + col;
        if 0 <= at < before.len() {
            before.update(at, g.buffer@[row * g.pitch + col])
        } else {
            before
        }
    }
}

/// The first `nrows` rows of `g`, put at `p`, copied into `bm` top to bottom.
pub open spec fn write_glyph(bm: Seq<u8>, g: GlyphBitmap, tex: int, p: (int, int), nrows: int) -> Seq<u8>
    decreases nrows,
{
    if nrows <= 0 {
        bm
    } else {
        write_row(write_glyph(bm, g, tex, p, nrows - 1), g, tex, p, nrows - 1, g.width as int)
    }
}

/// The atlas after the first `n` glyphs were copied in, each at its placement, into a
/// zeroed `tex` x `tex` texture.
pub open spec fn atlas_after(glyphs: Seq<GlyphBitmap>, tex: int, line: int, n: nat) -> Seq<u8>
    decreases n,
{
    if n == 0 || n > glyphs.len() {
        Seq::new((tex * tex) as nat, |i: int| 0u8)
    } else {
        let k = (n - 1) as nat;
        write_glyph(
            atlas_after(glyphs, tex, line, k),
            glyphs[k as int],
            tex,
            placement_of(glyphs, tex, line, k),
            glyphs[k as int].rows as int,
        )
    }
}

proof fn lemma_product_fits_i64(a: int, b: int)
    by (nonlinear_arith)
    requires
        in_i32(a),
        in_i32(b),
    ensures
        i64::MIN < a * b <= i64::MAX,
{
}

/// The atlas index and buffer index of byte (`row`, `col`) of `g` put at `(px, py)`,
/// or `None` where that byte would fall outside `i32` arithmetic or either buffer.
fn pixel_index(g: &GlyphBitmap, tex: i32, px: i32, py: i32, row: i32, col: i32) -> (r: Option<(usize, usize)>)
    requires
        0 < tex,
        0 <= row,
        0 <= col,
    ensures
        r is Some <==> pixel_ok(*g, tex as int, (px as int, py as int), row as int, col as int),
        r matches Some((at, from)) ==> {
            &&& at == (py + row) * tex + px + col
            &&& from == row * g.pitch + col
        },
{
    let ghost t = tex as int;
    let x: i64 = px as i64 + col as i64;
    let y: i64 = py as i64 + row as i64;
    if x < -2147483648i64 || x > 2147483647i64 || y < -2147483648i64 || y > 2147483647i64 {
        return None;
    }
    proof {
        lemma_product_fits_i64(y as int, t);
        lemma_product_fits_i64(t, t);
        lemma_product_fits_i64(row as int, g.pitch as int);
    }
    let size: i64 = (tex as i64) * (tex as i64);
    let yt: i64 = y * (tex as i64);
    if yt < -2147483648i64 || yt > 2147483647i64 {
        return None;
    }
    let at: i64 = yt + x;
    if at < 0 || at > 2147483647i64 || at >= size {
        return None;
    }
    let rp: i64 = (row as i64) * (g.pitch as i64);
    if rp < -2147483648i64 || rp > 2147483647i64 {
        return None;
    }
    let from: i64 = rp + col as i64;
    if from < 0 || from > 2147483647i64 {
        return None;
    }
    if from as usize >= g.buffer.len() {
        return None;
    }
    Some((at as usize, from as usize))
}

/// Copies one glyph into `bitmap` at `(px, py)`; `false` as soon as a byte would fall
/// outside `i32` arithmetic or either buffer.
fn copy_glyph(bitmap: &mut Vec<u8>, g: &GlyphBitmap, tex: i32, px: i32, py: i32) -> (ok: bool)
    requires
        0 < tex,
        old(bitmap)@.len() == tex * tex,
    ensures
        ok <==> forall|row: int, col: int|
            0 <= row < g.rows && 0 <= col < g.width ==> #[trigger] pixel_ok(*g, tex as int, (px as int, py as int), row, col),
        ok ==> final(bitmap)@ == write_glyph(old(bitmap)@, *g, tex as int, (px as int, py as int), g.rows as int),
        final(bitmap)@.len() == old(bitmap)@.len(),
{
    let ghost p = (px as int, py as int);
    let ghost t = tex as int;
    let ghost start = bitmap@;
    let mut row: i32 = 0;
    while row < g.rows
        invariant
            0 <= row,
            row <= g.rows || g.rows < 0,
            g.rows < 0 ==> row == 0,
            0 < tex,
            t == tex,
            p == (px as int, py as int),
            bitmap@.len() == t * t,
            start == old(bitmap)@,
            start.len() == t * t,
            forall|r: int, c: int| 0 <= r < row && 0 <= c < g.width ==> #[trigger] pixel_ok(*g, t, p, r, c),
            bitmap@ == write_glyph(start, *g, t, p, row as int),
        decreases g.rows - row,
    {
        let ghost before_row = bitmap@;
        let mut col: i32 = 0;
        while col < g.width
            invariant
                0 <= row < g.rows,
                0 <= col,
                col <= g.width || g.width < 0,
                g.width < 0 ==> col == 0,
                0 < tex,
                t == tex,
                p == (px as int, py as int),
                bitmap@.len() == t * t,
                start == old(bitmap)@,
                start.len() == t * t,
                before_row == write_glyph(start, *g, t, p, row as int),
                forall|r: int, c: int| 0 <= r < row && 0 <= c < g.width ==> #[trigger] pixel_ok(*g, t, p, r, c),
                forall|c: int| 0 <= c < col ==> #[trigger] pixel_ok(*g, t, p, row as int, c),
                bitmap@ == write_row(before_row, *g, t, p, row as int, col as int),
            decreases g.width - col,
        {
            match pixel_index(g, tex, px, py, row, col) {
                None => {
                    return false;
                },
                Some((at, from)) => {
                    let byte: u8 = g.buffer[from];
                    bitmap.set(at, byte);
                },
            }
            col = col + 1;
        }
        proof {
            if g.width < 0 {
                assert(write_row(before_row, *g, t, p, row as int, g.width as int) == before_row);
            }
            assert(write_glyph(start, *g, t, p, row + 1) == write_row(
                write_glyph(start, *g, t, p, row as int),
                *g,
                t,
                p,
                row as int,
                g.width as int,
            ));
        }
        row = row + 1;
    }
    proof {
        if g.rows < 0 {
            assert(write_glyph(start, *g, t, p, g.rows as int) == start);
        }
    }
    true
}

proof fn lemma_glyph_fails(glyphs: Seq<GlyphBitmap>, tex: int, line: int, k: int)
    requires
        0 <= k < glyphs.len(),
        !glyph_ok(glyphs[k], tex, line, pen_before(glyphs, tex, line, k as nat)),
    ensures
        !packs(glyphs, tex, line),
{
}

/// Packs the glyphs, in order, into a zeroed `tex` x `tex` atlas: each one to the right
/// of the previous one with one pixel between them, wrapping to a line `line` pixels
/// further down when it would reach the right edge. Gives the atlas and where each
/// glyph went, or `None` when some glyph would fall outside `i32` arithmetic or
/// outside the atlas or its own buffer.
pub fn pack_glyphs(glyphs: &Vec<GlyphBitmap>, tex: i32, line: i32) -> (r: Option<(Vec<u8>, Vec<GlyphPlacement>)>)
    requires
        0 < tex,
        tex * tex <= usize::MAX,
    ensures
        r is Some <==> packs(glyphs@, tex as int, line as int),
        r matches Some((bitmap, placed)) ==> {
            &&& bitmap@ == atlas_after(glyphs@, tex as int, line as int, glyphs@.len())
            &&& placed@.len() == glyphs@.len()
            &&& forall|k: int|
                0 <= k < glyphs@.len() ==> (#[trigger] placed@[k].x as int, placed@[k].y as int)
                    == placement_of(glyphs@, tex as int, line as int, k as nat)
        },
{
    let ghost t = tex as int;
    let ghost l = line as int;
    let size: usize = (tex as usize) * (tex as usize);
    let mut bitmap: Vec<u8> = vec![0u8; size];
    proof {
        assert(bitmap@ =~= atlas_after(glyphs@, t, l, 0));
    }
    let mut placed: Vec<GlyphPlacement> = Vec::new();
    let mut pen_x: i32 = 0;
    let mut pen_y: i32 = 0;
    let mut k: usize = 0;
    while k < glyphs.len()
        invariant
            k <= glyphs@.len(),
            0 < tex,
            t == tex,
            l == line,
            (pen_x as int, pen_y as int) == pen_before(glyphs@, t, l, (k as int) as nat),
            forall|j: int| 0 <= j < k ==> #[trigger] glyph_ok(glyphs@[j], t, l, pen_before(glyphs@, t, l, j as nat)),
            bitmap@ == atlas_after(glyphs@, t, l, k as nat),
            bitmap@.len() == t * t,
            placed@.len() == k,
            forall|j: int|
                0 <= j < k ==> (#[trigger] placed@[j].x as int, placed@[j].y as int) == placement_of(glyphs@, t, l, j as nat),
        decreases glyphs@.len() - k,
    {
        let g = &glyphs[k];
        let ghost pen = (pen_x as int, pen_y as int);
        let ghost w = g.width as int;
        let end: i64 = pen_x as i64 + g.width as i64;
        if end < -2147483648i64 || end > 2147483647i64 {
            proof { lemma_glyph_fails(glyphs@, t, l, k as int); }
            return None;
        }
        let mut px: i32 = pen_x;
        let mut py: i32 = pen_y;
        if end >= tex as i64 {
            let down: i64 = pen_y as i64 + line as i64;
            if down < -2147483648i64 || down > 2147483647i64 {
                assert(!glyph_ok(glyphs@[k as int], t, l, pen_before(glyphs@, t, l, (k as int) as nat)));
                    return None;
            }
            px = 0;
            py = down as i32;
        }
        assert((px as int, py as int) == placement_of(glyphs@, t, l, k as nat));
        if !copy_glyph(&mut bitmap, g, tex, px, py) {
            proof { lemma_glyph_fails(glyphs@, t, l, k as int); }
            return None;
        }
        placed.push(GlyphPlacement { x: px, y: py });
        let step: i64 = g.width as i64 + 1;
        let next: i64 = px as i64 + step;
        if step > 2147483647i64 || next < -2147483648i64 || next > 2147483647i64 {
            proof { lemma_glyph_fails(glyphs@, t, l, k as int); }
            return None;
        }
        assert(glyph_ok(glyphs@[k as int], t, l, pen_before(glyphs@, t, l, (k as int) as nat)));
        pen_x = next as i32;
        pen_y = py;
        k = k + 1;
    }
    Some((bitmap, placed))
}

/// The side of the atlas for glyphs that need `max_dim` pixels in each direction: the
/// smallest power of two (1 at least) that is not below `max_dim`.
pub fn atlas_size(max_dim: i32) -> (size: i32)
    requires
        max_dim <= 0x4000_0000,
    ensures
        exists|e: nat| e <= 30 && size == pow2(e),
        size >= max_dim,
        size >= 1,
        size == 1 || size / 2 < max_dim,
{
    let mut size: i32 = 1;
    let ghost mut e: nat = 0;
    proof {
        lemma2_to64();
    }
    while size < max_dim
        invariant
            e <= 30,
            size == pow2(e),
            1 <= size,
            size == 1 || size / 2 < max_dim,
            max_dim <= 0x4000_0000,
        decreases 30 - e,
    {
        proof {
            lemma2_to64();
            if e >= 30 {
                if e > 30 {
                    lemma_pow2_strictly_increases(30, e);
                }
                assert(false);
            }
            if e < 29 {
                lemma_pow2_strictly_increases(e, 29);
            }
            lemma_pow2_unfold(e + 1);
        }
        assert(size <= 0x2000_0000);
        assert(size << 1i32 == size * 2) by (bit_vector)
            requires
                1 <= size <= 0x2000_0000,
        ;
        size = size << 1i32;
        proof {
            e = e + 1;
        }
    }
    size
}

/// The atlas index of byte (`row`, `col`) of a glyph put at `p`.
pub open spec fn atlas_index(tex: int, p: (int, int), row: int, col: int) -> int {
    (p.1 + row) * tex + p.0 + col
}

proof fn lemma_write_row_keeps_len(bm: Seq<u8>, g: GlyphBitmap, tex: int, p: (int, int), row: int, ncols: int)
    ensures
        write_row(bm, g, tex, p, row, ncols).len() == bm.len(),
    decreases ncols,
{
    if ncols > 0 {
        lemma_write_row_keeps_len(bm, g, tex, p, row, ncols - 1);
    }
}

proof fn lemma_write_glyph_keeps_len(bm: Seq<u8>, g: GlyphBitmap, tex: int, p: (int, int), nrows: int)
    ensures
        write_glyph(bm, g, tex, p, nrows).len() == bm.len(),
    decreases nrows,
{
    if nrows > 0 {
        lemma_write_glyph_keeps_len(bm, g, tex, p, nrows - 1);
        lemma_write_row_keeps_len(write_glyph(bm, g, tex, p, nrows - 1), g, tex, p, nrows - 1, g.width as int);
    }
}

/// Writing the first `ncols` bytes of row `row` leaves every index that none of them
/// goes to as it was.
proof fn lemma_write_row_elsewhere(bm: Seq<u8>, g: GlyphBitmap, tex: int, p: (int, int), row: int, ncols: int, i: int)
    requires
        0 <= i < bm.len(),
        forall|c: int| 0 <= c < ncols ==> atlas_index(tex, p, row, c) != i,
    ensures
        write_row(bm, g, tex, p, row, ncols)[i] == bm[i],
    decreases ncols,
{
    if ncols > 0 {
        lemma_write_row_elsewhere(bm, g, tex, p, row, ncols - 1, i);
        lemma_write_row_keeps_len(bm, g, tex, p, row, ncols - 1);
        assert(atlas_index(tex, p, row, ncols - 1) != i);
    }
}

/// Within the row being written, byte `col` ends up where it belongs.
proof fn lemma_write_row_reads_back(bm: Seq<u8>, g: GlyphBitmap, tex: int, p: (int, int), row: int, ncols: int, col: int)
    requires
        0 <= col < ncols,
        0 <= atlas_index(tex, p, row, col) < bm.len(),
    ensures
        write_row(bm, g, tex, p, row, ncols)[atlas_index(tex, p, row, col)] == g.buffer@[row * g.pitch + col],
    decreases ncols,
{
    lemma_write_row_keeps_len(bm, g, tex, p, row, ncols - 1);
    if col < ncols - 1 {
        lemma_write_row_reads_back(bm, g, tex, p, row, ncols - 1, col);
    }
}

proof fn lemma_later_rows_lie_further_on(tex: int, y: int, r: int, r2: int, x: int, c: int, c2: int)
    by (nonlinear_arith)
    requires
        0 < tex,
        r < r2,
        0 <= x,
        0 <= c,
        0 <= c2,
        x + c < tex,
    ensures
        (y + r) * tex + x + c < (y + r2) * tex + x + c2,
{
    assert((y + r2) * tex >= (y + r + 1) * tex);
}

/// A glyph that fits, copied in whole at `p` without running past the right edge of the
/// atlas, reads back byte for byte: byte (`row`, `col`) of the glyph is at
/// `atlas_index(tex, p, row, col)`.
pub proof fn lemma_copied_glyph_reads_back(bm: Seq<u8>, g: GlyphBitmap, tex: int, p: (int, int), row: int, col: int)
    requires
        0 < tex,
        bm.len() == tex * tex,
        0 <= p.0,
        p.0 + g.width <= tex,
        forall|r: int, c: int| 0 <= r < g.rows && 0 <= c < g.width ==> #[trigger] pixel_ok(g, tex, p, r, c),
        0 <= row < g.rows,
        0 <= col < g.width,
    ensures
        write_glyph(bm, g, tex, p, g.rows as int)[atlas_index(tex, p, row, col)] == g.buffer@[row * g.pitch + col],
{
    lemma_rows_read_back(bm, g, tex, p, g.rows as int, row, col);
}

proof fn lemma_rows_read_back(bm: Seq<u8>, g: GlyphBitmap, tex: int, p: (int, int), nrows: int, row: int, col: int)
    requires
        0 < tex,
        bm.len() == tex * tex,
        0 <= p.0,
        p.0 + g.width <= tex,
        nrows <= g.rows,
        forall|r: int, c: int| 0 <= r < g.rows && 0 <= c < g.width ==> #[trigger] pixel_ok(g, tex, p, r, c),
        0 <= row < nrows,
        0 <= col < g.width,
    ensures
        write_glyph(bm, g, tex, p, nrows)[atlas_index(tex, p, row, col)] == g.buffer@[row * g.pitch + col],
    decreases nrows,
{
    let prev = write_glyph(bm, g, tex, p, nrows - 1);
    lemma_write_glyph_keeps_len(bm, g, tex, p, nrows - 1);
    assert(pixel_ok(g, tex, p, row, col));
    if row == nrows - 1 {
        lemma_write_row_reads_back(prev, g, tex, p, row, g.width as int, col);
    } else {
        lemma_rows_read_back(bm, g, tex, p, nrows - 1, row, col);
        assert forall|c: int| 0 <= c < g.width implies #[trigger] atlas_index(tex, p, nrows - 1, c) != atlas_index(tex, p, row, col) by {
            lemma_later_rows_lie_further_on(tex, p.1, row, nrows - 1, p.0, col, c);
        }
        lemma_write_row_elsewhere(prev, g, tex, p, nrows - 1, g.width as int, atlas_index(tex, p, row, col));
    }
}

/// No glyph of non-negative width starts left of the atlas, and each one ends before
/// the right edge unless it starts a line: only a glyph at least as wide as the atlas
/// runs past it.
pub proof fn lemma_placement_within_width(glyphs: Seq<GlyphBitmap>, tex: int, line: int, k: nat)
    requires
        k < glyphs.len(),
        forall|j: int| 0 <= j <= k ==> #[trigger] glyphs[j].width >= 0,
    ensures
        placement_of(glyphs, tex, line, k).0 >= 0,
        placement_of(glyphs, tex, line, k).0 == 0
            || placement_of(glyphs, tex, line, k).0 + glyphs[k as int].width < tex,
    decreases k,
{
    if k > 0 {
        lemma_placement_within_width(glyphs, tex, line, (k - 1) as nat);
        assert(glyphs[k - 1].width >= 0);
    }
}

proof fn lemma_packed_glyph_ok(glyphs: Seq<GlyphBitmap>, tex: int, line: int, k: int)
    requires
        packs(glyphs, tex, line),
        0 <= k < glyphs.len(),
    ensures
        glyph_ok(glyphs[k], tex, line, pen_before(glyphs, tex, line, k as nat)),
{
}

/// Glyph `k` comes after glyph `j`: on a later line, at least `line` further down, or on
/// the same line, right of `j` with a pixel between them.
pub open spec fn placed_after(glyphs: Seq<GlyphBitmap>, tex: int, line: int, j: nat, k: nat) -> bool {
    let pj = placement_of(glyphs, tex, line, j);
    let pk = placement_of(glyphs, tex, line, k);
    pk.1 >= pj.1 + line || (pk.1 == pj.1 && pk.0 >= pj.0 + glyphs[j as int].width + 1)
}

/// Glyphs are laid out in reading order: each one after every earlier one.
pub proof fn lemma_glyphs_in_reading_order(glyphs: Seq<GlyphBitmap>, tex: int, line: int, j: nat, k: nat)
    requires
        j < k < glyphs.len(),
        line >= 0,
        forall|i: int| 0 <= i <= k ==> #[trigger] glyphs[i].width >= 0,
    ensures
        placed_after(glyphs, tex, line, j, k),
    decreases k,
{
    let prev = (k - 1) as nat;
    assert(glyphs[prev as int].width >= 0);
    if j < prev {
        lemma_glyphs_in_reading_order(glyphs, tex, line, j, prev);
    }
}

/// Two atlas positions with columns inside the atlas are equal only when their rows and
/// columns are.
proof fn lemma_atlas_position_unique(tex: int, y1: int, a: int, y2: int, b: int)
    by (nonlinear_arith)
    requires
        0 <= a < tex,
        0 <= b < tex,
        y1 * tex + a == y2 * tex + b,
    ensures
        y1 == y2,
        a == b,
{
    if y1 < y2 {
        assert(y2 * tex >= (y1 + 1) * tex);
    } else if y2 < y1 {
        assert(y1 * tex >= (y2 + 1) * tex);
    }
}

/// Writing a glyph leaves every index that none of its bytes goes to as it was.
proof fn lemma_write_glyph_elsewhere(bm: Seq<u8>, g: GlyphBitmap, tex: int, p: (int, int), nrows: int, i: int)
    requires
        0 <= i < bm.len(),
        forall|r: int, c: int| 0 <= r < nrows && 0 <= c < g.width ==> #[trigger] atlas_index(tex, p, r, c) != i,
    ensures
        write_glyph(bm, g, tex, p, nrows)[i] == bm[i],
    decreases nrows,
{
    if nrows > 0 {
        lemma_write_glyph_elsewhere(bm, g, tex, p, nrows - 1, i);
        lemma_write_glyph_keeps_len(bm, g, tex, p, nrows - 1);
        assert forall|c: int| 0 <= c < g.width implies #[trigger] atlas_index(tex, p, nrows - 1, c) != i by {
            assert(atlas_index(tex, p, nrows - 1, c) != i);
        }
        lemma_write_row_elsewhere(write_glyph(bm, g, tex, p, nrows - 1), g, tex, p, nrows - 1, g.width as int, i);
    }
}

proof fn lemma_atlas_len(glyphs: Seq<GlyphBitmap>, tex: int, line: int, n: nat)
    requires
        0 < tex,
    ensures
        atlas_after(glyphs, tex, line, n).len() == tex * tex,
    decreases n,
{
    assert(tex * tex > 0) by (nonlinear_arith)
        requires
            0 < tex,
    ;
    if n > 0 && n <= glyphs.len() {
        let k = (n - 1) as nat;
        lemma_atlas_len(glyphs, tex, line, k);
        lemma_write_glyph_keeps_len(
            atlas_after(glyphs, tex, line, k),
            glyphs[k as int],
            tex,
            placement_of(glyphs, tex, line, k),
            glyphs[k as int].rows as int,
        );
    }
}

/// The glyph shapes under which packed glyphs never overlap: none wider than the atlas,
/// none taller than a line.
pub open spec fn glyphs_fit_lines(glyphs: Seq<GlyphBitmap>, tex: int, line: int) -> bool {
    forall|i: int|
        0 <= i < glyphs.len() ==> 0 <= #[trigger] glyphs[i].width <= tex && glyphs[i].rows <= line
}

proof fn lemma_prefix_reads_back(glyphs: Seq<GlyphBitmap>, tex: int, line: int, n: nat, k: nat, row: int, col: int)
    requires
        0 < tex,
        0 <= line,
        packs(glyphs, tex, line),
        glyphs_fit_lines(glyphs, tex, line),
        k < n <= glyphs.len(),
        0 <= row < glyphs[k as int].rows,
        0 <= col < glyphs[k as int].width,
    ensures
        atlas_after(glyphs, tex, line, n)[atlas_index(tex, placement_of(glyphs, tex, line, k), row, col)]
            == glyphs[k as int].buffer@[row * glyphs[k as int].pitch + col],
    decreases n,
{
    let last = (n - 1) as nat;
    let g = glyphs[last as int];
    let p = placement_of(glyphs, tex, line, last);
    let before = atlas_after(glyphs, tex, line, last);
    lemma_atlas_len(glyphs, tex, line, last);
    assert(glyph_ok(g, tex, line, pen_before(glyphs, tex, line, last)));
    assert forall|i: int| 0 <= i <= last implies #[trigger] glyphs[i].width >= 0 by {
        assert(0 <= glyphs[i].width <= tex);
    }
    lemma_placement_within_width(glyphs, tex, line, last);
    if k == last {
        lemma_copied_glyph_reads_back(before, g, tex, p, row, col);
    } else {
        lemma_prefix_reads_back(glyphs, tex, line, last, k, row, col);
        let gk = glyphs[k as int];
        let pk = placement_of(glyphs, tex, line, k);
        let i = atlas_index(tex, pk, row, col);
        assert forall|i2: int| 0 <= i2 <= k implies #[trigger] glyphs[i2].width >= 0 by {
            assert(0 <= glyphs[i2].width <= tex);
        }
        lemma_placement_within_width(glyphs, tex, line, k);
        lemma_glyphs_in_reading_order(glyphs, tex, line, k, last);
        lemma_packed_glyph_ok(glyphs, tex, line, k as int);
        assert(((k as int) as nat) == k);
        assert(pixel_ok(gk, tex, pk, row, col));
        assert(0 <= gk.width <= tex && gk.rows <= line);
        assert(0 <= g.width <= tex);
        assert forall|r: int, c: int| 0 <= r < g.rows && 0 <= c < g.width implies #[trigger] atlas_index(tex, p, r, c) != i by {
            if atlas_index(tex, p, r, c) == i {
                assert((p.1 + r) * tex + (p.0 + c) == (pk.1 + row) * tex + (pk.0 + col));
                lemma_atlas_position_unique(tex, p.1 + r, p.0 + c, pk.1 + row, pk.0 + col);
            }
        }
        lemma_write_glyph_elsewhere(before, g, tex, p, g.rows as int, i);
    }
}

/// Once every glyph was packed, each one reads back byte for byte from the atlas at its
/// placement, provided no glyph is wider than the atlas or taller than a line: byte
/// (`row`, `col`) of glyph `k` is at `atlas_index(tex, placement_of(.., k), row, col)`.
pub proof fn lemma_packed_glyphs_read_back(glyphs: Seq<GlyphBitmap>, tex: int, line: int, k: nat, row: int, col: int)
    requires
        0 < tex,
        0 <= line,
        packs(glyphs, tex, line),
        glyphs_fit_lines(glyphs, tex, line),
        k < glyphs.len(),
        0 <= row < glyphs[k as int].rows,
        0 <= col < glyphs[k as int].width,
    ensures
        atlas_after(glyphs, tex, line, glyphs.len())[atlas_index(tex, placement_of(glyphs, tex, line, k), row, col)]
            == glyphs[k as int].buffer@[row * glyphs[k as int].pitch + col],
{
    lemma_prefix_reads_back(glyphs, tex, line, glyphs.len(), k, row, col);
}

proof fn lemma_uncovered_prefix_stays_zero(glyphs: Seq<GlyphBitmap>, tex: int, line: int, n: nat, i: int)
    requires
        0 < tex,
        0 <= i < tex * tex,
        n <= glyphs.len(),
        forall|k: int, r: int, c: int|
            0 <= k < n && 0 <= r < glyphs[k].rows && 0 <= c < glyphs[k].width ==> #[trigger] atlas_index(
                tex,
                placement_of(glyphs, tex, line, k as nat),
                r,
                c,
            ) != i,
    ensures
        atlas_after(glyphs, tex, line, n)[i] == 0u8,
    decreases n,
{
    if n > 0 {
        let last = (n - 1) as nat;
        lemma_uncovered_prefix_stays_zero(glyphs, tex, line, last, i);
        lemma_atlas_len(glyphs, tex, line, last);
        let g = glyphs[last as int];
        let p = placement_of(glyphs, tex, line, last);
        assert forall|r: int, c: int| 0 <= r < g.rows && 0 <= c < g.width implies #[trigger] atlas_index(tex, p, r, c) != i by {
            assert(((last as int) as nat) == last);
            assert(atlas_index(tex, placement_of(glyphs, tex, line, (last as int) as nat), r, c) != i);
        }
        lemma_write_glyph_elsewhere(atlas_after(glyphs, tex, line, last), g, tex, p, g.rows as int, i);
    }
}

/// Every atlas byte that no glyph covers at its placement stays zero.
pub proof fn lemma_uncovered_bytes_stay_zero(glyphs: Seq<GlyphBitmap>, tex: int, line: int, i: int)
    requires
        0 < tex,
        0 <= i < tex * tex,
        forall|k: int, r: int, c: int|
            0 <= k < glyphs.len() && 0 <= r < glyphs[k].rows && 0 <= c < glyphs[k].width ==> #[trigger] atlas_index(
                tex,
                placement_of(glyphs, tex, line, k as nat),
                r,
                c,
            ) != i,
    ensures
        atlas_after(glyphs, tex, line, glyphs.len())[i] == 0u8,
{
    lemma_uncovered_prefix_stays_zero(glyphs, tex, line, glyphs.len(), i);
}

/// Before glyph `k` is placed, the pen stands one pixel right of glyph `k - 1` (at the
/// origin for the first glyph); deciding where `k` goes and moving the pen on past it
/// stays within `i32`.
pub open spec fn pen_fits_i32(glyphs: Seq<GlyphBitmap>, tex: int, line: int, k: int) -> bool {
    let w = glyphs[k].width as int;
    let p = placement_of(glyphs, tex, line, k as nat);
    let pen_x = if k == 0 {
        0
    } else {
        placement_of(glyphs, tex, line, (k - 1) as nat).0 + glyphs[k - 1].width + 1
    };
    &&& i32::MIN <= pen_x + w <= i32::MAX
    &&& i32::MIN <= p.1 <= i32::MAX
    &&& i32::MIN <= w + 1 <= i32::MAX
    &&& i32::MIN <= p.0 + w + 1 <= i32::MAX
}

/// Byte (`r`, `c`) of glyph `k`, at the glyph's placement, has `i32` coordinates and
/// `i32` index arithmetic, lies inside the `tex` x `tex` atlas and inside the glyph's
/// own buffer (row `r` starting at `r * pitch`).
pub open spec fn byte_fits(glyphs: Seq<GlyphBitmap>, tex: int, line: int, k: int, r: int, c: int) -> bool {
    let p = placement_of(glyphs, tex, line, k as nat);
    let x = p.0 + c;
    let y = p.1 + r;
    let at = y * tex + x;
    let from = r * glyphs[k].pitch + c;
    &&& i32::MIN <= x <= i32::MAX
    &&& i32::MIN <= y <= i32::MAX
    &&& i32::MIN <= y * tex <= i32::MAX
    &&& i32::MIN <= at <= i32::MAX
    &&& 0 <= at < tex * tex
    &&& i32::MIN <= r * glyphs[k].pitch <= i32::MAX
    &&& i32::MIN <= from <= i32::MAX
    &&& 0 <= from < glyphs[k].buffer@.len()
}

/// The first glyph goes to the top-left corner, or to the start of the second line when
/// it is at least as wide as the atlas.
pub proof fn lemma_first_glyph_placement(glyphs: Seq<GlyphBitmap>, tex: int, line: int)
    requires
        glyphs.len() > 0,
    ensures
        placement_of(glyphs, tex, line, 0) == if glyphs[0].width >= tex {
            (0int, line)
        } else {
            (0int, 0int)
        },
{
}

/// Each glyph goes exactly one pixel right of the previous one on the same line, or,
/// when it would reach the right edge from there, to the start of the line `line`
/// pixels further down.
pub proof fn lemma_next_glyph_placement(glyphs: Seq<GlyphBitmap>, tex: int, line: int, k: nat)
    requires
        k + 1 < glyphs.len(),
    ensures
        ({
            let p = placement_of(glyphs, tex, line, k);
            let x = p.0 + glyphs[k as int].width + 1;
            placement_of(glyphs, tex, line, (k + 1) as nat) == if x + glyphs[k + 1int].width >= tex {
                (0int, p.1 + line)
            } else {
                (x, p.1)
            }
        }),
{
    assert((((k + 1) as nat) - 1) as nat == k);
}

/// Packing succeeds whenever nothing overflows: if, for every glyph at its placement,
/// the pen arithmetic stays within `i32` and every byte of the glyph lies inside both
/// the atlas and the glyph's own buffer with `i32` index arithmetic, then
/// `packs(..)` holds, so `pack_glyphs` returns `Some`.
pub proof fn lemma_packing_succeeds_when_everything_fits(glyphs: Seq<GlyphBitmap>, tex: int, line: int)
    requires
        forall|k: int| 0 <= k < glyphs.len() ==> #[trigger] pen_fits_i32(glyphs, tex, line, k),
        forall|k: int, r: int, c: int|
            0 <= k < glyphs.len() && 0 <= r < glyphs[k].rows && 0 <= c < glyphs[k].width
                ==> #[trigger] byte_fits(glyphs, tex, line, k, r, c),
    ensures
        packs(glyphs, tex, line),
{
    assert forall|k: int| 0 <= k < glyphs.len() implies #[trigger] glyph_ok(
        glyphs[k],
        tex,
        line,
        pen_before(glyphs, tex, line, k as nat),
    ) by {
        let g = glyphs[k];
        let w = g.width as int;
        let pen = pen_before(glyphs, tex, line, k as nat);
        let p = placement_of(glyphs, tex, line, k as nat);
        assert(glyphs[k].width as int == w);
        if k > 0 {
            assert(((k as nat) - 1) as nat == (k - 1) as nat);
            assert(pen.0 == placement_of(glyphs, tex, line, (k - 1) as nat).0 + glyphs[k - 1].width + 1);
        }
        assert(p == wrap_pen(pen, w, tex, line));
        assert(pen_fits_i32(glyphs, tex, line, k));
        assert forall|row: int, col: int| 0 <= row < g.rows && 0 <= col < w implies #[trigger] pixel_ok(
            g,
            tex,
            wrap_pen(pen, w, tex, line),
            row,
            col,
        ) by {
            assert(byte_fits(glyphs, tex, line, k, row, col));
        }
    }
}

proof fn lemma_placement_y_in_i32(glyphs: Seq<GlyphBitmap>, tex: int, line: int, k: int)
    requires
        packs(glyphs, tex, line),
        0 <= k < glyphs.len(),
    ensures
        in_i32(placement_of(glyphs, tex, line, k as nat).1),
    decreases k,
{
    lemma_packed_glyph_ok(glyphs, tex, line, k);
    if k > 0 {
        lemma_placement_y_in_i32(glyphs, tex, line, k - 1);
        assert(((k as nat) - 1) as nat == (k - 1) as nat);
    }
}

/// Packing fails whenever something overflows: if `packs(..)` holds (so `pack_glyphs`
/// returned `Some`), then for every glyph at its placement the pen arithmetic stayed
/// within `i32` and every byte of the glyph lay inside both the atlas and the glyph's
/// own buffer with `i32` index arithmetic.
pub proof fn lemma_packing_means_everything_fits(glyphs: Seq<GlyphBitmap>, tex: int, line: int)
    requires
        packs(glyphs, tex, line),
    ensures
        forall|k: int| 0 <= k < glyphs.len() ==> #[trigger] pen_fits_i32(glyphs, tex, line, k),
        forall|k: int, r: int, c: int|
            0 <= k < glyphs.len() && 0 <= r < glyphs[k].rows && 0 <= c < glyphs[k].width
                ==> #[trigger] byte_fits(glyphs, tex, line, k, r, c),
{
    assert forall|k: int| 0 <= k < glyphs.len() implies #[trigger] pen_fits_i32(glyphs, tex, line, k) by {
        lemma_packed_glyph_ok(glyphs, tex, line, k);
        let pen = pen_before(glyphs, tex, line, k as nat);
        if k > 0 {
            assert(((k as nat) - 1) as nat == (k - 1) as nat);
            assert(pen.0 == placement_of(glyphs, tex, line, (k - 1) as nat).0 + glyphs[k - 1].width + 1);
        }
        lemma_placement_y_in_i32(glyphs, tex, line, k);
    }
    assert forall|k: int, r: int, c: int|
        0 <= k < glyphs.len() && 0 <= r < glyphs[k].rows && 0 <= c < glyphs[k].width
            implies #[trigger] byte_fits(glyphs, tex, line, k, r, c) by {
        lemma_packed_glyph_ok(glyphs, tex, line, k);
        let p = placement_of(glyphs, tex, line, k as nat);
        assert(pixel_ok(glyphs[k], tex, p, r, c));
    }
}

proof fn lemma_last_writer_prefix(glyphs: Seq<GlyphBitmap>, tex: int, line: int, n: nat, k: nat, row: int, col: int)
    requires
        0 < tex,
        packs(glyphs, tex, line),
        k < n <= glyphs.len(),
        forall|i: int| 0 <= i <= k ==> #[trigger] glyphs[i].width >= 0,
        glyphs[k as int].width <= tex,
        0 <= row < glyphs[k as int].rows,
        0 <= col < glyphs[k as int].width,
        forall|j: int, r: int, c: int|
            k < j < glyphs.len() && 0 <= r < glyphs[j].rows && 0 <= c < glyphs[j].width ==> #[trigger] atlas_index(
                tex,
                placement_of(glyphs, tex, line, j as nat),
                r,
                c,
            ) != atlas_index(tex, placement_of(glyphs, tex, line, k), row, col),
    ensures
        atlas_after(glyphs, tex, line, n)[atlas_index(tex, placement_of(glyphs, tex, line, k), row, col)]
            == glyphs[k as int].buffer@[row * glyphs[k as int].pitch + col],
    decreases n,
{
    let last = (n - 1) as nat;
    let g = glyphs[last as int];
    let p = placement_of(glyphs, tex, line, last);
    let before = atlas_after(glyphs, tex, line, last);
    lemma_atlas_len(glyphs, tex, line, last);
    lemma_packed_glyph_ok(glyphs, tex, line, last as int);
    assert(((last as int) as nat) == last);
    if k == last {
        lemma_placement_within_width(glyphs, tex, line, k);
        lemma_copied_glyph_reads_back(before, g, tex, p, row, col);
    } else {
        lemma_last_writer_prefix(glyphs, tex, line, last, k, row, col);
        let i = atlas_index(tex, placement_of(glyphs, tex, line, k), row, col);
        lemma_packed_glyph_ok(glyphs, tex, line, k as int);
        assert(((k as int) as nat) == k);
        lemma_placement_within_width(glyphs, tex, line, k);
        assert(pixel_ok(glyphs[k as int], tex, placement_of(glyphs, tex, line, k), row, col));
        assert forall|r: int, c: int| 0 <= r < g.rows && 0 <= c < g.width implies #[trigger] atlas_index(tex, p, r, c) != i by {
            assert(atlas_index(tex, placement_of(glyphs, tex, line, (last as int) as nat), r, c) != i);
        }
        lemma_write_glyph_elsewhere(before, g, tex, p, g.rows as int, i);
    }
}

/// Later glyphs win where they overlap earlier ones, and nothing else changes a glyph's
/// bytes: a byte of glyph `k` (no wider than the atlas, after glyphs of non-negative
/// width) that no later glyph covers reads back from the packed atlas.
pub proof fn lemma_uncovered_glyph_byte_reads_back(glyphs: Seq<GlyphBitmap>, tex: int, line: int, k: nat, row: int, col: int)
    requires
        0 < tex,
        packs(glyphs, tex, line),
        k < glyphs.len(),
        forall|i: int| 0 <= i <= k ==> #[trigger] glyphs[i].width >= 0,
        glyphs[k as int].width <= tex,
        0 <= row < glyphs[k as int].rows,
        0 <= col < glyphs[k as int].width,
        forall|j: int, r: int, c: int|
            k < j < glyphs.len() && 0 <= r < glyphs[j].rows && 0 <= c < glyphs[j].width ==> #[trigger] atlas_index(
                tex,
                placement_of(glyphs, tex, line, j as nat),
                r,
                c,
            ) != atlas_index(tex, placement_of(glyphs, tex, line, k), row, col),
    ensures
        atlas_after(glyphs, tex, line, glyphs.len())[atlas_index(tex, placement_of(glyphs, tex, line, k), row, col)]
            == glyphs[k as int].buffer@[row * glyphs[k as int].pitch + col],
{
    lemma_last_writer_prefix(glyphs, tex, line, glyphs.len(), k, row, col);
}

} // verus!
