//! The glyph atlas: which characters it holds, where each glyph sits in it, how a
//! rasterized glyph is copied in, and how a character finds its glyph again.
use vstd::prelude::*;

verus! {

pub const ATLAS_COLS: usize = 32;

pub const ATLAS_ROWS: usize = 8;

pub const GLYPH_PX: usize = 16;

/// Number of glyphs in the atlas: printable ASCII and U+011E..=U+011F.
pub const GLYPH_COUNT: usize = 97;

// ---- Characters and slots ----

/// The character stored in atlas slot `i`: ASCII 32..=126 in slots 0..95, then
/// U+011E and U+011F.
pub open spec fn glyph_code(i: int) -> int {
    if i < 95 {
        32 + i
    } else {
        0x011E + (i - 95)
    }
}

/// The atlas slot of character `code`, if the atlas holds it.
pub open spec fn glyph_slot_of(code: int) -> Option<int> {
    if 32 <= code <= 126 {
        Some(code - 32)
    } else if 0x011E <= code <= 0x011F {
        Some(code - 0x011E + 95)
    } else {
        None
    }
}

/// The characters rasterized into the atlas, in slot order.
pub fn glyph_codes() -> (codes: Vec<u32>)
    ensures
        codes@.len() == GLYPH_COUNT,
        forall|i: int| 0 <= i < GLYPH_COUNT ==> codes@[i] == glyph_code(i),
{
    let mut codes: Vec<u32> = Vec::new();
    let mut c: u32 = 32;
    while c <= 126
        invariant
            32 <= c <= 127,
            codes@.len() == c - 32,
            forall|i: int| 0 <= i < codes@.len() ==> codes@[i] == glyph_code(i),
        decreases 127 - c,
    {
        codes.push(c);
        c += 1;
    }
    let mut c: u32 = 0x011E;
    while c <= 0x011F
        invariant
            0x011E <= c <= 0x0120,
            codes@.len() == 95 + (c - 0x011E),
            forall|i: int| 0 <= i < codes@.len() ==> codes@[i] == glyph_code(i),
        decreases 0x0120 - c,
    {
        codes.push(c);
        c += 1;
    }
    codes
}

/// The atlas slot that holds the glyph of `code`.
pub fn glyph_slot(code: u32) -> (slot: Option<usize>)
    ensures
        match glyph_slot_of(code as int) {
            Some(i) => slot == Some(i as usize),
            None => slot is None,
        },
{
    if 32 <= code && code <= 126 {
        Some((code - 32) as usize)
    } else if 0x011E <= code && code <= 0x011F {
        Some((code - 0x011E + 95) as usize)
    } else {
        None
    }
}

/// Each character of the atlas is found again in the slot it was stored in, and
/// each slot that a character finds holds that character.
pub proof fn lemma_glyph_slot_round_trip(i: int, code: int)
    ensures
        0 <= i < GLYPH_COUNT ==> glyph_slot_of(glyph_code(i)) == Some(i),
        glyph_slot_of(code) == Some(i) ==> 0 <= i < GLYPH_COUNT && glyph_code(i) == code,
{
}

/// The atlas holds exactly the printable ASCII characters and U+011E, U+011F, in
/// increasing order of their codes.
pub proof fn lemma_atlas_characters(code: int, i: int, j: int)
    ensures
        glyph_slot_of(code) is Some <==> (32 <= code <= 126 || code == 0x011E || code == 0x011F),
        0 <= i < j < GLYPH_COUNT ==> glyph_code(i) < glyph_code(j),
        glyph_code(0) == 32,
        glyph_code(GLYPH_COUNT - 1) == 0x011F,
{
}

/// Glyph data stored by atlas slot.
pub struct GlyphTable<G> {
    glyphs: Vec<G>,
}

impl<G> View for GlyphTable<G> {
    type V = Seq<G>;

    closed spec fn view(&self) -> Seq<G> {
        self.glyphs@
    }
}

impl<G: Copy> GlyphTable<G> {
    pub fn new() -> (t: Self)
        ensures
            t@ == Seq::<G>::empty(),
    {
        GlyphTable { glyphs: Vec::new() }
    }

    /// Stores the glyph of the next slot.
    pub fn push(&mut self, glyph: G)
        ensures
            final(self)@ == old(self)@.push(glyph),
    {
        self.glyphs.push(glyph);
    }

    /// The glyph of character `code`: the one stored in its slot, if the atlas
    /// holds the character and the slot is filled.
    pub fn glyph_info(&self, code: u32) -> (g: Option<G>)
        ensures
            g == (match glyph_slot_of(code as int) {
                Some(i) => if i < self@.len() {
                    Some(self@[i])
                } else {
                    None
                },
                None => None,
            }),
    {
        match glyph_slot(code) {
            Some(idx) => if idx < self.glyphs.len() {
                Some(self.glyphs[idx])
            } else {
                None
            },
            None => None,
        }
    }
}

/// A table filled with the glyphs of `glyph_codes()` in order gives back, for
/// each of those characters, the glyph stored for it.
pub proof fn lemma_lookup_finds_stored<G>(glyphs: Seq<G>, i: int)
    requires
        glyphs.len() == GLYPH_COUNT,
        0 <= i < GLYPH_COUNT,
    ensures
        (match glyph_slot_of(glyph_code(i)) {
            Some(k) => if k < glyphs.len() {
                Some(glyphs[k])
            } else {
                None
            },
            None => None,
        }) == Some(glyphs[i]),
{
    lemma_glyph_slot_round_trip(i, glyph_code(i));
}

// ---- Atlas layout ----

/// Side of an atlas cell for a font rasterized at `size_ceil` pixels (the
/// font size rounded up): four pixels of margin, and at least `GLYPH_PX`.
pub open spec fn cell_side(size_ceil: int) -> int {
    if size_ceil + 4 > GLYPH_PX {
        size_ceil + 4
    } else {
        GLYPH_PX as int
    }
}

/// A cell is as small as it can be while holding a glyph of the font with four
/// pixels to spare and never under `GLYPH_PX`: the larger of `size_ceil + 4` and
/// `GLYPH_PX`.
pub proof fn lemma_cell_fits_the_font(size_ceil: int)
    requires
        0 <= size_ceil,
    ensures
        cell_side(size_ceil) >= size_ceil + 4,
        cell_side(size_ceil) >= GLYPH_PX,
        cell_side(size_ceil) == size_ceil + 4 || cell_side(size_ceil) == GLYPH_PX,
{
}

/// Cell and atlas sizes, in pixels.
#[derive(Clone, Copy, Debug, PartialEq, Eq, Structural)]
pub struct AtlasLayout {
    pub cell_w: usize,
    pub cell_h: usize,
    pub atlas_w: u32,
    pub atlas_h: u32,
}

impl AtlasLayout {
    /// The cells are large enough for a glyph and the whole grid of cells has a
    /// size that a `usize` holds.
    pub open spec fn wf(&self) -> bool {
        &&& self.cell_w >= GLYPH_PX
        &&& self.cell_h >= GLYPH_PX
        &&& ATLAS_COLS * self.cell_w <= usize::MAX
        &&& ATLAS_ROWS * self.cell_h <= usize::MAX
    }

    /// The layout for a font of `size_ceil` pixels: square cells, 32 by 8 of them.
    pub fn for_font_size(size_ceil: usize) -> (l: AtlasLayout)
        requires
            ATLAS_COLS * (size_ceil + 4) <= usize::MAX,
        ensures
            l.wf(),
            l.cell_w == cell_side(size_ceil as int),
            l.cell_h == cell_side(size_ceil as int),
            l.atlas_w == (ATLAS_COLS * l.cell_w) as u32,
            l.atlas_h == (ATLAS_ROWS * l.cell_h) as u32,
    {
        let side = if size_ceil + 4 > GLYPH_PX {
            size_ceil + 4
        } else {
            GLYPH_PX
        };
        let cell_w = side;
        let cell_h = side;
        AtlasLayout {
            cell_w,
            cell_h,
            atlas_w: (ATLAS_COLS * cell_w) as u32,
            atlas_h: (ATLAS_ROWS * cell_h) as u32,
        }
    }

    /// Top-left pixel of the cell of slot `i`: slots fill the rows left to right.
    pub open spec fn cell_origin(&self, i: int) -> (int, int) {
        ((i % ATLAS_COLS as int) * self.cell_w, (i / ATLAS_COLS as int) * self.cell_h)
    }

    /// Where a glyph of `glyph_w x glyph_h` pixels in slot `i` goes: centred in its cell.
    pub fn glyph_origin(&self, i: usize, glyph_w: usize, glyph_h: usize) -> (o: (usize, usize))
        requires
            self.wf(),
            i < GLYPH_COUNT,
            glyph_w <= self.cell_w,
            glyph_h <= self.cell_h,
        ensures
            o.0 == self.cell_origin(i as int).0 + (self.cell_w - glyph_w) / 2,
            o.1 == self.cell_origin(i as int).1 + (self.cell_h - glyph_h) / 2,
    {
        let col = i % ATLAS_COLS;
        let row = i / ATLAS_COLS;
        proof {
            assert(col < 32 && row < 4);
            assert(col * self.cell_w + self.cell_w <= 32 * self.cell_w) by (nonlinear_arith)
                requires col < 32;
            assert(row * self.cell_h + self.cell_h <= 8 * self.cell_h) by (nonlinear_arith)
                requires row < 4;
        }
        let ox = col * self.cell_w + (self.cell_w - glyph_w) / 2;
        let oy = row * self.cell_h + (self.cell_h - glyph_h) / 2;
        (ox, oy)
    }
}

/// Every glyph stays inside its own cell, and the cells of two slots do not
/// overlap: a glyph pixel of slot `i` is never a glyph pixel of slot `j`.
pub proof fn lemma_glyph_cells_apart(
    layout: AtlasLayout,
    i: int,
    j: int,
    glyph_w: int,
    glyph_h: int,
    px: int,
    py: int,
)
    requires
        layout.wf(),
        0 <= i < GLYPH_COUNT,
        0 <= j < GLYPH_COUNT,
        0 <= glyph_w <= layout.cell_w,
        0 <= glyph_h <= layout.cell_h,
        0 <= px < glyph_w,
        0 <= py < glyph_h,
    ensures
        ({
            let (cx, cy) = layout.cell_origin(i);
            let x = cx + (layout.cell_w - glyph_w) / 2 + px;
            let y = cy + (layout.cell_h - glyph_h) / 2 + py;
            &&& cx <= x < cx + layout.cell_w
            &&& cy <= y < cy + layout.cell_h
            &&& x < ATLAS_COLS * layout.cell_w
            &&& y < ATLAS_ROWS * layout.cell_h
            &&& i != j ==> !(layout.cell_origin(j).0 <= x < layout.cell_origin(j).0 + layout.cell_w
                && layout.cell_origin(j).1 <= y < layout.cell_origin(j).1 + layout.cell_h)
        }),
{
    let cw = layout.cell_w as int;
    let ch = layout.cell_h as int;
    let (ci, ri) = (i % 32, i / 32);
    let (cj, rj) = (j % 32, j / 32);
    assert(0 <= ci < 32 && 0 <= ri < 4 && 0 <= cj < 32 && 0 <= rj < 4);
    let x = ci * cw + (cw - glyph_w) / 2 + px;
    let y = ri * ch + (ch - glyph_h) / 2 + py;
    assert(ci * cw <= x < ci * cw + cw);
    assert(ri * ch <= y < ri * ch + ch);
    assert(ci * cw + cw <= 32 * cw) by (nonlinear_arith)
        requires ci < 32, cw >= 0;
    assert(ri * ch + ch <= 8 * ch) by (nonlinear_arith)
        requires ri < 4, ch >= 0;
    if i != j {
        assert(ci != cj || ri != rj);
        if ci != cj && cj * cw <= x < cj * cw + cw {
            if ci < cj {
                assert(ci * cw + cw <= cj * cw) by (nonlinear_arith)
                    requires ci < cj, cw >= 0;
            } else {
                assert(cj * cw + cw <= ci * cw) by (nonlinear_arith)
                    requires cj < ci, cw >= 0;
            }
        }
        if ri != rj && rj * ch <= y < rj * ch + ch {
            if ri < rj {
                assert(ri * ch + ch <= rj * ch) by (nonlinear_arith)
                    requires ri < rj, ch >= 0;
            } else {
                assert(rj * ch + ch <= ri * ch) by (nonlinear_arith)
                    requires rj < ri, ch >= 0;
            }
        }
    }
}

// ---- Copying a rasterized glyph into the atlas ----

/// Coverage comes in rows of `glyph_w` values (rows of one value when the glyph
/// is empty).
pub open spec fn row_len(glyph_w: int) -> int {
    if glyph_w > 1 {
        glyph_w
    } else {
        1
    }
}

/// Index into the coverage of atlas pixel `(x, y)` for a glyph placed at `(ox, oy)`.
pub open spec fn coverage_index(x: int, y: int, ox: int, oy: int, glyph_w: int) -> int {
    (y - oy) * row_len(glyph_w) + (x - ox)
}

/// Among the first `n` coverage values, the one for atlas pixel `(x, y)` exists
/// and is not zero.
pub open spec fn covered_within(
    x: int,
    y: int,
    ox: int,
    oy: int,
    glyph_w: int,
    coverage: Seq<u8>,
    n: int,
) -> bool {
    &&& ox <= x
    &&& oy <= y
    &&& x - ox < row_len(glyph_w)
    &&& coverage_index(x, y, ox, oy, glyph_w) < n
    &&& coverage_index(x, y, ox, oy, glyph_w) < coverage.len()
    &&& coverage[coverage_index(x, y, ox, oy, glyph_w)] > 0
}

/// Atlas pixel `(x, y)` after the first `n` coverage values were copied in.
pub open spec fn blitted(
    old_pixels: Seq<u8>,
    atlas_w: int,
    x: int,
    y: int,
    ox: int,
    oy: int,
    glyph_w: int,
    coverage: Seq<u8>,
    n: int,
) -> u8 {
    if covered_within(x, y, ox, oy, glyph_w, coverage, n) {
        coverage[coverage_index(x, y, ox, oy, glyph_w)]
    } else {
        old_pixels[y * atlas_w + x]
    }
}

proof fn lemma_row_major_unique(a1: int, b1: int, a2: int, b2: int, n: int)
    requires
        0 <= a1 < n,
        0 <= a2 < n,
        0 <= b1,
        0 <= b2,
        b1 * n + a1 == b2 * n + a2,
    ensures
        a1 == a2,
        b1 == b2,
{
    vstd::arithmetic::div_mod::lemma_fundamental_div_mod_converse(b1 * n + a1, n, b1, a1);
    vstd::arithmetic::div_mod::lemma_fundamental_div_mod_converse(b2 * n + a2, n, b2, a2);
}

proof fn lemma_row_major_bound(x: int, y: int, w: int, h: int)
    requires
        0 <= x < w,
        0 <= y < h,
    ensures
        0 <= y * w + x < w * h,
{
    assert(0 <= y * w + x < w * h) by (nonlinear_arith)
        requires 0 <= x < w, 0 <= y < h;
}

/// Coverage value `k` of a glyph `glyph_w` pixels wide belongs to the pixel
/// `(ox + k % w, oy + k / w)`, `w` its row length. Copying the coverage in sets
/// each such pixel that lies in the atlas to its value where that is not zero,
/// and changes no pixel otherwise.
pub proof fn lemma_blit_copies_nonzero_coverage(
    old_pixels: Seq<u8>,
    atlas_w: int,
    atlas_h: int,
    ox: int,
    oy: int,
    glyph_w: int,
    coverage: Seq<u8>,
    k: int,
    x: int,
    y: int,
)
    requires
        0 <= ox,
        0 <= oy,
        0 <= glyph_w,
    ensures
        ({
            let w = if glyph_w > 1 { glyph_w } else { 1 };
            0 <= k < coverage.len() && coverage[k] > 0 && ox + k % w < atlas_w && oy + k / w < atlas_h
                ==> blitted(old_pixels, atlas_w, ox + k % w, oy + k / w, ox, oy, glyph_w, coverage, coverage.len() as int)
                == coverage[k]
        }),
        ({
            let w = if glyph_w > 1 { glyph_w } else { 1 };
            let b = blitted(old_pixels, atlas_w, x, y, ox, oy, glyph_w, coverage, coverage.len() as int);
            b == old_pixels[y * atlas_w + x] || exists|j: int|
                0 <= j < coverage.len() && coverage[j] > 0 && ox + j % w == x && oy + j / w == y && #[trigger] coverage[j] == b
        }),
{
    let w = if glyph_w > 1 { glyph_w } else { 1 };
    assert(w == row_len(glyph_w));
    if 0 <= k < coverage.len() {
        vstd::arithmetic::div_mod::lemma_fundamental_div_mod(k, w);
        assert(0 <= k % w < w);
        assert(k / w >= 0) by {
            vstd::arithmetic::div_mod::lemma_div_pos_is_pos(k, w);
        }
        assert(coverage_index(ox + k % w, oy + k / w, ox, oy, glyph_w) == k) by {
            assert((k / w) * w + k % w == k) by (nonlinear_arith)
                requires k == w * (k / w) + k % w;
        }
    }
    if covered_within(x, y, ox, oy, glyph_w, coverage, coverage.len() as int) {
        let j = coverage_index(x, y, ox, oy, glyph_w);
        assert(j == (y - oy) * w + (x - ox));
        vstd::arithmetic::div_mod::lemma_fundamental_div_mod_converse(j, w, y - oy, x - ox);
        assert(coverage[j] > 0 && ox + j % w == x && oy + j / w == y);
    }
}

/// Copies the non-zero coverage of a glyph `glyph_w` pixels wide into the
/// `atlas_w x atlas_h` atlas with its top-left pixel at `(ox, oy)`; what falls
/// outside the atlas is dropped.
pub fn blit_coverage(
    pixels: &mut Vec<u8>,
    atlas_w: usize,
    atlas_h: usize,
    ox: usize,
    oy: usize,
    glyph_w: usize,
    coverage: &[u8],
)
    requires
        old(pixels)@.len() == atlas_w * atlas_h,
        ox + coverage@.len() <= usize::MAX,
        oy + coverage@.len() <= usize::MAX,
    ensures
        final(pixels)@.len() == old(pixels)@.len(),
        forall|x: int, y: int|
            0 <= x < atlas_w && 0 <= y < atlas_h ==> #[trigger] final(pixels)@[y * atlas_w + x] == blitted(
                old(pixels)@,
                atlas_w as int,
                x,
                y,
                ox as int,
                oy as int,
                glyph_w as int,
                coverage@,
                coverage@.len() as int,
            ),
{
    let ghost start = pixels@;
    let rw = if glyph_w > 1 {
        glyph_w
    } else {
        1
    };
    let mut j: usize = 0;
    let mut px: usize = 0;
    let mut py: usize = 0;
    while j < coverage.len()
        invariant
            start == old(pixels)@,
            rw == row_len(glyph_w as int),
            start.len() == atlas_w * atlas_h,
            pixels@.len() == start.len(),
            ox + coverage@.len() <= usize::MAX,
            oy + coverage@.len() <= usize::MAX,
            j <= coverage@.len(),
            px < rw,
            py <= j,
            j == py * rw + px,
            forall|x: int, y: int|
                0 <= x < atlas_w && 0 <= y < atlas_h ==> #[trigger] pixels@[y * atlas_w + x] == blitted(
                    start,
                    atlas_w as int,
                    x,
                    y,
                    ox as int,
                    oy as int,
                    glyph_w as int,
                    coverage@,
                    j as int,
                ),
        decreases coverage.len() - j,
    {
        let a = coverage[j];
        let ghost before = pixels@;
        if a > 0 && ox + px < atlas_w && oy + py < atlas_h {
            proof {
                lemma_row_major_bound((ox + px) as int, (oy + py) as int, atlas_w as int, atlas_h as int);
                assert(pixels@.len() == pixels.len());
            }
            pixels[(oy + py) * atlas_w + (ox + px)] = a;
        }
        proof {
            let kx = (ox + px) as int;
            let ky = (oy + py) as int;
            assert forall|x: int, y: int|
                0 <= x < atlas_w && 0 <= y < atlas_h implies #[trigger] pixels@[y * atlas_w + x] == blitted(
                    start,
                    atlas_w as int,
                    x,
                    y,
                    ox as int,
                    oy as int,
                    glyph_w as int,
                    coverage@,
                    j + 1,
                ) by {
                let ci = coverage_index(x, y, ox as int, oy as int, glyph_w as int);
                if ox <= x && oy <= y && x - ox < rw && ci == j {
                    lemma_row_major_unique(x - ox, y - oy, px as int, py as int, rw as int);
                    assert(x == kx && y == ky);
                }
                if x != kx || y != ky {
                    if kx < atlas_w && ky < atlas_h {
                        lemma_row_major_bound(x, y, atlas_w as int, atlas_h as int);
                        if y * atlas_w + x == ky * atlas_w + kx {
                            lemma_row_major_unique(x, y, kx, ky, atlas_w as int);
                        }
                    }
                    assert(pixels@[y * atlas_w + x] == before[y * atlas_w + x]);
                }
            }
        }
        j += 1;
        px += 1;
        if px == rw {
            proof {
                assert((py + 1) * rw == py * rw + rw) by (nonlinear_arith);
                assert(py + 1 <= j) by (nonlinear_arith)
                    requires j == (py + 1) * rw, rw >= 1;
            }
            px = 0;
            py += 1;
        }
    }
}

} // verus!
