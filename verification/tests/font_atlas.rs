use wsarndr::vg::font::{
    blit_coverage, glyph_codes, glyph_slot, AtlasLayout, GlyphTable, ATLAS_COLS, ATLAS_ROWS,
    GLYPH_COUNT, GLYPH_PX,
};

#[test]
fn codes_are_ascii_then_g_breve() {
    let codes = glyph_codes();
    assert_eq!(codes.len(), GLYPH_COUNT);
    assert_eq!(codes[0], 32);
    assert_eq!(codes[94], 126);
    assert_eq!(codes[95], 0x011E);
    assert_eq!(codes[96], 0x011F);
}

#[test]
fn slots_round_trip() {
    for (i, code) in glyph_codes().into_iter().enumerate() {
        assert_eq!(glyph_slot(code), Some(i));
    }
    assert_eq!(glyph_slot(31), None);
    assert_eq!(glyph_slot(127), None);
    assert_eq!(glyph_slot(0x011D), None);
    assert_eq!(glyph_slot(0x0120), None);
}

#[test]
fn table_finds_stored_glyph() {
    let mut table = GlyphTable::new();
    for code in glyph_codes() {
        table.push(code * 10);
    }
    assert_eq!(table.glyph_info('A' as u32), Some(650));
    assert_eq!(table.glyph_info(0x011F), Some(0x011F * 10));
    assert_eq!(table.glyph_info('\n' as u32), None);
    let empty: GlyphTable<u32> = GlyphTable::new();
    assert_eq!(empty.glyph_info('A' as u32), None);
}

#[test]
fn layout_for_32px_font() {
    let l = AtlasLayout::for_font_size(32);
    assert_eq!(l.cell_w, 36);
    assert_eq!(l.cell_h, 36);
    assert_eq!(l.atlas_w, (ATLAS_COLS * 36) as u32);
    assert_eq!(l.atlas_h, (ATLAS_ROWS * 36) as u32);
    let small = AtlasLayout::for_font_size(8);
    assert_eq!(small.cell_w, GLYPH_PX);
}

#[test]
fn glyphs_centred_in_their_cells() {
    let l = AtlasLayout::for_font_size(32);
    assert_eq!(l.glyph_origin(0, 20, 30), (8, 3));
    // slot 33 is the second cell of the second row
    assert_eq!(l.glyph_origin(33, 36, 36), (36, 36));
    assert_eq!(l.glyph_origin(96, 0, 0), (18, 3 * 36 + 18));
}

#[test]
fn blit_copies_non_zero_coverage() {
    // a 4x3 atlas, a 2-wide glyph at (1, 1)
    let mut pixels = vec![9u8; 12];
    blit_coverage(&mut pixels, 4, 3, 1, 1, 2, &[5, 0, 7, 8]);
    assert_eq!(pixels, vec![9, 9, 9, 9, 9, 5, 9, 9, 9, 7, 8, 9]);
}

#[test]
fn blit_clips_at_the_atlas_edge() {
    let mut pixels = vec![0u8; 6];
    // 3-wide glyph at (2, 1) in a 3x2 atlas: only column 2 of row 1 is inside
    blit_coverage(&mut pixels, 3, 2, 2, 1, 3, &[1, 2, 3, 4, 5, 6]);
    assert_eq!(pixels, vec![0, 0, 0, 0, 0, 1]);
}

#[test]
fn blit_of_empty_glyph_uses_rows_of_one() {
    let mut pixels = vec![0u8; 4];
    blit_coverage(&mut pixels, 2, 2, 0, 0, 0, &[3, 4]);
    assert_eq!(pixels, vec![3, 0, 4, 0]);
}
