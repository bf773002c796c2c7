use kova::bitmap::RenderedGlyph;
use kova::glyph_atlas::{CellText, ClusterGlyphs, GlyphAtlas, GlyphInfo};

const CW: u32 = 8;
const CH: u32 = 16;

fn coverage(alpha: u8) -> RenderedGlyph {
    RenderedGlyph { code: 'g', width: 2, rows: 2, pitch: 2, left: 0, top: 12, is_color: false, buffer: vec![alpha; 4] }
}

fn atlas() -> GlyphAtlas {
    let ascii: Vec<Option<RenderedGlyph>> =
        (0..95).map(|k| if k == 33 { Some(coverage(200)) } else { None }).collect();
    GlyphAtlas::new(CW, CH, 12, &ascii)
}

fn pixel(a: &GlyphAtlas, x: u32, y: u32) -> [u8; 4] {
    let o = (y as usize * a.atlas_width as usize + x as usize) * 4;
    [a.atlas_buf[o], a.atlas_buf[o + 1], a.atlas_buf[o + 2], a.atlas_buf[o + 3]]
}

fn info(x: u32, y: u32, width: u32, is_color: bool) -> GlyphInfo {
    GlyphInfo { x, y, width, height: CH, is_color }
}

#[test]
fn initial_ascii_layout() {
    let a = atlas();
    assert_eq!((a.atlas_width, a.atlas_height), (2048, 512));
    assert_eq!(a.atlas_buf.len(), 2048 * 512 * 4);
    assert_eq!(a.glyph(' '), Some(&info(0, 0, CW, false)));
    assert_eq!(a.glyph('A'), Some(&info(8, 32, CW, false)));
    assert_eq!(a.glyph('~'), Some(&info(14 * 8, 5 * 16, CW, false)));
    assert_eq!(a.glyph('\u{7f}'), None);
    assert_eq!(a.glyph('é'), None);
    assert_eq!((a.next_x, a.next_y), (15 * CW, 5 * CH));
    assert!(a.texture_dirty);
    // 'A' was rendered: a 2x2 coverage bitmap at the baseline's top.
    assert_eq!(pixel(&a, 8, 32), [255, 255, 255, 200]);
    assert_eq!(pixel(&a, 9, 33), [255, 255, 255, 200]);
    assert_eq!(pixel(&a, 10, 32), [0, 0, 0, 0]);
    // 'B' had no rendering: its cell stays blank.
    assert_eq!(pixel(&a, 16, 32), [0, 0, 0, 0]);
}

#[test]
fn large_cells_widen_the_atlas() {
    let ascii: Vec<Option<RenderedGlyph>> = vec![None; 95];
    let a = GlyphAtlas::new(200, 100, 80, &ascii);
    assert_eq!((a.atlas_width, a.atlas_height), (3200, 600));
    assert_eq!(a.glyph('0'), Some(&GlyphInfo { x: 0, y: 100, width: 200, height: 100, is_color: false }));
}

#[test]
fn known_characters_come_from_the_atlas() {
    let mut a = atlas();
    let before = a.atlas_buf.clone();
    assert_eq!(a.rasterize_char('A', Some(&coverage(1))), Some(info(8, 32, CW, false)));
    assert_eq!(a.atlas_buf, before);
    assert_eq!((a.next_x, a.next_y), (15 * CW, 5 * CH));
}

#[test]
fn builtin_block_is_placed_at_the_cursor() {
    let mut a = atlas();
    assert!(!a.needs_font_glyph('\u{2588}'));
    assert!(!a.needs_font_glyph('x'));
    assert!(a.needs_font_glyph('é'));
    let g = a.rasterize_char('\u{2588}', None).unwrap();
    assert_eq!(g, info(120, 80, CW, false));
    assert_eq!(a.glyph('\u{2588}'), Some(&g));
    for y in 80..96 {
        for x in 120..128 {
            assert_eq!(pixel(&a, x, y), [255, 255, 255, 255]);
        }
    }
    assert_eq!(pixel(&a, 128, 80), [0, 0, 0, 0]);
    assert_eq!((a.next_x, a.next_y), (128, 80));
}

#[test]
fn wide_characters_take_two_cells() {
    let mut a = atlas();
    let g = a.rasterize_char('中', Some(&coverage(90))).unwrap();
    assert_eq!(g, info(120, 80, 2 * CW, false));
    assert_eq!(pixel(&a, 120, 80), [255, 255, 255, 90]);
    let e = a.rasterize_char('é', Some(&coverage(50))).unwrap();
    assert_eq!(e, info(136, 80, CW, false));
}

#[test]
fn colour_glyphs_are_marked() {
    let mut a = atlas();
    let emoji = RenderedGlyph { code: 'g', width: 1, rows: 1, pitch: 4, left: 0, top: 12, is_color: true, buffer: vec![10, 20, 30, 255] };
    let g = a.rasterize_char('\u{1F600}', Some(&emoji)).unwrap();
    assert_eq!(g, info(120, 80, 2 * CW, true));
    assert_eq!(pixel(&a, 120, 80), [30, 20, 10, 255]);
}

#[test]
fn missing_glyph_without_rendering() {
    let mut a = atlas();
    assert_eq!(a.rasterize_char('\u{E000}', None), None);
    assert_eq!(a.glyph('\u{E000}'), None);
    assert_eq!((a.next_x, a.next_y), (15 * CW, 5 * CH));
}

#[test]
fn placing_a_glyph_keeps_the_others() {
    let mut a = atlas();
    let before = a.atlas_buf.clone();
    a.rasterize_char('\u{2588}', None).unwrap();
    let w4 = a.atlas_width as usize * 4;
    for (i, (&old, &new)) in before.iter().zip(a.atlas_buf.iter()).enumerate() {
        let (x, y) = ((i % w4) / 4, i / w4);
        let inside = (120..128).contains(&x) && (80..96).contains(&y);
        if !inside {
            assert_eq!(old, new);
        }
    }
}

#[test]
fn rows_wrap_and_the_atlas_grows() {
    let ascii: Vec<Option<RenderedGlyph>> = vec![None; 95];
    let mut a = GlyphAtlas::new(8, 100, 80, &ascii);
    assert_eq!((a.atlas_width, a.atlas_height), (2048, 600));
    // Fill the rest of the last ASCII row.
    let mut c = 0x100u32;
    let mut placed = 0;
    while a.next_y == 500 {
        let ch = char::from_u32(c).unwrap();
        a.rasterize_char(ch, Some(&coverage(1))).unwrap();
        c += 1;
        placed += 1;
    }
    assert_eq!(placed, (2048 - 120) / 8 + 1);
    assert_eq!(a.next_y, 600);
    assert_eq!(a.atlas_height, 1200);
    assert_eq!(a.atlas_buf.len(), 2048 * 1200 * 4);
    assert!(a.texture_dirty);
    for g in a.glyphs.values() {
        assert!(g.x + g.width <= a.atlas_width && g.y + g.height <= a.atlas_height);
    }
}

#[test]
fn clusters_are_placed_once() {
    let mut a = atlas();
    let thumbs = "\u{4E2D}\u{301}";
    let g = a.rasterize_cluster(thumbs, Some(&coverage(10))).unwrap();
    assert_eq!(g, info(120, 80, 2 * CW, true));
    assert_eq!(a.cluster_glyph(thumbs), Some(&g));
    assert_eq!(a.rasterize_cluster(thumbs, None), Some(g));
    let accent = a.rasterize_cluster("e\u{301}", Some(&coverage(10))).unwrap();
    assert_eq!(accent, info(136, 80, CW, true));
    assert_eq!(a.rasterize_cluster("", Some(&coverage(10))), None);
    assert_eq!(a.rasterize_cluster("a\u{300}", None), None);
    assert_eq!(a.glyph('e'), Some(&info(5 * 8, 64, CW, false)));
}

#[test]
fn cluster_table_keeps_the_last_entry() {
    let mut m = ClusterGlyphs::new();
    assert_eq!(m.get("ab"), None);
    m.insert("ab".to_string(), info(0, 0, 8, false));
    m.insert("cd".to_string(), info(8, 0, 8, false));
    m.insert("ab".to_string(), info(16, 0, 8, true));
    assert_eq!(m.get("ab"), Some(&info(16, 0, 8, true)));
    assert_eq!(m.get("cd"), Some(&info(8, 0, 8, false)));
}

fn cell(c: char) -> CellText {
    CellText { c, cluster: None }
}

fn cluster(s: &str) -> CellText {
    CellText { c: ' ', cluster: Some(s.to_string()) }
}

#[test]
fn missing_glyphs_are_listed_once_in_order() {
    let mut a = atlas();
    a.rasterize_cluster("e\u{301}", Some(&coverage(10))).unwrap();
    let cells = vec![
        cell('h'),
        cell('é'),
        cell(' '),
        cell('\0'),
        cell('中'),
        cell('é'),
        cluster("e\u{301}"),
        cluster("a\u{300}"),
        cluster("a\u{300}"),
        cell('\u{2588}'),
    ];
    let (chars, clusters) = a.missing_glyphs(&cells);
    assert_eq!(chars, vec!['é', '中', '\u{2588}']);
    assert_eq!(clusters, vec!["a\u{300}".to_string()]);
    let (none, nothing) = a.missing_glyphs(&vec![]);
    assert!(none.is_empty() && nothing.is_empty());
}
