use kova::bitmap::{compose_glyph, draw_builtin_glyph, RenderedGlyph};

const W: usize = 8;
const H: usize = 16;

fn px(buf: &[u8], x: usize, y: usize) -> [u8; 4] {
    let o = y * W * 4 + x * 4;
    [buf[o], buf[o + 1], buf[o + 2], buf[o + 3]]
}

fn lit(buf: &[u8], x: usize, y: usize) -> bool {
    px(buf, x, y) == [255, 255, 255, 255]
}

fn draw(c: char) -> (bool, Vec<u8>) {
    let mut buf = vec![0u8; W * 4 * H];
    let handled = draw_builtin_glyph(c, &mut buf, W, H);
    (handled, buf)
}

#[test]
fn full_block_lights_every_pixel() {
    let (h, buf) = draw('\u{2588}');
    assert!(h);
    assert!(buf.iter().all(|&b| b == 255));
}

#[test]
fn half_blocks() {
    let (h, buf) = draw('\u{2580}');
    assert!(h);
    for y in 0..H {
        for x in 0..W {
            assert_eq!(lit(&buf, x, y), y < 8, "upper half at {x},{y}");
        }
    }
    let (_, buf) = draw('\u{2590}');
    for y in 0..H {
        for x in 0..W {
            assert_eq!(lit(&buf, x, y), x >= 4, "right half at {x},{y}");
        }
    }
    // Lower one eighth: rows 14 and 15.
    let (_, buf) = draw('\u{2581}');
    for y in 0..H {
        assert_eq!(lit(&buf, 0, y), y >= 14);
    }
}

#[test]
fn quadrants() {
    let (h, buf) = draw('\u{259A}');
    assert!(h);
    for y in 0..H {
        for x in 0..W {
            let expected = (x < 4 && y < 8) || (x >= 4 && y >= 8);
            assert_eq!(lit(&buf, x, y), expected);
        }
    }
}

#[test]
fn box_drawing_lines() {
    let (h, buf) = draw('\u{2500}');
    assert!(h);
    for y in 0..H {
        for x in 0..W {
            assert_eq!(lit(&buf, x, y), y == 8);
        }
    }
    let (_, buf) = draw('\u{2503}');
    for y in 0..H {
        for x in 0..W {
            assert_eq!(lit(&buf, x, y), (3..6).contains(&x));
        }
    }
    let (_, buf) = draw('\u{250C}');
    for y in 0..H {
        for x in 0..W {
            let expected = (x == 4 && y >= 8) || (y == 8 && x >= 4);
            assert_eq!(lit(&buf, x, y), expected);
        }
    }
    let (_, buf) = draw('\u{2550}');
    for y in 0..H {
        assert_eq!(lit(&buf, 2, y), y == 7 || y == 9);
    }
}

#[test]
fn shades_are_dot_patterns() {
    let (h, buf) = draw('\u{2592}');
    assert!(h);
    for y in 0..H {
        for x in 0..W {
            assert_eq!(lit(&buf, x, y), (x + y) % 2 == 0);
        }
    }
    let (_, light) = draw('\u{2591}');
    let (_, dark) = draw('\u{2593}');
    for y in 0..H {
        for x in 0..W {
            assert_eq!(lit(&light, x, y), (x + y) % 4 == 0);
            assert_eq!(lit(&dark, x, y), (x + y) % 4 != 0);
        }
    }
}

#[test]
fn other_characters_are_not_drawn() {
    let mut buf = vec![7u8; W * 4 * H];
    assert!(!draw_builtin_glyph('a', &mut buf, W, H));
    assert!(!draw_builtin_glyph('\u{2595}', &mut buf, W, H));
    assert!(buf.iter().all(|&b| b == 7));
}

#[test]
fn drawing_keeps_unlit_pixels() {
    let mut buf = vec![9u8; W * 4 * H];
    assert!(draw_builtin_glyph('\u{2584}', &mut buf, W, H));
    assert_eq!(buf[0], 9);
    assert!(lit(&buf, 0, 8));
}

#[test]
fn compose_coverage_glyph() {
    let g = RenderedGlyph { code: 'g', width: 2, rows: 2, pitch: 2, left: 1, top: 10, is_color: false, buffer: vec![0, 128, 255, 0] };
    let buf = compose_glyph(&g, 12, 4, 4);
    assert_eq!(buf.len(), 64);
    let at = |x: usize, y: usize| -> [u8; 4] {
        let o = y * 16 + x * 4;
        [buf[o], buf[o + 1], buf[o + 2], buf[o + 3]]
    };
    assert_eq!(at(1, 2), [0, 0, 0, 0]);
    assert_eq!(at(2, 2), [255, 255, 255, 128]);
    assert_eq!(at(1, 3), [255, 255, 255, 255]);
    assert_eq!(at(2, 3), [0, 0, 0, 0]);
    let lit_count = buf.chunks(4).filter(|p| p[3] != 0).count();
    assert_eq!(lit_count, 2);
}

#[test]
fn compose_color_glyph_swaps_to_rgba() {
    let g = RenderedGlyph { code: 'g', width: 1, rows: 1, pitch: 4, left: 0, top: 12, is_color: true, buffer: vec![1, 2, 3, 4] };
    let buf = compose_glyph(&g, 12, 2, 2);
    assert_eq!(&buf[0..4], &[3, 2, 1, 4]);
    assert!(buf[4..].iter().all(|&b| b == 0));
}

#[test]
fn compose_clips_to_the_cell() {
    // A glyph above the top of the cell starts at row 0; negative left is clamped.
    let g = RenderedGlyph { code: 'g', width: 3, rows: 1, pitch: 3, left: -2, top: 20, is_color: false, buffer: vec![10, 20, 30] };
    let buf = compose_glyph(&g, 12, 2, 1);
    assert_eq!(buf, vec![255, 255, 255, 10, 255, 255, 255, 20]);
}

#[test]
fn longer_buffer_keeps_the_bytes_past_the_cell() {
    let mut buf = vec![7u8; W * 4 * H + 10];
    assert!(draw_builtin_glyph('\u{2588}', &mut buf, W, H));
    assert!(buf[..W * 4 * H].iter().all(|&b| b == 255));
    assert!(buf[W * 4 * H..].iter().all(|&b| b == 7));
    let mut buf = vec![7u8; W * 4 * H + 3];
    assert!(!draw_builtin_glyph('A', &mut buf, W, H));
    assert!(buf.iter().all(|&b| b == 7));
}

#[test]
fn empty_cells_draw_nothing() {
    let mut buf = vec![9u8; 12];
    let handled = draw_builtin_glyph('\u{2588}', &mut buf, 0, 5);
    assert!(handled);
    assert!(buf.iter().all(|&b| b == 9));
    let handled = draw_builtin_glyph('\u{2500}', &mut buf, 3, 0);
    assert!(handled);
    assert!(buf.iter().all(|&b| b == 9));
}

#[test]
fn handled_characters() {
    for c in ['\u{2594}', '\u{2554}', '\u{2504}', 'A', '\u{2595}', '\u{2571}'] {
        assert!(!draw(c).0, "{c:?}");
        assert!(draw(c).1.iter().all(|&b| b == 0), "{c:?}");
    }
    for c in ['\u{2580}', '\u{2593}', '\u{2596}', '\u{259F}', '\u{2500}', '\u{2503}', '\u{256D}', '\u{2570}', '\u{250C}', '\u{2510}', '\u{2514}', '\u{2518}', '\u{251C}', '\u{2524}', '\u{252C}', '\u{2534}', '\u{253C}', '\u{2550}', '\u{2551}'] {
        assert!(draw(c).0, "{c:?}");
        assert!(draw(c).1.iter().all(|&b| b == 0 || b == 255), "{c:?}");
    }
}
