use kova::bitmap::RenderedGlyph;
use kova::font::{
    first_face_index, first_face_with, font_name_matches, keep_rendering, render_char, render_coverage_char,
};
use kova::glyph_atlas::GlyphAtlas;

const FONT: &str = "/usr/share/fonts/truetype/dejavu/DejaVuSansMono.ttf";

fn faces() -> Option<(freetype::Library, Vec<freetype::Face>)> {
    if !std::path::Path::new(FONT).exists() {
        println!("{FONT} is not installed here");
        return None;
    }
    let lib = freetype::Library::init().unwrap();
    let face = lib.new_face(FONT, 0).unwrap();
    face.set_pixel_sizes(0, 16).unwrap();
    Some((lib, vec![face]))
}

#[test]
fn coverage_rendering_of_ascii() {
    let Some((_lib, faces)) = faces() else { return };
    let g = render_coverage_char(&faces[0], 'A').unwrap();
    assert_eq!(g.code, 'A');
    assert!(!g.is_color);
    assert!(g.width > 0 && g.rows > 0 && g.width <= g.pitch);
    assert!(g.buffer.iter().any(|&b| b > 0));
    let g = render_char(&faces[0], 'x').unwrap();
    assert_eq!(g.code, 'x');
    assert!(!g.is_color);
    assert_eq!(render_char(&faces[0], 'é').unwrap().code, 'é');
    // The bitmaps of different characters differ.
    let a = render_coverage_char(&faces[0], 'A').unwrap();
    let l = render_coverage_char(&faces[0], 'l').unwrap();
    assert!(a.buffer != l.buffer || a.width != l.width);
    // A space renders to an empty bitmap.
    let space = render_coverage_char(&faces[0], ' ').unwrap();
    assert_eq!(space.width * space.rows, 0);
}

#[test]
fn faces_are_chosen_by_coverage() {
    let Some((_lib, faces)) = faces() else { return };
    assert_eq!(first_face_with(&faces, 'A'), Some(0));
    assert_eq!(first_face_with(&faces, '\u{10FFFD}'), None);
    assert_eq!(first_face_with(&vec![], 'A'), None);
}

#[test]
fn atlas_from_a_face() {
    let Some((_lib, faces)) = faces() else { return };
    let mut a = GlyphAtlas::from_face(10, 19, 15, &faces[0]);
    assert_eq!((a.atlas_width, a.atlas_height), (2048, 512));
    let g = *a.glyph('A').unwrap();
    let w4 = a.atlas_width as usize * 4;
    let lit = (g.y..g.y + g.height).any(|y| {
        (g.x..g.x + g.width).any(|x| a.atlas_buf[y as usize * w4 + x as usize * 4 + 3] > 0)
    });
    assert!(lit);
    // A character the face has is rendered; a block element is drawn built-in.
    let e = a.rasterize_char_with('é', &faces).unwrap();
    assert_eq!((e.x, e.y, e.width, e.is_color), (150, 95, 10, false));
    let b = a.rasterize_char_with('\u{2588}', &faces).unwrap();
    assert_eq!((b.x, b.width), (160, 10));
    // No face has a private-use character.
    assert_eq!(a.rasterize_char_with('\u{10FFFD}', &faces), None);
    assert_eq!((a.next_x, a.next_y), (170, 95));
    let c = a.rasterize_cluster_with("e\u{301}", &faces).unwrap();
    assert_eq!((c.x, c.width, c.is_color), (170, 10, true));
}

#[test]
fn font_names_match_without_regard_to_case() {
    assert!(font_name_matches("Hack", "Hack"));
    assert!(font_name_matches("hack", "HACK Nerd Font"));
    assert!(font_name_matches("DejaVu Sans Mono", "dejavu sans"));
    assert!(!font_name_matches("Hack", "DejaVu Sans Mono"));
    assert!(font_name_matches("", "Anything"));
}

#[test]
fn first_face_that_has_the_glyph() {
    assert_eq!(first_face_index(&vec![false, true, true]), Some(1));
    assert_eq!(first_face_index(&vec![true]), Some(0));
    assert_eq!(first_face_index(&vec![false, false]), None);
    assert_eq!(first_face_index(&vec![]), None);
}

#[test]
fn loaded_bitmaps_are_kept_when_well_formed() {
    let g = RenderedGlyph { code: 'g', width: 2, rows: 1, pitch: 2, left: 0, top: 0, is_color: false, buffer: vec![1, 2] };
    assert!(keep_rendering(true, g.clone()).is_some());
    assert!(keep_rendering(false, g.clone()).is_none());
    let short = RenderedGlyph { buffer: vec![1], ..g.clone() };
    assert!(keep_rendering(true, short).is_none());
    let narrow = RenderedGlyph { pitch: 1, ..g.clone() };
    assert!(keep_rendering(true, narrow).is_none());
    let colour = RenderedGlyph { is_color: true, buffer: vec![], ..g };
    assert!(keep_rendering(true, colour).is_some());
}
