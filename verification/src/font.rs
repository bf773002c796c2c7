//! Glyph rasterization with FreeType: which font face draws a character, and
//! how its bitmap is loaded — as a colour bitmap when the face has one, else
//! as a lightly hinted coverage bitmap.
use vstd::prelude::*;
use freetype::bitmap::PixelMode;
use freetype::face::LoadFlag;
use freetype::Face;

use crate::bitmap::{rendered_well_formed, rendered_wf, RenderedGlyph};
use crate::renderer::{contains_seq, occurs_at};
use crate::text::{chars_of, lower_chars, lower_seq};

verus! {

#[verifier::external_type_specification]
#[verifier::external_body]
#[verifier::reject_recursive_types(BYTES)]
pub struct ExFace<BYTES>(Face<BYTES>);

/// `Face::get_char_index`: whether the face has a glyph for `c`, given with
/// the character asked about. The answer depends on the font file and is
/// not stated; the character is.
#[verifier::external_body]
fn face_has_char(face: &Face, c: char) -> (r: (char, bool))
    ensures
        r.0 == c,
{
    (c, face.get_char_index(c as usize).is_some())
}

/// How a glyph is loaded: rendered in colour where the face has colour
/// glyphs, or as a lightly hinted coverage bitmap.
enum LoadMode {
    Color,
    Light,
}

/// `Face::load_char` of `c` (with `RENDER | COLOR`, or `RENDER |
/// FORCE_AUTOHINT | TARGET_LIGHT`), then the bitmap in the glyph slot
/// (`GlyphSlot::bitmap`, `bitmap_left`, `bitmap_top`, `Bitmap::pixel_mode`):
/// `None` when FreeType reports an error, else the bitmap, tagged with the
/// character loaded and marked as colour when its pixel mode is BGRA. Its
/// geometry comes from the font; stated are the tag and that
/// `Bitmap::buffer` holds `|pitch| * rows` bytes where that product fits the
/// `i32` in which the crate computes it.
#[verifier::external_body]
fn load_rendering(face: &Face, c: char, mode: LoadMode) -> (r: Option<RenderedGlyph>)
    ensures
        r matches Some(g) ==> g.code == c && (g.pitch <= i32::MAX && g.pitch * g.rows <= i32::MAX
            ==> g.buffer@.len() == g.pitch * g.rows),
{
    let flags = match mode {
        LoadMode::Color => LoadFlag::RENDER | LoadFlag::COLOR,
        LoadMode::Light => LoadFlag::RENDER | LoadFlag::FORCE_AUTOHINT | LoadFlag::TARGET_LIGHT,
    };
    face.load_char(c as usize, flags).ok()?;
    let (slot, b) = (face.glyph(), face.glyph().bitmap());
    let is_color = matches!(b.pixel_mode(), Ok(PixelMode::Bgra));
    let (width, rows, pitch) = (b.width() as usize, b.rows() as usize, b.pitch().unsigned_abs() as usize);
    let (left, top, buffer) = (slot.bitmap_left(), slot.bitmap_top(), b.buffer().to_vec());
    Some(RenderedGlyph { code: c, width, rows, pitch, left, top, is_color, buffer })
}

/// The first index whose flag is set, if any.
pub open spec fn first_set(flags: Seq<bool>) -> Option<usize> {
    if exists|i: int| 0 <= i < flags.len() && flags[i] {
        Some(
            (choose|i: int|
                0 <= i < flags.len() && flags[i] && forall|j: int| 0 <= j < i ==> !flags[j]) as usize,
        )
    } else {
        None
    }
}

proof fn lemma_first_set(flags: Seq<bool>, i: int)
    requires
        0 <= i < flags.len(),
        flags[i],
        forall|j: int| 0 <= j < i ==> !flags[j],
    ensures
        first_set(flags) == Some(i as usize),
{
    let k = choose|k: int| 0 <= k < flags.len() && flags[k] && forall|j: int| 0 <= j < k ==> !flags[j];
    assert(0 <= k < flags.len() && flags[k] && forall|j: int| 0 <= j < k ==> !flags[j]);
    if k < i {
        assert(!flags[k]);
    } else if i < k {
        assert(!flags[i]);
    }
}

/// The face to draw with, given for each face whether it has the glyph:
/// the first one that has it.
pub fn first_face_index(has_glyph: &Vec<bool>) -> (r: Option<usize>)
    ensures
        r == first_set(has_glyph@),
        r matches Some(i) ==> i < has_glyph.len(),
{
    let mut i: usize = 0;
    while i < has_glyph.len()
        invariant
            i <= has_glyph.len(),
            forall|j: int| 0 <= j < i ==> !has_glyph@[j],
        decreases has_glyph.len() - i,
    {
        if has_glyph[i] {
            proof {
                lemma_first_set(has_glyph@, i as int);
            }
            return Some(i);
        }
        i = i + 1;
    }
    None
}

/// The answers of the faces, each as whether it has the glyph.
pub open spec fn answers(asked: Seq<(char, bool)>) -> Seq<bool> {
    asked.map_values(|p: (char, bool)| p.1)
}

/// The index of the first face in `faces` that has a glyph for `c`: each
/// face is asked about `c` through FreeType (whose answers depend on the
/// fonts), and the first that has the glyph is chosen.
pub fn first_face_with(faces: &Vec<Face>, c: char) -> (r: Option<usize>)
    ensures
        exists|asked: Seq<(char, bool)>|
            asked.len() == faces.len() && (forall|k: int| 0 <= k < asked.len() ==> (#[trigger] asked[k]).0
                == c) && r == first_set(answers(asked)),
        r matches Some(i) ==> i < faces.len(),
{
    let mut asked: Vec<(char, bool)> = Vec::new();
    let mut has_glyph: Vec<bool> = Vec::new();
    let mut i: usize = 0;
    while i < faces.len()
        invariant
            i <= faces.len(),
            asked.len() == i,
            forall|k: int| 0 <= k < asked.len() ==> (#[trigger] asked@[k]).0 == c,
            has_glyph@ == answers(asked@),
        decreases faces.len() - i,
    {
        let a = face_has_char(&faces[i], c);
        asked.push(a);
        has_glyph.push(a.1);
        i = i + 1;
        proof {
            assert(has_glyph@ =~= answers(asked@));
        }
    }
    let r = first_face_index(&has_glyph);
    proof {
        assert(answers(asked@).len() == faces.len());
    }
    r
}

/// What a loaded bitmap gives: the bitmap when FreeType loaded the glyph and
/// the bitmap has the geometry the atlas relies on, else nothing.
pub open spec fn loaded_rendering(loaded: bool, g: RenderedGlyph) -> Option<RenderedGlyph> {
    if loaded && rendered_wf(g) {
        Some(g)
    } else {
        None
    }
}

/// Keeps the bitmap `g` of a glyph load that succeeded (`loaded`) when it
/// has the geometry the atlas relies on.
pub fn keep_rendering(loaded: bool, g: RenderedGlyph) -> (r: Option<RenderedGlyph>)
    ensures
        r == loaded_rendering(loaded, g),
{
    if loaded && rendered_well_formed(&g) {
        Some(g)
    } else {
        None
    }
}

/// The rendering of `c` by `face`: a colour bitmap when the face loads `c`
/// as one, else a lightly hinted coverage bitmap; `None` when
/// neither load succeeds or the bitmap lacks the geometry the atlas relies
/// on. Whether the loads succeed and what bitmap they give depend on the
/// font; the bitmap kept is one loaded for `c`.
pub fn render_char(face: &Face, c: char) -> (r: Option<RenderedGlyph>)
    ensures
        r matches Some(g) ==> rendered_wf(g) && g.code == c,
        exists|loaded: bool, g: RenderedGlyph| g.code == c && r == #[trigger] loaded_rendering(loaded, g),
{
    if let Some(g) = load_rendering(face, c, LoadMode::Color) {
        if g.is_color {
            let ghost gv = g;
            let r = keep_rendering(true, g);
            proof {
                assert(gv.code == c && r == loaded_rendering(true, gv));
            }
            return r;
        }
    }
    render_coverage_char(face, c)
}

/// The lightly hinted coverage bitmap of `c` in `face`, as the initial
/// atlas draws the printable ASCII characters; `None` when FreeType cannot
/// load `c` or its bitmap lacks the geometry the atlas relies on. Whether the
/// load succeeds and what bitmap it gives depend on the font; the bitmap
/// kept is one loaded for `c`, read as coverage.
pub fn render_coverage_char(face: &Face, c: char) -> (r: Option<RenderedGlyph>)
    ensures
        r matches Some(g) ==> rendered_wf(g) && !g.is_color && g.code == c,
        exists|loaded: bool, g: RenderedGlyph|
            !g.is_color && g.code == c && r == #[trigger] loaded_rendering(loaded, g),
{
    match load_rendering(face, c, LoadMode::Light) {
        Some(g) => {
            let g = RenderedGlyph { is_color: false, ..g };
            let ghost gv = g;
            let r = keep_rendering(true, g);
            proof {
                assert(!gv.is_color && gv.code == c && r == loaded_rendering(true, gv));
            }
            r
        },
        None => {
            let ghost g0 = RenderedGlyph {
                code: c,
                width: 0,
                rows: 0,
                pitch: 0,
                left: 0,
                top: 0,
                is_color: false,
                buffer: vstd::pervasive::arbitrary(),
            };
            proof {
                assert(!g0.is_color && g0.code == c && None::<RenderedGlyph> == loaded_rendering(
                    false,
                    g0,
                ));
            }
            None
        },
    }
}

/// Whether one text contains the other, without regard to ASCII case.
pub open spec fn names_overlap(a: Seq<char>, b: Seq<char>) -> bool {
    (exists|i: int| occurs_at(lower_seq(a), lower_seq(b), i)) || (exists|i: int|
        occurs_at(lower_seq(b), lower_seq(a), i))
}

/// Whether the font that fontconfig found for a family name is that family:
/// fontconfig always answers with its best match, so the match is kept only
/// when one name contains the other, without regard to ASCII case.
pub fn font_name_matches(requested: &str, found: &str) -> (r: bool)
    ensures
        r == names_overlap(found@, requested@),
{
    let req = lower_chars(&chars_of(requested));
    let got = lower_chars(&chars_of(found));
    contains_seq(&got, &req) || contains_seq(&req, &got)
}

} // verus!
