//! The glyph atlas: one RGBA texture into which glyph bitmaps are packed in
//! rows of cell height, left to right, growing downwards when a row is full.
use vstd::prelude::*;
use std::collections::HashMap;
use vstd::string::StringExecFns;

use crate::bitmap::{
    builtin_covers, col_of, compose_glyph, composed_byte, draw_builtin_glyph, is_builtin, is_builtin_char, lemma_builtin_set,
    lemma_byte_in_bounds, lemma_byte_position, lemma_row_in_bounds, rendered_wf, row_of,
    RenderedGlyph,
};
use crate::font::{first_face_with, render_char, render_coverage_char};
use crate::text::{chars_eq, chars_of};
use freetype::Face;

verus! {

broadcast use vstd::std_specs::hash::group_hash_axioms;

/// Where a glyph lies in the atlas, in pixels.
#[derive(Copy, Clone, Debug, PartialEq, Eq, Structural)]
pub struct GlyphInfo {
    pub x: u32,
    pub y: u32,
    pub width: u32,
    pub height: u32,
    pub is_color: bool,
}

/// Two glyph areas share no pixel.
pub open spec fn areas_disjoint(a: GlyphInfo, b: GlyphInfo) -> bool {
    ||| a.x + a.width <= b.x
    ||| b.x + b.width <= a.x
    ||| a.y + a.height <= b.y
    ||| b.y + b.height <= a.y
}

/// Whether pixel `(x, y)` lies in the area of glyph `g`.
pub open spec fn in_area(g: GlyphInfo, x: int, y: int) -> bool {
    g.x <= x < g.x + g.width && g.y <= y < g.y + g.height
}

/// A glyph of cell height that lies before the packing cursor `(nx, ny)`:
/// in an earlier row, or in the cursor's row left of it.
pub open spec fn placed_before(g: GlyphInfo, nx: int, ny: int, cell_h: int) -> bool {
    g.height == cell_h && (g.y + cell_h <= ny || (g.y == ny && g.x + g.width <= nx))
}

/// The map that a sequence of cluster entries builds when inserted in order.
pub open spec fn cluster_map(s: Seq<(String, GlyphInfo)>) -> Map<Seq<char>, GlyphInfo>
    decreases s.len(),
{
    if s.len() == 0 {
        Map::empty()
    } else {
        cluster_map(s.drop_last()).insert(s.last().0@, s.last().1)
    }
}

proof fn lemma_cluster_last_wins(s: Seq<(String, GlyphInfo)>, k: Seq<char>, idx: int)
    requires
        0 <= idx < s.len(),
        s[idx].0@ == k,
        forall|j: int| idx < j < s.len() ==> s[j].0@ != k,
    ensures
        cluster_map(s).contains_key(k),
        cluster_map(s)[k] == s[idx].1,
    decreases s.len(),
{
    if idx < s.len() - 1 {
        lemma_cluster_last_wins(s.drop_last(), k, idx);
    }
}

proof fn lemma_cluster_absent(s: Seq<(String, GlyphInfo)>, k: Seq<char>)
    requires
        forall|j: int| 0 <= j < s.len() ==> s[j].0@ != k,
    ensures
        !cluster_map(s).contains_key(k),
    decreases s.len(),
{
    if s.len() > 0 {
        lemma_cluster_absent(s.drop_last(), k);
    }
}

/// The glyphs of multi-codepoint grapheme clusters, keyed by their text. The
/// entries are kept in the order they were added, and a lookup finds the
/// last entry of the text, comparing character by character: `std`'s hash
/// maps have no specification for `String` keys that a lookup could be
/// proved against.
pub struct ClusterGlyphs {
    entries: Vec<(String, GlyphInfo)>,
}

impl View for ClusterGlyphs {
    type V = Map<Seq<char>, GlyphInfo>;

    closed spec fn view(&self) -> Map<Seq<char>, GlyphInfo> {
        cluster_map(self.entries@)
    }
}

impl ClusterGlyphs {
    pub fn new() -> (m: Self)
        ensures
            m@ == Map::<Seq<char>, GlyphInfo>::empty(),
    {
        ClusterGlyphs { entries: Vec::new() }
    }

    pub fn get(&self, cluster: &str) -> (r: Option<&GlyphInfo>)
        ensures
            r == (if self@.contains_key(cluster@) {
                Some(&self@[cluster@])
            } else {
                None::<&GlyphInfo>
            }),
    {
        let key = String::from_str(cluster);
        let mut i = self.entries.len();
        while i > 0
            invariant
                i <= self.entries.len(),
                key@ == cluster@,
                forall|j: int| i <= j < self.entries.len() ==> self.entries@[j].0@ != cluster@,
            decreases i,
        {
            if self.entries[i - 1].0 == key {
                proof {
                    lemma_cluster_last_wins(self.entries@, cluster@, i - 1);
                }
                return Some(&self.entries[i - 1].1);
            }
            i = i - 1;
        }
        proof {
            lemma_cluster_absent(self.entries@, cluster@);
        }
        None
    }

    pub fn insert(&mut self, cluster: String, g: GlyphInfo)
        ensures
            final(self)@ == old(self)@.insert(cluster@, g),
    {
        self.entries.push((cluster, g));
        proof {
            assert(self.entries@.drop_last() =~= old(self).entries@);
        }
    }
}

/// Copies a block of `nrows` rows of `ncols` bytes from `src` (rows `sbpr`
/// bytes apart) into `dst` (rows `dbpr` bytes apart, `dh` rows) at byte
/// column `dx` of row `dy`; rows past the end of `dst` are dropped.
fn copy_block(
    dst: &mut Vec<u8>,
    dbpr: usize,
    dh: usize,
    src: &Vec<u8>,
    sbpr: usize,
    dx: usize,
    dy: usize,
    nrows: usize,
    ncols: usize,
)
    requires
        old(dst).len() == dbpr * dh,
        dx + ncols <= dbpr,
        ncols <= sbpr,
        src.len() == sbpr * nrows,
    ensures
        final(dst).len() == old(dst).len(),
        forall|i: int|
            0 <= i < final(dst).len() ==> #[trigger] final(dst)@[i] == if dy <= row_of(
                i,
                dbpr as int,
            ) < dy + nrows && dx <= i % (dbpr as int) < dx + ncols {
                src@[(row_of(i, dbpr as int) - dy) * sbpr + (i % (dbpr as int) - dx)]
            } else {
                old(dst)@[i]
            },
{
    let mut py: usize = 0;
    while py < nrows && dy + py < dh
        invariant
            dst.len() == dbpr * dh,
            dx + ncols <= dbpr,
            ncols <= sbpr,
            src.len() == sbpr * nrows,
            py <= nrows,
            dy + py <= dh || py == 0,
            forall|i: int|
                0 <= i < dst.len() ==> #[trigger] dst@[i] == if dy <= row_of(i, dbpr as int) < dy
                    + py && dx <= i % (dbpr as int) < dx + ncols {
                    src@[(row_of(i, dbpr as int) - dy) * sbpr + (i % (dbpr as int) - dx)]
                } else {
                    old(dst)@[i]
                },
        decreases nrows - py,
    {
        let dst_y = dy + py;
        let mut k: usize = 0;
        while k < ncols
            invariant
                dst.len() == dbpr * dh,
                dx + ncols <= dbpr,
                ncols <= sbpr,
                src.len() == sbpr * nrows,
                py < nrows,
                dst_y == dy + py,
                dst_y < dh,
                k <= ncols,
                forall|i: int|
                    0 <= i < dst.len() ==> #[trigger] dst@[i] == if (dy <= row_of(i, dbpr as int)
                        < dy + py && dx <= i % (dbpr as int) < dx + ncols) || (row_of(
                        i,
                        dbpr as int,
                    ) == dst_y && dx <= i % (dbpr as int) < dx + k) {
                        src@[(row_of(i, dbpr as int) - dy) * sbpr + (i % (dbpr as int) - dx)]
                    } else {
                        old(dst)@[i]
                    },
            decreases ncols - k,
        {
            proof {
                lemma_byte_in_bounds(dst_y as int, (dx + k) as int, dbpr as int, dh as int);
                lemma_byte_in_bounds(py as int, k as int, sbpr as int, nrows as int);
            }
            let off = dst_y * dbpr + dx + k;
            let v = src[py * sbpr + k];
            let ghost before = dst@;
            dst.set(off, v);
            proof {
                assert forall|i: int| 0 <= i < dst.len() implies #[trigger] dst@[i] == if (dy
                    <= row_of(i, dbpr as int) < dy + py && dx <= i % (dbpr as int) < dx + ncols) || (
                row_of(i, dbpr as int) == dst_y && dx <= i % (dbpr as int) < dx + k + 1) {
                    src@[(row_of(i, dbpr as int) - dy) * sbpr + (i % (dbpr as int) - dx)]
                } else {
                    old(dst)@[i]
                } by {
                    lemma_row_in_bounds(i, dbpr as int, dh as int);
                    if i == off {
                        lemma_byte_position(dst_y as int, (dx + k) as int, dbpr as int);
                    } else {
                        assert(dst@[i] == before[i]);
                        if row_of(i, dbpr as int) == dst_y && i % (dbpr as int) == dx + k {
                            assert(false);
                        }
                    }
                }
            }
            k = k + 1;
        }
        py = py + 1;
    }
    proof {
        assert forall|i: int| 0 <= i < dst.len() implies #[trigger] dst@[i] == if dy <= row_of(
            i,
            dbpr as int,
        ) < dy + nrows && dx <= i % (dbpr as int) < dx + ncols {
            src@[(row_of(i, dbpr as int) - dy) * sbpr + (i % (dbpr as int) - dx)]
        } else {
            old(dst)@[i]
        } by {
            if dbpr > 0 {
                lemma_row_in_bounds(i, dbpr as int, dh as int);
            }
        }
    }
}

/// Where the next glyph of width `w` goes: at the cursor, or at the start of
/// the next row when it does not fit in what is left of the cursor's row.
pub open spec fn next_slot(nx: int, ny: int, atlas_w: int, cell_h: int, w: int) -> (int, int) {
    if nx + w > atlas_w {
        (0, ny + cell_h)
    } else {
        (nx, ny)
    }
}

/// The atlas height after placing a glyph at row `y`: doubled once when the
/// glyph's row does not fit.
pub open spec fn grown_height(y: int, cell_h: int, atlas_h: int) -> int {
    if y + cell_h > atlas_h {
        atlas_h * 2
    } else {
        atlas_h
    }
}

/// Where the initial atlas puts printable ASCII character `32 + k`: sixteen
/// cells per row, in code-point order.
pub open spec fn ascii_glyph(k: int, cw: u32, ch: u32) -> GlyphInfo {
    GlyphInfo {
        x: ((k % 16) * cw) as u32,
        y: ((k / 16) * ch) as u32,
        width: cw,
        height: ch,
        is_color: false,
    }
}

/// Width of the initial atlas: sixteen cells, at least 2048 pixels.
pub open spec fn initial_atlas_width(cw: u32) -> int {
    if 16 * cw > 2048 {
        16 * cw
    } else {
        2048
    }
}

/// Height of the initial atlas: six rows of cells, at least 512 pixels.
pub open spec fn initial_atlas_height(ch: u32) -> int {
    if 6 * ch > 512 {
        6 * ch
    } else {
        512
    }
}

proof fn lemma_ascii_cells(j: int, k: int, cw: u32, ch: u32)
    by (nonlinear_arith)
    requires
        0 <= j < 95,
        0 <= k < 95,
        j != k,
        16 * cw <= u32::MAX,
        6 * ch <= u32::MAX,
    ensures
        areas_disjoint(ascii_glyph(j, cw, ch), ascii_glyph(k, cw, ch)),
{
    let rj = j / 16;
    let rk = k / 16;
    let cj = j % 16;
    let ck = k % 16;
    assert(0 <= rj <= 5 && 0 <= rk <= 5 && 0 <= cj < 16 && 0 <= ck < 16);
    assert(0 <= cj * cw <= 15 * cw && 0 <= ck * cw <= 15 * cw);
    assert(0 <= rj * ch <= 5 * ch && 0 <= rk * ch <= 5 * ch);
    if rj < rk {
        assert(rj * ch + ch <= rk * ch);
    } else if rk < rj {
        assert(rk * ch + ch <= rj * ch);
    } else {
        assert(cj != ck);
        if cj < ck {
            assert(cj * cw + cw <= ck * cw);
        } else {
            assert(ck * cw + cw <= cj * cw);
        }
    }
}

proof fn lemma_ascii_cell_bounds(k: int, cw: u32, ch: u32)
    by (nonlinear_arith)
    requires
        0 <= k < 95,
        16 * cw <= u32::MAX,
        6 * ch <= u32::MAX,
    ensures
        placed_before(ascii_glyph(k, cw, ch), 15 * cw, 5 * ch, ch as int),
        (k % 16) * cw + cw <= 16 * cw,
        (k / 16) * ch + ch <= 6 * ch,
        0 <= (k % 16) * cw,
        0 <= (k / 16) * ch,
{
    let r = k / 16;
    let c = k % 16;
    assert(0 <= r <= 5 && 0 <= c < 16);
    if r == 5 {
        assert(c <= 14);
        assert(c * cw + cw <= 15 * cw);
    } else {
        assert(r * ch + ch <= 5 * ch);
    }
    assert(c * cw + cw <= 16 * cw);
    assert(r * ch + ch <= 6 * ch);
}

/// The pixels of the initial atlas `a`: the cell of printable ASCII
/// character `32 + k` holds `ascii[k]` composed at the atlas' baseline (or
/// stays transparent without a rendering), and every pixel outside the
/// cells is transparent.
pub open spec fn ascii_pixels(a: GlyphAtlas, ascii: Seq<Option<RenderedGlyph>>) -> bool {
    let cw = a.cell_width;
    let ch = a.cell_height;
    let w4 = 4 * a.atlas_width;
    &&& forall|k: int, i: int|
        0 <= k < 95 && 0 <= i < a.atlas_buf.len() && #[trigger] in_area(
            ascii_glyph(k, cw, ch),
            col_of(i, w4),
            row_of(i, w4),
        ) ==> #[trigger] a.atlas_buf@[i] == match ascii[k] {
            Some(g) => composed_byte(
                g,
                a.ascent as int,
                row_of(i, w4) - ascii_glyph(k, cw, ch).y,
                i % w4 - 4 * ascii_glyph(k, cw, ch).x,
            ),
            None => 0u8,
        }
    &&& forall|i: int|
        0 <= i < a.atlas_buf.len() && (forall|k: int|
            0 <= k < 95 ==> !#[trigger] in_area(ascii_glyph(k, cw, ch), col_of(i, w4), row_of(i, w4)))
            ==> #[trigger] a.atlas_buf@[i] == 0u8
}

pub struct GlyphAtlas {
    /// Glyphs of single characters, keyed by code point.
    pub glyphs: HashMap<u32, GlyphInfo>,
    pub cluster_glyphs: ClusterGlyphs,
    pub cell_width: u32,
    pub cell_height: u32,
    pub atlas_width: u32,
    pub atlas_height: u32,
    pub atlas_buf: Vec<u8>,
    /// Flag: atlas texture needs re-upload to GPU
    pub texture_dirty: bool,
    /// The packing cursor: where the next glyph goes if it fits in the row.
    pub next_x: u32,
    pub next_y: u32,
    /// Distance from the top of a cell to the baseline, in pixels.
    pub ascent: i32,
}

impl GlyphAtlas {
    /// The packing cursor.
    pub open spec fn cursor(&self) -> (int, int) {
        (self.next_x as int, self.next_y as int)
    }

    /// The atlas invariant: the buffer holds `atlas_width` by `atlas_height`
    /// RGBA pixels, the cursor's row lies in the atlas, a character glyph
    /// (at most three cells wide) fits in a row and lies within the atlas'
    /// columns, every glyph has cell height and lies before the packing
    /// cursor, and no two glyphs share a pixel.
    pub open spec fn wf(&self) -> bool {
        let g = self.glyphs@;
        let cl = self.cluster_glyphs@;
        let (nx, ny) = self.cursor();
        let ch = self.cell_height as int;
        &&& self.atlas_width * 4 <= usize::MAX
        &&& self.atlas_buf.len() == self.atlas_width * 4 * self.atlas_height
        &&& self.next_y + self.cell_height <= self.atlas_height
        &&& 3 * self.cell_width <= self.atlas_width
        &&& forall|c: u32| #[trigger] g.contains_key(c) ==> g[c].x + g[c].width <= self.atlas_width
        &&& self.cell_width * 3 <= u32::MAX
        &&& self.cell_width * 12 <= usize::MAX
        &&& self.cell_width * 12 * self.cell_height <= usize::MAX
        &&& forall|c: u32| #[trigger] g.contains_key(c) ==> placed_before(g[c], nx, ny, ch)
        &&& forall|s: Seq<char>| #[trigger] cl.contains_key(s) ==> placed_before(cl[s], nx, ny, ch)
        &&& forall|c1: u32, c2: u32|
            c1 != c2 && #[trigger] g.contains_key(c1) && #[trigger] g.contains_key(c2)
                ==> areas_disjoint(g[c1], g[c2])
        &&& forall|s1: Seq<char>, s2: Seq<char>|
            s1 != s2 && #[trigger] cl.contains_key(s1) && #[trigger] cl.contains_key(s2)
                ==> areas_disjoint(cl[s1], cl[s2])
        &&& forall|c: u32, s: Seq<char>|
            #[trigger] g.contains_key(c) && #[trigger] cl.contains_key(s) ==> areas_disjoint(
                g[c],
                cl[s],
            )
    }

    /// The atlas with the printable ASCII characters `' '..='~'` laid out in
    /// rows of sixteen cells; `ascii[k]` is the font's rendering of character
    /// `32 + k`, or `None` when the font could not load it (its cell stays
    /// blank). `ascent` is the distance from the top of a cell to the baseline.
    #[verifier::spinoff_prover]
    pub fn new(cell_width: u32, cell_height: u32, ascent: i32, ascii: &Vec<Option<RenderedGlyph>>) -> (a:
        GlyphAtlas)
        requires
            ascii.len() == 95,
            forall|k: int|
                0 <= k < 95 ==> (#[trigger] ascii@[k] matches Some(g) ==> !g.is_color && rendered_wf(g)),
            16 * cell_width <= u32::MAX,
            6 * cell_height <= u32::MAX,
            cell_width * 12 <= usize::MAX,
            cell_width * 12 * cell_height <= usize::MAX,
            initial_atlas_width(cell_width) * 4 <= usize::MAX,
            initial_atlas_width(cell_width) * 4 * initial_atlas_height(cell_height) <= usize::MAX,
        ensures
            a.wf(),
            a.cell_width == cell_width,
            a.cell_height == cell_height,
            a.ascent == ascent,
            a.atlas_width == initial_atlas_width(cell_width),
            a.atlas_height == initial_atlas_height(cell_height),
            a.texture_dirty,
            a.cursor() == (15 * cell_width, 5 * cell_height),
            a.cluster_glyphs@ == Map::<Seq<char>, GlyphInfo>::empty(),
            a.glyphs@ == Map::new(
                |c: u32| 32 <= c < 127,
                |c: u32| ascii_glyph(c - 32, cell_width, cell_height),
            ),
            ascii_pixels(a, ascii@),
    {
        let chars_per_row: u32 = 16;
        let atlas_width: u32 = if chars_per_row * cell_width > 2048 {
            chars_per_row * cell_width
        } else {
            2048
        };
        let atlas_height: u32 = if 6 * cell_height > 512 {
            6 * cell_height
        } else {
            512
        };
        let atlas_bpr = atlas_width as usize * 4;
        let mut atlas_buf: Vec<u8> = vec![0u8; atlas_bpr * atlas_height as usize];
        let mut glyphs: HashMap<u32, GlyphInfo> = HashMap::new();
        let ghost w4 = 4 * atlas_width;
        let mut k: usize = 0;
        while k < 95
            invariant
                ascii.len() == 95,
                forall|j: int|
                    0 <= j < 95 ==> (#[trigger] ascii@[j] matches Some(g) ==> !g.is_color
                        && rendered_wf(g)),
                16 * cell_width <= u32::MAX,
                6 * cell_height <= u32::MAX,
                cell_width * 12 <= usize::MAX,
                cell_width * 12 * cell_height <= usize::MAX,
                atlas_width == initial_atlas_width(cell_width),
                atlas_height == initial_atlas_height(cell_height),
                atlas_bpr == atlas_width * 4,
                w4 == atlas_bpr,
                atlas_buf.len() == atlas_bpr * atlas_height,
                k <= 95,
                glyphs@ == Map::new(
                    |c: u32| 32 <= c < 32 + k,
                    |c: u32| ascii_glyph(c - 32, cell_width, cell_height),
                ),
                forall|j: int, i: int|
                    0 <= j < k && 0 <= i < atlas_buf.len() && #[trigger] in_area(
                        ascii_glyph(j, cell_width, cell_height),
                        col_of(i, w4),
                        row_of(i, w4),
                    ) ==> #[trigger] atlas_buf@[i] == match ascii@[j] {
                        Some(g) => composed_byte(
                            g,
                            ascent as int,
                            row_of(i, w4) - ascii_glyph(j, cell_width, cell_height).y,
                            i % w4 - 4 * ascii_glyph(j, cell_width, cell_height).x,
                        ),
                        None => 0u8,
                    },
                forall|i: int|
                    0 <= i < atlas_buf.len() && (forall|j: int|
                        0 <= j < k ==> !#[trigger] in_area(
                            ascii_glyph(j, cell_width, cell_height),
                            col_of(i, w4),
                            row_of(i, w4),
                        )) ==> #[trigger] atlas_buf@[i] == 0u8,
            decreases 95 - k,
        {
            proof {
                lemma_ascii_cell_bounds(k as int, cell_width, cell_height);
            }
            let col = (k as u32) % 16;
            let row = (k as u32) / 16;
            assert(col == (k as int) % 16 && row == (k as int) / 16);
            let atlas_x = col * cell_width;
            let atlas_y = row * cell_height;
            let info = GlyphInfo {
                x: atlas_x,
                y: atlas_y,
                width: cell_width,
                height: cell_height,
                is_color: false,
            };
            assert(info == ascii_glyph(k as int, cell_width, cell_height));
            let ghost before = atlas_buf@;
            match &ascii[k] {
                Some(g) => {
                    let bmp_w = cell_width as usize;
                    let bmp_h = cell_height as usize;
                    assert(bmp_w * 4 * bmp_h <= cell_width * 12 * cell_height) by (nonlinear_arith)
                        requires
                            bmp_w == cell_width,
                            bmp_h == cell_height,
                    ;
                    let cell = compose_glyph(g, ascent, bmp_w, bmp_h);
                    copy_block(
                        &mut atlas_buf,
                        atlas_bpr,
                        atlas_height as usize,
                        &cell,
                        bmp_w * 4,
                        atlas_x as usize * 4,
                        atlas_y as usize,
                        bmp_h,
                        bmp_w * 4,
                    );
                },
                None => {},
            }
            glyphs.insert(32 + (k as u32), info);
            proof {
                assert(glyphs@ =~= Map::new(
                    |c: u32| 32 <= c < 32 + k + 1,
                    |c: u32| ascii_glyph(c - 32, cell_width, cell_height),
                ));
                assert forall|j: int, i: int|
                    0 <= j < k + 1 && 0 <= i < atlas_buf.len() && #[trigger] in_area(
                        ascii_glyph(j, cell_width, cell_height),
                        col_of(i, w4),
                        row_of(i, w4),
                    ) implies #[trigger] atlas_buf@[i] == match ascii@[j] {
                    Some(g) => composed_byte(
                        g,
                        ascent as int,
                        row_of(i, w4) - ascii_glyph(j, cell_width, cell_height).y,
                        i % w4 - 4 * ascii_glyph(j, cell_width, cell_height).x,
                    ),
                    None => 0u8,
                } by {
                    lemma_row_in_bounds(i, w4, atlas_height as int);
                    if j < k {
                        lemma_ascii_cells(j, k as int, cell_width, cell_height);
                        assert(!in_area(info, col_of(i, w4), row_of(i, w4)));
                        assert(atlas_buf@[i] == before[i]);
                    } else {
                        match ascii@[j] {
                            Some(g) => {
                                let r = row_of(i, w4) - info.y;
                                let b = i % w4 - 4 * info.x;
                                lemma_byte_position(r, b, 4 * cell_width);
                                lemma_byte_in_bounds(r, b, 4 * cell_width, cell_height as int);
                            },
                            None => {
                                assert(atlas_buf@[i] == before[i]);
                                assert forall|jj: int| 0 <= jj < k implies !#[trigger] in_area(
                                    ascii_glyph(jj, cell_width, cell_height),
                                    col_of(i, w4),
                                    row_of(i, w4),
                                ) by {
                                    lemma_ascii_cells(jj, k as int, cell_width, cell_height);
                                }
                            },
                        }
                    }
                }
                assert forall|i: int|
                    0 <= i < atlas_buf.len() && (forall|j: int|
                        0 <= j < k + 1 ==> !#[trigger] in_area(
                            ascii_glyph(j, cell_width, cell_height),
                            col_of(i, w4),
                            row_of(i, w4),
                        )) implies #[trigger] atlas_buf@[i] == 0u8 by {
                    lemma_row_in_bounds(i, w4, atlas_height as int);
                    assert(!in_area(
                        ascii_glyph(k as int, cell_width, cell_height),
                        col_of(i, w4),
                        row_of(i, w4),
                    ));
                    assert(atlas_buf@[i] == before[i]);
                }
            }
            k = k + 1;
        }
        let a = GlyphAtlas {
            glyphs,
            cluster_glyphs: ClusterGlyphs::new(),
            cell_width,
            cell_height,
            atlas_width,
            atlas_height,
            atlas_buf,
            texture_dirty: true,
            next_x: 15 * cell_width,
            next_y: 5 * cell_height,
            ascent,
        };
        proof {
            let g = a.glyphs@;
            assert forall|c: u32| #[trigger] g.contains_key(c) implies placed_before(
                g[c],
                15 * cell_width,
                5 * cell_height,
                cell_height as int,
            ) by {
                lemma_ascii_cell_bounds(c - 32, cell_width, cell_height);
            }
            assert forall|c: u32| #[trigger] g.contains_key(c) implies g[c].x + g[c].width
                <= atlas_width by {
                lemma_ascii_cell_bounds(c - 32, cell_width, cell_height);
            }
            assert forall|c1: u32, c2: u32|
                c1 != c2 && #[trigger] g.contains_key(c1) && #[trigger] g.contains_key(
                    c2,
                ) implies areas_disjoint(g[c1], g[c2]) by {
                lemma_ascii_cells(c1 - 32, c2 - 32, cell_width, cell_height);
            }
        }
        a
    }

    /// The glyph of a character, if it is in the atlas.
    pub fn glyph(&self, c: char) -> (r: Option<&GlyphInfo>)
        ensures
            r == (if self.glyphs@.contains_key(c as u32) {
                Some(&self.glyphs@[c as u32])
            } else {
                None::<&GlyphInfo>
            }),
    {
        self.glyphs.get(&(c as u32))
    }

    /// The glyph of a grapheme cluster, if it is in the atlas.
    pub fn cluster_glyph(&self, cluster: &str) -> (r: Option<&GlyphInfo>)
        ensures
            r == (if self.cluster_glyphs@.contains_key(cluster@) {
                Some(&self.cluster_glyphs@[cluster@])
            } else {
                None::<&GlyphInfo>
            }),
    {
        self.cluster_glyphs.get(cluster)
    }

    /// Places a cell-high bitmap of `bmp_w` pixels at the next free slot,
    /// growing the atlas once when the slot's row does not fit. Returns
    /// `None`, leaving the atlas unchanged, when the placement would leave the
    /// `u32` coordinate range or the buffer would outgrow the address space.
    #[verifier::spinoff_prover]
    fn insert_bitmap_raw(&mut self, bmp_buf: &Vec<u8>, bmp_w: usize, is_color: bool) -> (r: Option<
        GlyphInfo,
    >)
        requires
            old(self).wf(),
            bmp_buf.len() == bmp_w * 4 * old(self).cell_height,
            bmp_w <= u32::MAX,
            bmp_w * 4 <= usize::MAX,
        ensures
            final(self).glyphs == old(self).glyphs,
            final(self).cluster_glyphs == old(self).cluster_glyphs,
            final(self).cell_width == old(self).cell_width,
            final(self).cell_height == old(self).cell_height,
            final(self).atlas_width == old(self).atlas_width,
            final(self).ascent == old(self).ascent,
            ({
                let (nx, ny) = old(self).cursor();
                let slot = next_slot(
                    nx,
                    ny,
                    old(self).atlas_width as int,
                    old(self).cell_height as int,
                    bmp_w as int,
                );
                let gh = grown_height(
                    slot.1,
                    old(self).cell_height as int,
                    old(self).atlas_height as int,
                );
                let fits = slot.1 + old(self).cell_height <= u32::MAX && slot.0 + bmp_w <= u32::MAX
                    && gh <= u32::MAX && old(self).atlas_width * 4 * gh <= usize::MAX;
                match r {
                    None => !fits && *final(self) == *old(self),
                    Some(info) => {
                        &&& fits
                        &&& info == GlyphInfo {
                            x: slot.0 as u32,
                            y: slot.1 as u32,
                            width: bmp_w as u32,
                            height: old(self).cell_height,
                            is_color,
                        }
                        &&& final(self).atlas_height == gh
                        &&& final(self).cursor() == (slot.0 + bmp_w, slot.1)
                        &&& final(self).texture_dirty
                        &&& final(self).atlas_buf.len() == final(self).atlas_width * 4 * gh
                        &&& forall|i: int|
                            0 <= i < final(self).atlas_buf.len()
                                ==> #[trigger] final(self).atlas_buf@[i] == if in_area(
                                info,
                                col_of(i, 4 * final(self).atlas_width),
                                row_of(i, 4 * final(self).atlas_width),
                            ) {
                                bmp_buf@[(row_of(i, 4 * final(self).atlas_width) - info.y) * (4
                                    * bmp_w) + (i % (4 * final(self).atlas_width) - 4 * info.x)]
                            } else if i < old(self).atlas_buf.len() {
                                old(self).atlas_buf@[i]
                            } else {
                                0u8
                            }
                    },
                }
            }),
    {
        let ch = self.cell_height;
        let wrap = (self.next_x as u64) + (bmp_w as u64) > (self.atlas_width as u64);
        let x64: u64 = if wrap {
            0
        } else {
            self.next_x as u64
        };
        let y64: u64 = if wrap {
            (self.next_y as u64) + (ch as u64)
        } else {
            self.next_y as u64
        };
        if y64 + (ch as u64) > u32::MAX as u64 || x64 + (bmp_w as u64) > u32::MAX as u64 {
            return None;
        }
        let grow = y64 + (ch as u64) > self.atlas_height as u64;
        let new_h64: u64 = if grow {
            (self.atlas_height as u64) * 2
        } else {
            self.atlas_height as u64
        };
        if new_h64 > u32::MAX as u64 {
            return None;
        }
        let bpr = (self.atlas_width as usize) * 4;
        proof {
            assert((bpr as u128) * (new_h64 as u128) <= 0xffff_ffff_ffff_ffffu128 * 0xffff_ffffu128)
                by (nonlinear_arith)
                requires
                    bpr <= 0xffff_ffff_ffff_ffffu128,
                    new_h64 <= 0xffff_ffffu128,
            ;
        }
        let new_len = (bpr as u128) * (new_h64 as u128);
        if new_len > usize::MAX as u128 {
            return None;
        }
        let atlas_x = x64 as u32;
        let atlas_y = y64 as u32;
        let new_h = new_h64 as u32;
        let ghost old_buf = self.atlas_buf@;
        if grow {
            self.grow_atlas();
        }
        proof {
            assert(self.atlas_height == new_h);
            assert(self.atlas_buf.len() == bpr * new_h);
        }
        let ghost grown_buf = self.atlas_buf@;
        // Copy bitmap rows, clipped to the atlas width.
        let slot_bytes = bmp_w * 4;
        let room = bpr - (atlas_x as usize) * 4;
        let copy_bytes = if slot_bytes < room {
            slot_bytes
        } else {
            room
        };
        copy_block(
            &mut self.atlas_buf,
            bpr,
            new_h as usize,
            bmp_buf,
            slot_bytes,
            (atlas_x as usize) * 4,
            atlas_y as usize,
            ch as usize,
            copy_bytes,
        );
        self.texture_dirty = true;
        let info = GlyphInfo { x: atlas_x, y: atlas_y, width: bmp_w as u32, height: ch, is_color };
        self.next_x = atlas_x + (bmp_w as u32);
        self.next_y = atlas_y;
        proof {
            let w4 = 4 * self.atlas_width;
            assert forall|i: int| 0 <= i < self.atlas_buf.len() implies #[trigger] self.atlas_buf@[i]
                == if in_area(info, col_of(i, w4), row_of(i, w4)) {
                bmp_buf@[(row_of(i, w4) - info.y) * (4 * bmp_w) + (i % w4 - 4 * info.x)]
            } else if i < old_buf.len() {
                old_buf[i]
            } else {
                0u8
            } by {
                lemma_row_in_bounds(i, bpr as int, new_h as int);
                assert(w4 == bpr);
            }
        }
        Some(info)
    }

    /// Doubles the atlas height; the new rows are transparent.
    fn grow_atlas(&mut self)
        requires
            old(self).atlas_buf.len() == old(self).atlas_width * 4 * old(self).atlas_height,
            old(self).atlas_width * 4 <= usize::MAX,
            old(self).atlas_height * 2 <= u32::MAX,
            old(self).atlas_width * 4 * (old(self).atlas_height * 2) <= usize::MAX,
        ensures
            final(self).atlas_height == old(self).atlas_height * 2,
            final(self).atlas_buf.len() == final(self).atlas_width * 4 * final(self).atlas_height,
            forall|i: int|
                0 <= i < final(self).atlas_buf.len() ==> #[trigger] final(self).atlas_buf@[i] == if i
                    < old(self).atlas_buf.len() {
                    old(self).atlas_buf@[i]
                } else {
                    0u8
                },
            final(self).texture_dirty,
            final(self).glyphs == old(self).glyphs,
            final(self).cluster_glyphs == old(self).cluster_glyphs,
            final(self).cell_width == old(self).cell_width,
            final(self).cell_height == old(self).cell_height,
            final(self).atlas_width == old(self).atlas_width,
            final(self).next_x == old(self).next_x,
            final(self).next_y == old(self).next_y,
            final(self).ascent == old(self).ascent,
    {
        let new_height = self.atlas_height * 2;
        let atlas_bpr = self.atlas_width as usize * 4;
        proof {
            assert(atlas_bpr * self.atlas_height <= atlas_bpr * new_height) by (nonlinear_arith)
                requires
                    self.atlas_height <= new_height,
            ;
        }
        self.atlas_buf.resize(atlas_bpr * new_height as usize, 0);
        self.atlas_height = new_height;
        self.texture_dirty = true;
        proof {
            assert forall|i: int| 0 <= i < self.atlas_buf.len() implies #[trigger] self.atlas_buf@[i]
                == if i < old(self).atlas_buf.len() {
                old(self).atlas_buf@[i]
            } else {
                0u8
            } by {
                if i < old(self).atlas_buf.len() {
                    assert(self.atlas_buf@.subrange(0, old(self).atlas_buf.len() as int)[i]
                        == self.atlas_buf@[i]);
                }
            }
        }
    }
}

/// The display width in columns that `unicode-width` gives a character
/// outside ASCII.
pub uninterp spec fn char_display_width(c: char) -> Option<usize>;

/// The display width in columns that `unicode-width` gives a string.
pub uninterp spec fn str_display_width(s: Seq<char>) -> usize;

/// `UnicodeWidthChar::width` of the `unicode-width` crate: `None` exactly for
/// the C0 and C1 control characters, 1 for printable ASCII, at most 3 for
/// anything (its tables hold 0, 1 and 2, and 3 for U+17D8).
#[verifier::external_body]
fn unicode_char_width(c: char) -> (w: Option<usize>)
    ensures
        w == char_display_width(c),
        w is None <==> ((c as u32) < 0x20 || (0x7F <= (c as u32) && (c as u32) < 0xA0)),
        0x20 <= (c as u32) && (c as u32) < 0x7F ==> w == Some(1usize),
        w matches Some(n) ==> n <= 3,
{
    unicode_width::UnicodeWidthChar::width(c)
}

/// `UnicodeWidthStr::width` of the `unicode-width` crate.
#[verifier::external_body]
fn unicode_str_width(s: &str) -> (w: usize)
    ensures
        w == str_display_width(s@),
{
    unicode_width::UnicodeWidthStr::width(s)
}

/// Number of cells a character's bitmap spans: its display width, counting
/// control characters and zero-width characters as one.
pub open spec fn char_cells(c: char) -> int {
    match char_display_width(c) {
        Some(n) => if n < 1 {
            1
        } else {
            n as int
        },
        None => 1,
    }
}

/// Number of cells a cluster's bitmap spans.
pub open spec fn cluster_cells(s: Seq<char>) -> int {
    if str_display_width(s) < 1 {
        1
    } else {
        str_display_width(s) as int
    }
}

/// Byte `b` of row `r` of the cell bitmap drawn for `c`: the built-in
/// drawing for block and box characters, else the rasterized glyph.
pub open spec fn char_cell_byte(
    c: char,
    rendered: Option<RenderedGlyph>,
    ascent: int,
    w: usize,
    h: usize,
    r: int,
    b: int,
) -> u8 {
    if is_builtin(c, w, h) {
        if builtin_covers(c, w, h, b / 4, r) {
            255
        } else {
            0
        }
    } else {
        composed_byte(rendered->0, ascent, r, b)
    }
}

/// Whether a glyph `w` pixels wide can be placed next: its coordinates stay
/// within `u32` and the grown buffer within the address space.
pub open spec fn placement_fits(a: GlyphAtlas, w: int) -> bool {
    let slot = next_slot(a.next_x as int, a.next_y as int, a.atlas_width as int, a.cell_height as int, w);
    let gh = grown_height(slot.1, a.cell_height as int, a.atlas_height as int);
    slot.1 + a.cell_height <= u32::MAX && slot.0 + w <= u32::MAX && gh <= u32::MAX && a.atlas_width
        * 4 * gh <= usize::MAX
}

/// The glyph that is placed next if it is `w` pixels wide.
pub open spec fn next_glyph(a: GlyphAtlas, w: int, is_color: bool) -> GlyphInfo {
    let slot = next_slot(a.next_x as int, a.next_y as int, a.atlas_width as int, a.cell_height as int, w);
    GlyphInfo { x: slot.0 as u32, y: slot.1 as u32, width: w as u32, height: a.cell_height, is_color }
}

/// The atlas after `bmp` (of `w` pixels by cell height) has been placed as
/// `info`: the glyph's area holds the bitmap, the rest is as before, new rows
/// are transparent.
pub open spec fn placed_bitmap(
    old_atlas: GlyphAtlas,
    new_atlas: GlyphAtlas,
    info: GlyphInfo,
    cell: spec_fn(int, int) -> u8,
) -> bool {
    let w4 = 4 * new_atlas.atlas_width;
    &&& new_atlas.atlas_width == old_atlas.atlas_width
    &&& new_atlas.atlas_height == grown_height(
        info.y as int,
        old_atlas.cell_height as int,
        old_atlas.atlas_height as int,
    )
    &&& new_atlas.atlas_buf.len() == new_atlas.atlas_width * 4 * new_atlas.atlas_height
    &&& forall|i: int|
        0 <= i < new_atlas.atlas_buf.len() ==> #[trigger] new_atlas.atlas_buf@[i] == if in_area(
            info,
            col_of(i, w4),
            row_of(i, w4),
        ) {
            cell(row_of(i, w4) - info.y, i % w4 - 4 * info.x)
        } else if i < old_atlas.atlas_buf.len() {
            old_atlas.atlas_buf@[i]
        } else {
            0u8
        }
}

/// Whether drawing `c` in the atlas `a` needs a font: it is neither in the
/// atlas nor drawn built-in.
pub open spec fn needs_font(a: GlyphAtlas, c: char) -> bool {
    !a.glyphs@.contains_key(c as u32) && !is_builtin(
        c,
        (a.cell_width * char_cells(c)) as usize,
        a.cell_height as usize,
    )
}

/// What rasterizing `c` with the font's rendering `rend` does to the atlas
/// `pre`, giving `post` and the result `r`: a character already in the atlas
/// is answered from it; block and box characters are drawn built-in, other
/// characters from `rend`; without a rendering, or when the placement would
/// leave the machine's ranges, nothing changes.
pub open spec fn char_rasterized(
    pre: GlyphAtlas,
    post: GlyphAtlas,
    c: char,
    rend: Option<RenderedGlyph>,
    r: Option<GlyphInfo>,
) -> bool {
    let key = c as u32;
    let w = pre.cell_width * char_cells(c);
    let builtin = is_builtin(c, w as usize, pre.cell_height as usize);
    if pre.glyphs@.contains_key(key) {
        r == Some(pre.glyphs@[key]) && post == pre
    } else if !builtin && rend is None {
        r is None && post == pre
    } else if !placement_fits(pre, w) {
        r is None && post == pre
    } else {
        let info = next_glyph(pre, w, !builtin && rend->0.is_color);
        &&& r == Some(info)
        &&& post.glyphs@ == pre.glyphs@.insert(key, info)
        &&& post.cluster_glyphs@ == pre.cluster_glyphs@
        &&& post.cell_width == pre.cell_width
        &&& post.cell_height == pre.cell_height
        &&& post.ascent == pre.ascent
        &&& post.texture_dirty
        &&& placed_bitmap(
            pre,
            post,
            info,
            |row: int, b: int|
                char_cell_byte(c, rend, pre.ascent as int, w as usize, pre.cell_height as usize, row, b),
        )
    }
}

/// What rasterizing the cluster `key` with the font's rendering `rend` of its
/// first character does to the atlas `pre`, giving `post` and the result
/// `r`: a cluster already in the atlas is answered from it; the empty
/// cluster, a missing rendering or a placement that would leave the
/// machine's ranges change nothing; else the rendering is placed as a colour
/// glyph as wide as the cluster's display width.
pub open spec fn cluster_rasterized(
    pre: GlyphAtlas,
    post: GlyphAtlas,
    key: Seq<char>,
    rend: Option<RenderedGlyph>,
    r: Option<GlyphInfo>,
) -> bool {
    let w = pre.cell_width * cluster_cells(key);
    if pre.cluster_glyphs@.contains_key(key) {
        r == Some(pre.cluster_glyphs@[key]) && post == pre
    } else if w > u32::MAX || w * 4 * pre.cell_height > usize::MAX || w * 4 > usize::MAX
        || key.len() == 0 || rend is None || !placement_fits(pre, w) {
        r is None && post == pre
    } else {
        let g = rend->0;
        let info = next_glyph(pre, w, true);
        &&& r == Some(info)
        &&& post.cluster_glyphs@ == pre.cluster_glyphs@.insert(key, info)
        &&& post.glyphs@ == pre.glyphs@
        &&& post.cell_width == pre.cell_width
        &&& post.cell_height == pre.cell_height
        &&& post.ascent == pre.ascent
        &&& post.texture_dirty
        &&& placed_bitmap(pre, post, info, |row: int, b: int| composed_byte(g, pre.ascent as int, row, b))
    }
}

/// A glyph placed at the next slot keeps every earlier glyph before the new
/// cursor and shares no pixel with it.
proof fn lemma_next_slot_order(e: GlyphInfo, a: GlyphAtlas, w: int, info: GlyphInfo)
    requires
        placed_before(e, a.next_x as int, a.next_y as int, a.cell_height as int),
        info.x == next_slot(a.next_x as int, a.next_y as int, a.atlas_width as int, a.cell_height as int, w).0,
        info.y == next_slot(a.next_x as int, a.next_y as int, a.atlas_width as int, a.cell_height as int, w).1,
        info.width == w,
        info.height == a.cell_height,
    ensures
        placed_before(e, info.x + w, info.y as int, a.cell_height as int),
        areas_disjoint(e, info),
        placed_before(info, info.x + w, info.y as int, a.cell_height as int),
{
}

/// Every glyph of a well-formed atlas lies within the atlas' rows, and every
/// character glyph within its columns too: the texture coordinates of a
/// character stay inside the texture.
pub proof fn lemma_glyphs_inside_atlas(a: GlyphAtlas)
    requires
        a.wf(),
    ensures
        forall|c: u32| #[trigger] a.glyphs@.contains_key(c) ==> a.glyphs@[c].x + a.glyphs@[c].width
            <= a.atlas_width && a.glyphs@[c].y + a.glyphs@[c].height <= a.atlas_height,
        forall|s: Seq<char>| #[trigger] a.cluster_glyphs@.contains_key(s) ==> a.cluster_glyphs@[s].y
            + a.cluster_glyphs@[s].height <= a.atlas_height,
{
}

/// Rasterizing a character leaves the pixels of every glyph already in the
/// atlas as they were: `post` is the atlas after `key` was placed as `info`
/// (as `rasterize_char` states it), `c` a character placed before.
pub proof fn lemma_placement_keeps_glyphs(
    pre: GlyphAtlas,
    post: GlyphAtlas,
    key: u32,
    info: GlyphInfo,
    cell: spec_fn(int, int) -> u8,
    c: u32,
    i: int,
)
    requires
        pre.wf(),
        post.wf(),
        !pre.glyphs@.contains_key(key),
        post.glyphs@ == pre.glyphs@.insert(key, info),
        placed_bitmap(pre, post, info, cell),
        pre.glyphs@.contains_key(c),
        0 <= i < pre.atlas_buf.len(),
        in_area(pre.glyphs@[c], col_of(i, 4 * pre.atlas_width), row_of(i, 4 * pre.atlas_width)),
    ensures
        post.atlas_buf@[i] == pre.atlas_buf@[i],
{
    assert(pre.atlas_height <= post.atlas_height);
    assert(pre.atlas_width * 4 * pre.atlas_height <= post.atlas_width * 4 * post.atlas_height)
        by (nonlinear_arith)
        requires
            pre.atlas_height <= post.atlas_height,
            pre.atlas_width == post.atlas_width,
    ;
    assert(i < post.atlas_buf.len());
    assert(post.glyphs@.contains_key(c) && post.glyphs@.contains_key(key) && c != key);
    assert(areas_disjoint(post.glyphs@[c], post.glyphs@[key]));
    assert(!in_area(info, col_of(i, 4 * post.atlas_width), row_of(i, 4 * post.atlas_width)));
}

impl GlyphAtlas {
    /// Whether drawing `c` needs the font: it is neither in the atlas nor
    /// drawn by the built-in block and box drawing.
    pub fn needs_font_glyph(&self, c: char) -> (r: bool)
        requires
            self.wf(),
        ensures
            r == needs_font(*self, c),
    {
        if self.glyphs.get(&(c as u32)).is_some() {
            return false;
        }
        let cells = self.char_cell_count(c);
        proof {
            assert((self.cell_width as usize) * cells <= self.cell_width * 3) by (nonlinear_arith)
                requires
                    cells <= 3,
            ;
        }
        let bmp_w = (self.cell_width as usize) * cells;
        proof {
            lemma_builtin_set(c, bmp_w, self.cell_height as usize);
        }
        !is_builtin_char(c)
    }

    fn char_cell_count(&self, c: char) -> (n: usize)
        requires
            self.wf(),
        ensures
            n == char_cells(c),
            1 <= n <= 3,
    {
        let w = unicode_char_width(c);
        match w {
            Some(n) => if n < 1 {
                1
            } else {
                n
            },
            None => 1,
        }
    }

    /// Rasterize a single character on demand and add it to the atlas.
    /// A character already in the atlas is answered from it. Block elements
    /// and box drawing are drawn built-in; other characters use `rendered`,
    /// the font's rendering of `c` (`None` when no font has the character).
    #[verifier::spinoff_prover]
    pub fn rasterize_char(&mut self, c: char, rendered: Option<&RenderedGlyph>) -> (r: Option<
        GlyphInfo,
    >)
        requires
            old(self).wf(),
            rendered matches Some(g) ==> rendered_wf(*g),
        ensures
            final(self).wf(),
            char_rasterized(
                *old(self),
                *final(self),
                c,
                match rendered {
                    Some(g) => Some(*g),
                    None => None,
                },
                r,
            ),
    {
        if let Some(g) = self.glyphs.get(&(c as u32)) {
            return Some(*g);
        }
        let ghost pre = *self;
        let cells = self.char_cell_count(c);
        proof {
            assert((self.cell_width as usize) * cells <= self.cell_width * 3) by (nonlinear_arith)
                requires
                    cells <= 3,
            ;
        }
        let bmp_w = (self.cell_width as usize) * cells;
        let bmp_h = self.cell_height as usize;
        proof {
            assert(bmp_w * 4 * bmp_h <= self.cell_width * 12 * self.cell_height) by (nonlinear_arith)
                requires
                    bmp_w <= self.cell_width * 3,
                    bmp_h == self.cell_height,
            ;
            assert(bmp_w * 4 <= self.cell_width * 12);
            assert(bmp_w * 4 * bmp_h <= self.cell_width * 12 * self.cell_height);
        }
        let len = bmp_w * 4 * bmp_h;
        // Block elements and box drawing are drawn without a font.
        let mut buf: Vec<u8> = vec![0u8; len];
        let ghost zero = buf@;
        let handled = draw_builtin_glyph(c, &mut buf, bmp_w, bmp_h);
        let (cell, is_color) = if handled {
            (buf, false)
        } else {
            match rendered {
                None => return None,
                Some(g) => (compose_glyph(g, self.ascent, bmp_w, bmp_h), g.is_color),
            }
        };
        let ghost rend = match rendered {
            Some(g) => Some(*g),
            None => None,
        };
        let ghost cellf = |row: int, b: int|
            char_cell_byte(c, rend, pre.ascent as int, bmp_w, bmp_h, row, b);
        proof {
            assert forall|row: int, b: int| 0 <= row < bmp_h && 0 <= b < 4 * bmp_w implies #[trigger] cell@[row * (4 * bmp_w) + b] == cellf(row, b) by {
                lemma_byte_position(row, b, 4 * bmp_w);
                lemma_byte_in_bounds(row, b, 4 * bmp_w, bmp_h as int);
                assert(zero[row * (4 * bmp_w) + b] == 0u8);
            }
        }
        let placed = self.insert_bitmap_raw(&cell, bmp_w, is_color);
        match placed {
            None => None,
            Some(info) => {
                self.glyphs.insert(c as u32, info);
                proof {
                    Self::lemma_old_entries_ordered(pre, info, bmp_w as int);
                    let w4 = 4 * self.atlas_width;
                    assert forall|i: int| 0 <= i < self.atlas_buf.len() implies #[trigger] self.atlas_buf@[i]
                        == if in_area(info, col_of(i, w4), row_of(i, w4)) {
                        cellf(row_of(i, w4) - info.y, i % w4 - 4 * info.x)
                    } else if i < pre.atlas_buf.len() {
                        pre.atlas_buf@[i]
                    } else {
                        0u8
                    } by {
                        if in_area(info, col_of(i, w4), row_of(i, w4)) {
                            lemma_row_in_bounds(i, w4, self.atlas_height as int);
                            let row = row_of(i, w4) - info.y;
                            let b = i % w4 - 4 * info.x;
                            assert(cell@[row * (4 * bmp_w) + b] == cellf(row, b));
                        }
                    }
                }
                Some(info)
            },
        }
    }

    /// Rasterize a multi-codepoint grapheme cluster from `rendered`, the
    /// font's rendering of its first character, into a bitmap as wide as the
    /// cluster's display width. A cluster already in the atlas is answered
    /// from it. Returns `None` for the empty cluster, when no rendering is
    /// given, and when the bitmap or its placement would leave the machine's
    /// ranges.
    #[verifier::spinoff_prover]
    pub fn rasterize_cluster(&mut self, cluster: &str, rendered: Option<&RenderedGlyph>) -> (r:
        Option<GlyphInfo>)
        requires
            old(self).wf(),
            rendered matches Some(g) ==> rendered_wf(*g),
        ensures
            final(self).wf(),
            cluster_rasterized(
                *old(self),
                *final(self),
                cluster@,
                match rendered {
                    Some(g) => Some(*g),
                    None => None,
                },
                r,
            ),
    {
        if let Some(g) = self.cluster_glyphs.get(cluster) {
            return Some(*g);
        }
        let ghost pre = *self;
        let width = unicode_str_width(cluster);
        let cells: usize = if width < 1 {
            1
        } else {
            width
        };
        proof {
            assert((self.cell_width as u128) * (cells as u128) <= 0xffff_ffffu128 * 0xffff_ffff_ffff_ffffu128) by (nonlinear_arith)
                requires
                    self.cell_width <= 0xffff_ffffu128,
                    cells <= 0xffff_ffff_ffff_ffffu128,
            ;
        }
        let w128 = (self.cell_width as u128) * (cells as u128);
        proof {
            assert(w128 == self.cell_width * cluster_cells(cluster@));
        }
        if w128 > u32::MAX as u128 {
            return None;
        }
        let bmp_w = w128 as usize;
        let bmp_h = self.cell_height as usize;
        if (bmp_w as u128) * 4 > usize::MAX as u128 {
            return None;
        }
        proof {
            assert((bmp_w as u128) * 4 * (bmp_h as u128) <= 0xffff_ffff_ffff_ffffu128 * 4 * 0xffff_ffffu128) by (nonlinear_arith)
                requires
                    bmp_w <= 0xffff_ffff_ffff_ffffu128,
                    bmp_h <= 0xffff_ffffu128,
            ;
        }
        if (bmp_w as u128) * 4 * (bmp_h as u128) > usize::MAX as u128 {
            return None;
        }
        if cluster.is_empty() {
            return None;
        }
        let g = match rendered {
            None => return None,
            Some(g) => g,
        };
        let cell = compose_glyph(g, self.ascent, bmp_w, bmp_h);
        let ghost cellf = |row: int, b: int| composed_byte(*g, pre.ascent as int, row, b);
        let placed = self.insert_bitmap_raw(&cell, bmp_w, true);
        match placed {
            None => None,
            Some(info) => {
                self.cluster_glyphs.insert(String::from_str(cluster), info);
                proof {
                    Self::lemma_old_entries_ordered(pre, info, bmp_w as int);
                    let w4 = 4 * self.atlas_width;
                    assert forall|i: int| 0 <= i < self.atlas_buf.len() implies #[trigger] self.atlas_buf@[i]
                        == if in_area(info, col_of(i, w4), row_of(i, w4)) {
                        cellf(row_of(i, w4) - info.y, i % w4 - 4 * info.x)
                    } else if i < pre.atlas_buf.len() {
                        pre.atlas_buf@[i]
                    } else {
                        0u8
                    } by {
                        if in_area(info, col_of(i, w4), row_of(i, w4)) {
                            lemma_row_in_bounds(i, w4, self.atlas_height as int);
                            let row = row_of(i, w4) - info.y;
                            let b = i % w4 - 4 * info.x;
                            lemma_byte_position(row, b, 4 * bmp_w);
                            lemma_byte_in_bounds(row, b, 4 * bmp_w, bmp_h as int);
                        }
                    }
                }
                Some(info)
            },
        }
    }

    /// Placing `info` at the next slot of `pre` keeps every earlier glyph
    /// before the new cursor and apart from `info`.
    proof fn lemma_old_entries_ordered(pre: GlyphAtlas, info: GlyphInfo, w: int)
        requires
            pre.wf(),
            info == next_glyph(pre, w, info.is_color),
            0 <= w <= u32::MAX,
            placement_fits(pre, w),
        ensures
            forall|c: u32| #[trigger] pre.glyphs@.contains_key(c) ==> placed_before(pre.glyphs@[c], info.x + w, info.y as int, pre.cell_height as int) && areas_disjoint(pre.glyphs@[c], info),
            forall|s: Seq<char>| #[trigger] pre.cluster_glyphs@.contains_key(s) ==> placed_before(pre.cluster_glyphs@[s], info.x + w, info.y as int, pre.cell_height as int) && areas_disjoint(pre.cluster_glyphs@[s], info),
            placed_before(info, info.x + w, info.y as int, pre.cell_height as int),
    {
        assert forall|c: u32| #[trigger] pre.glyphs@.contains_key(c) implies placed_before(pre.glyphs@[c], info.x + w, info.y as int, pre.cell_height as int) && areas_disjoint(pre.glyphs@[c], info) by {
            lemma_next_slot_order(pre.glyphs@[c], pre, w, info);
        }
        assert forall|s: Seq<char>| #[trigger] pre.cluster_glyphs@.contains_key(s) implies placed_before(pre.cluster_glyphs@[s], info.x + w, info.y as int, pre.cell_height as int) && areas_disjoint(pre.cluster_glyphs@[s], info) by {
            lemma_next_slot_order(pre.cluster_glyphs@[s], pre, w, info);
        }
    }
}

/// What a terminal cell shows: a character, or a grapheme cluster of several
/// code points.
pub struct CellText {
    pub c: char,
    pub cluster: Option<String>,
}

/// Whether the cell shows a single character that is not blank and not yet
/// in the atlas.
pub open spec fn wants_char_glyph(a: GlyphAtlas, cell: CellText) -> bool {
    &&& cell.cluster is None
    &&& cell.c != ' '
    &&& cell.c != '\0'
    &&& !a.glyphs@.contains_key(cell.c as u32)
}

/// Whether the cell shows a cluster that is not yet in the atlas.
pub open spec fn wants_cluster_glyph(a: GlyphAtlas, cell: CellText) -> bool {
    cell.cluster matches Some(s) && !a.cluster_glyphs@.contains_key(s@)
}

/// The characters to rasterize for `cells`, each once, in order of first
/// appearance.
pub open spec fn missing_chars_spec(a: GlyphAtlas, cells: Seq<CellText>) -> Seq<char>
    decreases cells.len(),
{
    if cells.len() == 0 {
        Seq::empty()
    } else {
        let r = missing_chars_spec(a, cells.drop_last());
        let x = cells.last();
        if wants_char_glyph(a, x) && !r.contains(x.c) {
            r.push(x.c)
        } else {
            r
        }
    }
}

/// The clusters to rasterize for `cells`, each once, in order of first
/// appearance.
pub open spec fn missing_clusters_spec(a: GlyphAtlas, cells: Seq<CellText>) -> Seq<Seq<char>>
    decreases cells.len(),
{
    if cells.len() == 0 {
        Seq::empty()
    } else {
        let r = missing_clusters_spec(a, cells.drop_last());
        let x = cells.last();
        if wants_cluster_glyph(a, x) && !r.contains(x.cluster->0@) {
            r.push(x.cluster->0@)
        } else {
            r
        }
    }
}

fn contains_char(v: &Vec<char>, c: char) -> (r: bool)
    ensures
        r == v@.contains(c),
{
    let mut k: usize = 0;
    while k < v.len()
        invariant
            k <= v.len(),
            forall|j: int| 0 <= j < k ==> v@[j] != c,
        decreases v.len() - k,
    {
        if v[k] == c {
            return true;
        }
        k = k + 1;
    }
    false
}

pub open spec fn views(v: Seq<String>) -> Seq<Seq<char>> {
    Seq::new(v.len(), |i: int| v[i]@)
}

fn contains_text(v: &Vec<String>, s: &str) -> (r: bool)
    ensures
        r == views(v@).contains(s@),
{
    let target = chars_of(s);
    let mut k: usize = 0;
    while k < v.len()
        invariant
            k <= v.len(),
            target@ == s@,
            forall|j: int| 0 <= j < k ==> v@[j]@ != s@,
        decreases v.len() - k,
    {
        let here = chars_of(v[k].as_str());
        if chars_eq(&here, target.as_slice()) {
            assert(views(v@)[k as int] == s@);
            return true;
        }
        k = k + 1;
    }
    proof {
        assert forall|j: int| 0 <= j < views(v@).len() implies views(v@)[j] != s@ by {
            assert(views(v@)[j] == v@[j]@);
        }
    }
    false
}

impl GlyphAtlas {
    /// The characters and clusters among `cells` (the visible cells, row
    /// after row) that are not in the atlas yet, each once, in order of first
    /// appearance; blank cells need no glyph.
    pub fn missing_glyphs(&self, cells: &Vec<CellText>) -> (r: (Vec<char>, Vec<String>))
        ensures
            r.0@ == missing_chars_spec(*self, cells@),
            views(r.1@) == missing_clusters_spec(*self, cells@),
    {
        let mut chars: Vec<char> = Vec::new();
        let mut clusters: Vec<String> = Vec::new();
        let mut k: usize = 0;
        while k < cells.len()
            invariant
                k <= cells.len(),
                chars@ == missing_chars_spec(*self, cells@.subrange(0, k as int)),
                views(clusters@) == missing_clusters_spec(*self, cells@.subrange(0, k as int)),
            decreases cells.len() - k,
        {
            let cell = &cells[k];
            proof {
                assert(cells@.subrange(0, k + 1).drop_last() =~= cells@.subrange(0, k as int));
                assert(cells@.subrange(0, k + 1).last() == cells@[k as int]);
            }
            match &cell.cluster {
                Some(cl) => {
                    if self.cluster_glyph(cl.as_str()).is_none() && !contains_text(&clusters, cl.as_str()) {
                        let ghost before = clusters@;
                        clusters.push(String::from_str(cl.as_str()));
                        proof {
                            assert(views(clusters@) =~= views(before).push(cl@));
                        }
                    }
                },
                None => {
                    let c = cell.c;
                    if c != ' ' && c != '\0' && self.glyph(c).is_none() && !contains_char(&chars, c) {
                        chars.push(c);
                    }
                },
            }
            k = k + 1;
        }
        proof {
            assert(cells@.subrange(0, cells.len() as int) =~= cells@);
        }
        (chars, clusters)
    }
}

/// Whether `rend` can stand for the font's rendering: none, or a bitmap with
/// the geometry the atlas relies on.
pub open spec fn usable_rendering(rend: Option<RenderedGlyph>) -> bool {
    rend matches Some(g) ==> rendered_wf(g)
}

/// Whether `rend` is a rendering of the character `c`, or none.
pub open spec fn rendering_of(rend: Option<RenderedGlyph>, c: char) -> bool {
    rend matches Some(g) ==> g.code == c
}

impl GlyphAtlas {
    /// The atlas of the printable ASCII characters as `face` renders them
    /// (coverage bitmaps; a character the face cannot load stays blank).
    pub fn from_face(cell_width: u32, cell_height: u32, ascent: i32, face: &Face) -> (a: GlyphAtlas)
        requires
            16 * cell_width <= u32::MAX,
            6 * cell_height <= u32::MAX,
            cell_width * 12 <= usize::MAX,
            cell_width * 12 * cell_height <= usize::MAX,
            initial_atlas_width(cell_width) * 4 <= usize::MAX,
            initial_atlas_width(cell_width) * 4 * initial_atlas_height(cell_height) <= usize::MAX,
        ensures
            a.wf(),
            a.cell_width == cell_width,
            a.cell_height == cell_height,
            a.ascent == ascent,
            a.atlas_width == initial_atlas_width(cell_width),
            a.atlas_height == initial_atlas_height(cell_height),
            a.texture_dirty,
            a.cursor() == (15 * cell_width, 5 * cell_height),
            a.cluster_glyphs@ == Map::<Seq<char>, GlyphInfo>::empty(),
            a.glyphs@ == Map::new(
                |c: u32| 32 <= c < 127,
                |c: u32| ascii_glyph(c - 32, cell_width, cell_height),
            ),
            exists|ascii: Seq<Option<RenderedGlyph>>|
                ascii.len() == 95 && (forall|k: int|
                    0 <= k < 95 ==> (#[trigger] ascii[k] matches Some(g) ==> !g.is_color
                        && rendered_wf(g) && g.code as u32 == 32 + k)) && ascii_pixels(a, ascii),
    {
        let mut ascii: Vec<Option<RenderedGlyph>> = Vec::new();
        let mut code: u32 = 32;
        while code < 127
            invariant
                32 <= code <= 127,
                ascii.len() == code - 32,
                forall|k: int|
                    0 <= k < ascii.len() ==> (#[trigger] ascii@[k] matches Some(g) ==> !g.is_color
                        && rendered_wf(g) && g.code as u32 == 32 + k),
            decreases 127 - code,
        {
            let c = (code as u8) as char;
            assert(c as u32 == code);
            ascii.push(render_coverage_char(face, c));
            code = code + 1;
        }
        let a = GlyphAtlas::new(cell_width, cell_height, ascent, &ascii);
        proof {
            assert(ascii_pixels(a, ascii@));
        }
        a
    }

    /// Rasterizes `c` on demand: answered from the atlas when it is there,
    /// drawn built-in for block and box characters, else rendered by the
    /// first of `faces` (the main font, then the fallback fonts) that has
    /// the character. The outcome is that of `rasterize_char` with the
    /// rendering the faces gave, which depends on the fonts.
    pub fn rasterize_char_with(&mut self, c: char, faces: &Vec<Face>) -> (r: Option<GlyphInfo>)
        requires
            old(self).wf(),
        ensures
            final(self).wf(),
            exists|rend: Option<RenderedGlyph>|
                usable_rendering(rend) && rendering_of(rend, c) && char_rasterized(
                    *old(self),
                    *final(self),
                    c,
                    rend,
                    r,
                ),
            !needs_font(*old(self), c) ==> char_rasterized(
                *old(self),
                *final(self),
                c,
                None,
                r,
            ),
    {
        if !self.needs_font_glyph(c) {
            let r = self.rasterize_char(c, None);
            proof {
                assert(usable_rendering(None) && rendering_of(None, c) && char_rasterized(
                    *old(self),
                    *self,
                    c,
                    None,
                    r,
                ));
            }
            return r;
        }
        let rend = match first_face_with(faces, c) {
            Some(i) => render_char(&faces[i], c),
            None => None,
        };
        let r = self.rasterize_char(c, rend.as_ref());
        proof {
            let rv = match rend {
                Some(g) => Some(g),
                None => None,
            };
            assert(rv == rend);
            assert(usable_rendering(rend) && rendering_of(rend, c) && char_rasterized(
                *old(self),
                *self,
                c,
                rend,
                r,
            ));
        }
        r
    }

    /// Rasterizes a grapheme cluster on demand from the rendering of its
    /// first character by the first of `faces` that has it. The outcome is
    /// that of `rasterize_cluster` with the rendering the faces gave.
    pub fn rasterize_cluster_with(&mut self, cluster: &str, faces: &Vec<Face>) -> (r: Option<GlyphInfo>)
        requires
            old(self).wf(),
        ensures
            final(self).wf(),
            exists|rend: Option<RenderedGlyph>|
                usable_rendering(rend) && (cluster@.len() == 0 ==> rend is None) && (cluster@.len()
                    > 0 ==> rendering_of(rend, cluster@[0])) && cluster_rasterized(
                    *old(self),
                    *final(self),
                    cluster@,
                    rend,
                    r,
                ),
    {
        let chars = chars_of(cluster);
        let rend = if chars.len() == 0 {
            None
        } else {
            match first_face_with(faces, chars[0]) {
                Some(i) => render_char(&faces[i], chars[0]),
                None => None,
            }
        };
        let r = self.rasterize_cluster(cluster, rend.as_ref());
        proof {
            let rv = match rend {
                Some(g) => Some(g),
                None => None,
            };
            assert(rv == rend);
            assert(usable_rendering(rend) && (cluster@.len() == 0 ==> rend is None) && (cluster@.len()
                > 0 ==> rendering_of(rend, cluster@[0])) && cluster_rasterized(
                *old(self),
                *self,
                cluster@,
                rend,
                r,
            ));
        }
        r
    }
}

} // verus!
