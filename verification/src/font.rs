//! The font: loading it, measuring and rasterizing single glyphs, and laying
//! out a line of text.
//!
//! All of this is the work of the `fontdue` crate. A loaded font is opaque to
//! Verus; what it gives for a character, a text and a size is named by the
//! spec functions below, and the private functions at the end of this file
//! make the calls. Their contracts are taken on trust.

use vstd::prelude::*;
use crate::bitmap::{fits, raw_set, raw_zeros, shape_fits, Bitmap, Grid};
use crate::loading::loadable;

verus! {

/// `fontdue::Font`, a loaded font. It is immutable once loaded; nothing is
/// known of it but what the spec functions below name.
#[verifier::external_type_specification]
#[verifier::external_body]
pub struct ExFont(fontdue::Font);

/// `fontdue::FontSettings`, the options for loading a font. They are handed
/// through to the loader unread.
#[verifier::external_type_specification]
#[verifier::external_body]
pub struct ExFontSettings(fontdue::FontSettings);

/// Where the layout puts one glyph: the character it stands for, the
/// top-left corner of its box in whole pixels (which may lie left of or above
/// the origin), and the size of the box.
#[derive(Clone, Copy, Debug, PartialEq, Eq, Structural)]
pub struct Placement {
    pub character: char,
    pub x: i64,
    pub y: i64,
    pub width: usize,
    pub height: usize,
}

/// What loading `bytes` with `settings` gives, where the loader can be given
/// them: the font, or the reason why the bytes are not one.
pub uninterp spec fn parsed_font(bytes: Seq<u8>, settings: fontdue::FontSettings) -> Result<
    fontdue::Font,
    Seq<char>,
>;

/// The width and height, in pixels, of the bitmap of `ch` at `size`.
pub uninterp spec fn glyph_extent(font: fontdue::Font, ch: char, size: u32) -> (nat, nat);

/// The coverage of `ch` at `size`, row by row from the top-left corner.
pub uninterp spec fn glyph_coverage(font: fontdue::Font, ch: char, size: u32) -> Seq<u8>;

/// The placements of the glyphs of `text` at `size`, in the order of the
/// text, laid out from the origin with the y axis pointing down.
pub uninterp spec fn text_layout(font: fontdue::Font, text: Seq<char>, size: u32) -> Seq<Placement>;

/// The largest working buffer, counted in cells, that the rasterizer is
/// asked for. The rasterizer computes the position of a cell in its buffer
/// in single precision, which is exact up to this number.
pub const RASTER_CELLS_MAX: usize = 0x100_0000;

/// A glyph of this extent can be rasterized: the bitmap can be allocated,
/// and the rasterizer's working buffer, which has three cells more than the
/// bitmap, stays within [`RASTER_CELLS_MAX`].
pub open spec fn glyph_fits(width: nat, height: nat) -> bool {
    fits(height, width) && width * height + 3 <= RASTER_CELLS_MAX
}

/// The font can rasterize `ch` at `size`: the size is positive and the
/// glyph's extent fits.
pub open spec fn renderable(font: fontdue::Font, ch: char, size: u32) -> bool {
    size > 0 && glyph_fits(glyph_extent(font, ch, size).0, glyph_extent(font, ch, size).1)
}

/// The grid of `height` rows and `width` columns that `coverage` spells out
/// row by row.
pub open spec fn coverage_grid(width: nat, height: nat, coverage: Seq<u8>) -> Grid {
    Grid {
        cols: width,
        cells: Seq::new(height, |y: int| Seq::new(width, |x: int| coverage[y * width + x])),
    }
}

/// The coverage bitmap of `ch` at `size`.
pub open spec fn glyph_grid(font: fontdue::Font, ch: char, size: u32) -> Grid {
    coverage_grid(
        glyph_extent(font, ch, size).0,
        glyph_extent(font, ch, size).1,
        glyph_coverage(font, ch, size),
    )
}

/// Whether a glyph of this extent can be rasterized.
pub fn extent_fits(width: usize, height: usize) -> (ok: bool)
    ensures
        ok == glyph_fits(width as nat, height as nat),
{
    if !shape_fits(height, width) {
        return false;
    }
    width * height <= RASTER_CELLS_MAX - 3
}

/// The bitmap of `height` rows and `width` columns whose cells are the bytes
/// of `coverage`, read row by row; `None` where the shape cannot be allocated
/// or `coverage` has not one byte for each cell.
pub fn bitmap_from_coverage(width: usize, height: usize, coverage: &Vec<u8>) -> (out: Option<
    Bitmap,
>)
    ensures
        out is Some <==> fits(height as nat, width as nat) && coverage@.len() == width * height,
        out matches Some(b) ==> b@ == coverage_grid(width as nat, height as nat, coverage@),
{
    if !shape_fits(height, width) {
        return None;
    }
    if coverage.len() != width * height {
        return None;
    }
    Some(materialize(width, height, coverage))
}

/// A bitmap of zeros of `height` rows and `width` columns, into which the
/// bytes of `coverage` are copied row by row.
pub(crate) fn materialize(width: usize, height: usize, coverage: &Vec<u8>) -> (array: Bitmap)
    requires
        fits(height as nat, width as nat),
        coverage@.len() == width * height,
    ensures
        array@ == coverage_grid(width as nat, height as nat, coverage@),
{
    let mut array = raw_zeros(height, width);
    let mut y: usize = 0;
    while y < height
        invariant
            fits(height as nat, width as nat),
            coverage@.len() == width * height,
            0 <= y <= height,
            array@.cols == width,
            array@.rows() == height,
            array@.rectangular(),
            forall|j: int, i: int|
                0 <= j < y && 0 <= i < width ==> #[trigger] array@.cells[j][i] == coverage@[j * width
                    + i],
        decreases height - y,
    {
        let mut x: usize = 0;
        while x < width
            invariant
                fits(height as nat, width as nat),
                coverage@.len() == width * height,
                0 <= y < height,
                0 <= x <= width,
                array@.cols == width,
                array@.rows() == height,
                array@.rectangular(),
                forall|j: int, i: int|
                    0 <= j < y && 0 <= i < width ==> #[trigger] array@.cells[j][i] == coverage@[j
                        * width + i],
                forall|i: int|
                    0 <= i < x ==> #[trigger] array@.cells[y as int][i] == coverage@[y * width + i],
            decreases width - x,
        {
            proof {
                lemma_cell_offset(y as int, x as int, height as int, width as int);
            }
            raw_set(&mut array, y, x, coverage[y * width + x]);
            x += 1;
        }
        y += 1;
    }
    proof {
        let want = coverage_grid(width as nat, height as nat, coverage@);
        assert forall|j: int| 0 <= j < height implies #[trigger] array@.cells[j] =~= want.cells[j] by {}
    }
    array
}

proof fn lemma_cell_offset(y: int, x: int, height: int, width: int)
    requires
        0 <= y < height,
        0 <= x < width,
    ensures
        0 <= y * width + x < width * height,
        0 <= y * width <= width * height,
{
    assert(y * width + x < width * height && 0 <= y * width && y * width <= width * height)
        by (nonlinear_arith)
        requires
            0 <= y,
            y + 1 <= height,
            0 <= x < width,
    ;
}

/// `fontdue::Font::from_bytes`: parses the bytes of a font file. Its result
/// depends on the bytes and the settings alone. It decodes the first full
/// name in a Unicode encoding without testing it, and with a negative scale
/// it does not come to an end on a font with curves; the precondition leaves
/// both out.
#[verifier::external_body]
pub(crate) fn parse_font(bytes: &[u8], settings: fontdue::FontSettings) -> (out: Result<
    fontdue::Font,
    &'static str,
>)
    requires
        loadable(bytes@, settings),
    ensures
        match out {
            Ok(font) => parsed_font(bytes@, settings) == Ok::<fontdue::Font, Seq<char>>(font),
            Err(reason) => parsed_font(bytes@, settings) == Err::<fontdue::Font, Seq<char>>(reason@),
        },
{
    fontdue::Font::from_bytes(bytes, settings)
}

/// `fontdue::Font::metrics` at the pixel scale `size`, of which only the
/// bitmap's width and height are kept. It computes them from the glyph's
/// bounds without rasterizing.
#[verifier::external_body]
pub(crate) fn measure_glyph(font: &fontdue::Font, ch: char, size: u32) -> (out: (usize, usize))
    ensures
        out.0 == glyph_extent(*font, ch, size).0,
        out.1 == glyph_extent(*font, ch, size).1,
{
    let metrics = font.metrics(ch, size as _);
    (metrics.width, metrics.height)
}

/// `fontdue::Font::rasterize` at the pixel scale `size`: the bitmap's width
/// and height and its coverage bytes. For a positive size it measures the
/// glyph exactly as `metrics` does, allocates a working buffer of
/// `width * height + 3` cells, which it indexes in single precision, and
/// returns one byte for each cell of the bitmap, row by row from the top.
#[verifier::external_body]
pub(crate) fn cover_glyph(font: &fontdue::Font, ch: char, size: u32) -> (out: (
    usize,
    usize,
    Vec<u8>,
))
    requires
        renderable(*font, ch, size),
    ensures
        out.0 == glyph_extent(*font, ch, size).0,
        out.1 == glyph_extent(*font, ch, size).1,
        out.2@ == glyph_coverage(*font, ch, size),
        out.2@.len() == out.0 * out.1,
{
    let (metrics, coverage) = font.rasterize(ch, size as _);
    (metrics.width, metrics.height, coverage)
}

/// `fontdue::layout::Layout`: a fresh layout with the y axis pointing down,
/// to which `text` is appended in this one font at the pixel scale `size`;
/// its glyph positions are handed out in order, each with its character, its
/// corner in whole pixels and its box.
#[verifier::external_body]
pub(crate) fn lay_out(font: &fontdue::Font, text: &str, size: u32) -> (out: Vec<Placement>)
    ensures
        out@ == text_layout(*font, text@, size),
{
    let mut layout = fontdue::layout::Layout::new(
        fontdue::layout::CoordinateSystem::PositiveYDown,
    );
    layout.append(
        std::slice::from_ref(font),
        &fontdue::layout::TextStyle::new(text, size as _, 0),
    );
    layout.glyphs().iter().map(|g| Placement {
        character: g.parent,
        x: g.x as i64,
        y: g.y as i64,
        width: g.width,
        height: g.height,
    }).collect()
}

} // verus!
