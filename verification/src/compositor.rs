//! Compositing a coverage bitmap, tinted with one palette colour, onto a
//! palette-indexed image.

use vstd::prelude::*;
use crate::bitmap::{raw_get, raw_ncols, raw_nrows, raw_set, Bitmap, Grid};
use crate::color::{blend_mode, blended, Rgb};
use crate::palette::{
    indexable, lemma_first_occurrence_is_nearest, lemma_nearest_exists, nearest, Palette,
    PALETTE_MAX,
};

verus! {

/// The bitmap placed with its top-left corner at column `u`, row `v` reaches
/// the cell `(ty, tx)`.
pub open spec fn covered(bitmap: Grid, u: u32, v: u32, ty: int, tx: int) -> bool {
    v <= ty < v + bitmap.rows() && u <= tx < u + bitmap.cols
}

/// The colour `text` laid over the opaque colour `under` with the given
/// coverage, as an eight-bit colour.
pub open spec fn tinted(text: Rgb, under: Rgb, coverage: u8) -> Rgb {
    blended(text.premultiplied(coverage), under.premultiplied(255)).quantized()
}

/// The index stored in a cell that held `index` once the text colour has been
/// laid over it with the given coverage: that of the entry nearest to the
/// blend.
pub open spec fn imprinted_index(colors: Seq<Rgb>, text_color: u8, coverage: u8, index: u8) -> u8 {
    nearest(colors, tinted(colors[text_color as int], colors[index as int], coverage)) as u8
}

/// The cell `(ty, tx)` of the image after the bitmap has been imprinted.
pub open spec fn imprinted_cell(
    colors: Seq<Rgb>,
    bitmap: Grid,
    text_color: u8,
    u: u32,
    v: u32,
    target: Grid,
    ty: int,
    tx: int,
) -> u8 {
    if covered(bitmap, u, v, ty, tx) {
        imprinted_index(colors, text_color, bitmap.cells[ty - v][tx - u], target.cells[ty][tx])
    } else {
        target.cells[ty][tx]
    }
}

/// The image after the bitmap has been imprinted at column `u`, row `v`.
pub open spec fn imprinted(
    colors: Seq<Rgb>,
    bitmap: Grid,
    text_color: u8,
    u: u32,
    v: u32,
    target: Grid,
) -> Grid {
    Grid {
        cols: target.cols,
        cells: Seq::new(
            target.rows(),
            |ty: int|
                Seq::new(
                    target.cols,
                    |tx: int| imprinted_cell(colors, bitmap, text_color, u, v, target, ty, tx),
                ),
        ),
    }
}

/// The palette has at most 256 entries, and `text_color` and `index` are
/// indices of it.
pub open spec fn cell_fits(colors: Seq<Rgb>, text_color: u8, index: u8) -> bool {
    indexable(colors) && text_color < colors.len() && index < colors.len()
}

/// Where the bitmap reaches a cell of the image, every entry of the palette
/// can be named by an index of eight bits, `text_color` is such an index,
/// and so is what each reached cell holds.
pub open spec fn imprintable(
    colors: Seq<Rgb>,
    bitmap: Grid,
    text_color: u8,
    u: u32,
    v: u32,
    target: Grid,
) -> bool {
    forall|ty: int, tx: int|
        #![trigger target.cells[ty][tx]]
        target.contains(ty, tx) && covered(bitmap, u, v, ty, tx) ==> cell_fits(
            colors,
            text_color,
            target.cells[ty][tx],
        )
}

/// The bitmap cell `(by, bx)` comes before `(y, x)` in row-major order.
pub open spec fn visited(by: int, bx: int, y: int, x: int) -> bool {
    by < y || (by == y && bx < x)
}

/// Blends the text colour onto `target` through the coverage bitmap
/// `rasterized`, whose top-left corner is put at column `u`, row `v`.
///
/// For every bitmap cell that lands inside `target`, the text colour at that
/// cell's coverage is blended over the colour the target cell stands for, and
/// the index of the palette entry nearest to the blend is stored. Bitmap
/// cells that land outside `target` are skipped; no other cell changes.
///
/// Where the bitmap reaches a cell, the palette must have at most 256
/// entries, and the text colour and what the cell holds must be indices of
/// it; [`try_imprint_text`] tests this first.
pub fn imprint_text(
    writer: &Palette,
    rasterized: &Bitmap,
    text_color: u8,
    u: u32,
    v: u32,
    target: &mut Bitmap,
)
    requires
        imprintable(writer.palette@, rasterized@, text_color, u, v, old(target)@),
    ensures
        final(target)@ == imprinted(writer.palette@, rasterized@, text_color, u, v, old(target)@),
        forall|ty: int, tx: int|
            #![trigger final(target)@.cells[ty][tx]]
            old(target)@.contains(ty, tx) && covered(rasterized@, u, v, ty, tx)
                ==> final(target)@.cells[ty][tx] < writer.palette@.len(),
{
    proof {
        use_type_invariant(rasterized);
        use_type_invariant(&*target);
    }
    let height: usize = raw_nrows(rasterized);
    let width: usize = raw_ncols(rasterized);
    let target_height: usize = raw_nrows(target);
    let target_width: usize = raw_ncols(target);
    let ghost before: Grid = target@;
    let ghost colors: Seq<Rgb> = writer.palette@;
    let mut y: usize = 0;
    while y < height
        invariant
            height == rasterized@.rows(),
            width == rasterized@.cols,
            rasterized@.rectangular(),
            before.rectangular(),
            target_height == before.rows(),
            target_width == before.cols,
            colors == writer.palette@,
            imprintable(colors, rasterized@, text_color, u, v, before),
            0 <= y <= height,
            target@.cols == before.cols,
            target@.rows() == before.rows(),
            target@.rectangular(),
            forall|ty: int, tx: int|
                before.contains(ty, tx) ==> #[trigger] target@.cells[ty][tx] == (if ty - v < y {
                    imprinted_cell(colors, rasterized@, text_color, u, v, before, ty, tx)
                } else {
                    before.cells[ty][tx]
                }),
        decreases height - y,
    {
        let mut x: usize = 0;
        while x < width
            invariant
                height == rasterized@.rows(),
                width == rasterized@.cols,
                rasterized@.rectangular(),
                before.rectangular(),
                target_height == before.rows(),
                target_width == before.cols,
                colors == writer.palette@,
                imprintable(colors, rasterized@, text_color, u, v, before),
                0 <= y < height,
                0 <= x <= width,
                target@.cols == before.cols,
                target@.rows() == before.rows(),
                target@.rectangular(),
                forall|ty: int, tx: int|
                    before.contains(ty, tx) ==> #[trigger] target@.cells[ty][tx] == (if visited(
                        ty - v,
                        tx - u,
                        y as int,
                        x as int,
                    ) {
                        imprinted_cell(colors, rasterized@, text_color, u, v, before, ty, tx)
                    } else {
                        before.cells[ty][tx]
                    }),
            decreases width - x,
        {
            let row: Option<usize> = (v as usize).checked_add(y);
            let col: Option<usize> = (u as usize).checked_add(x);
            match (row, col) {
                (Some(ty), Some(tx)) => {
                    if ty < target_height && tx < target_width {
                        let coverage: u8 = raw_get(rasterized, y, x);
                        let under: u8 = raw_get(target, ty, tx);
                        let c0 = writer.palette[text_color as usize].premultiply(coverage);
                        let c1 = writer.palette[under as usize].premultiply(255);
                        let c2 = blend_mode(c0, c1);
                        let index: u8 = writer.closest_color(c2.color());
                        raw_set(target, ty, tx, index);
                    }
                },
                _ => {},
            }
            x += 1;
        }
        y += 1;
    }
    proof {
        let after = imprinted(colors, rasterized@, text_color, u, v, before);
        assert forall|ty: int| 0 <= ty < before.rows() implies #[trigger] target@.cells[ty]
            =~= after.cells[ty] by {}
        lemma_imprint_stores_indices(colors, rasterized@, text_color, u, v, before);
    }
}

/// Whether the bitmap can be imprinted: whether, where it reaches a cell of
/// `target`, the palette has at most 256 entries and `text_color` and what
/// every reached cell holds are indices of it.
pub fn imprint_fits(
    writer: &Palette,
    rasterized: &Bitmap,
    text_color: u8,
    u: u32,
    v: u32,
    target: &Bitmap,
) -> (ok: bool)
    ensures
        ok == imprintable(writer.palette@, rasterized@, text_color, u, v, target@),
{
    let entries: usize = writer.palette.len();
    let height: usize = raw_nrows(rasterized);
    let width: usize = raw_ncols(rasterized);
    let target_height: usize = raw_nrows(target);
    let target_width: usize = raw_ncols(target);
    let ghost colors: Seq<Rgb> = writer.palette@;
    let mut y: usize = 0;
    while y < height
        invariant
            entries == colors.len(),
            colors == writer.palette@,
            height == rasterized@.rows(),
            width == rasterized@.cols,
            target_height == target@.rows(),
            target_width == target@.cols,
            0 <= y <= height,
            forall|ty: int, tx: int|
                #![trigger target@.cells[ty][tx]]
                target@.contains(ty, tx) && covered(rasterized@, u, v, ty, tx) && ty - v < y
                    ==> cell_fits(colors, text_color, target@.cells[ty][tx]),
        decreases height - y,
    {
        let mut x: usize = 0;
        while x < width
            invariant
                entries == colors.len(),
                colors == writer.palette@,
                height == rasterized@.rows(),
                width == rasterized@.cols,
                target_height == target@.rows(),
                target_width == target@.cols,
                0 <= y < height,
                0 <= x <= width,
                forall|ty: int, tx: int|
                    #![trigger target@.cells[ty][tx]]
                    target@.contains(ty, tx) && covered(rasterized@, u, v, ty, tx) && visited(
                        ty - v,
                        tx - u,
                        y as int,
                        x as int,
                    ) ==> cell_fits(colors, text_color, target@.cells[ty][tx]),
            decreases width - x,
        {
            let row: Option<usize> = (v as usize).checked_add(y);
            let col: Option<usize> = (u as usize).checked_add(x);
            match (row, col) {
                (Some(ty), Some(tx)) => {
                    if ty < target_height && tx < target_width {
                        let under: u8 = raw_get(target, ty, tx);
                        if entries > PALETTE_MAX || text_color as usize >= entries || under as usize
                            >= entries {
                            assert(target@.contains(ty as int, tx as int) && covered(
                                rasterized@,
                                u,
                                v,
                                ty as int,
                                tx as int,
                            ));
                            return false;
                        }
                    }
                },
                _ => {},
            }
            x += 1;
        }
        y += 1;
    }
    true
}

/// As [`imprint_text`], for any palette, colour index and image: where the
/// bitmap cannot be imprinted, `target` is left as it was and the answer is
/// `false`.
pub fn try_imprint_text(
    writer: &Palette,
    rasterized: &Bitmap,
    text_color: u8,
    u: u32,
    v: u32,
    target: &mut Bitmap,
) -> (done: bool)
    ensures
        done == imprintable(writer.palette@, rasterized@, text_color, u, v, old(target)@),
        done ==> final(target)@ == imprinted(
            writer.palette@,
            rasterized@,
            text_color,
            u,
            v,
            old(target)@,
        ),
        !done ==> final(target)@ == old(target)@,
{
    if imprint_fits(writer, rasterized, text_color, u, v, target) {
        imprint_text(writer, rasterized, text_color, u, v, target);
        true
    } else {
        false
    }
}

/// Imprinting stores an index of the palette in every cell that the bitmap
/// reaches.
pub proof fn lemma_imprint_stores_indices(
    colors: Seq<Rgb>,
    bitmap: Grid,
    text_color: u8,
    u: u32,
    v: u32,
    target: Grid,
)
    requires
        imprintable(colors, bitmap, text_color, u, v, target),
    ensures
        forall|ty: int, tx: int|
            #![trigger imprinted(colors, bitmap, text_color, u, v, target).cells[ty][tx]]
            target.contains(ty, tx) && covered(bitmap, u, v, ty, tx) ==> imprinted(
                colors,
                bitmap,
                text_color,
                u,
                v,
                target,
            ).cells[ty][tx] < colors.len(),
{
    let after = imprinted(colors, bitmap, text_color, u, v, target);
    assert forall|ty: int, tx: int|
        #![trigger after.cells[ty][tx]]
        target.contains(ty, tx) && covered(bitmap, u, v, ty, tx) implies after.cells[ty][tx]
        < colors.len() by {
        let under = target.cells[ty][tx];
        assert(under < colors.len());
        lemma_nearest_exists(
            colors,
            tinted(colors[text_color as int], colors[under as int], bitmap.cells[ty - v][tx - u]),
        );
    }
}

/// Imprinting keeps the shape of the image and changes no cell that the
/// bitmap does not reach, wherever the bitmap is put.
pub proof fn lemma_imprint_clips(
    colors: Seq<Rgb>,
    bitmap: Grid,
    text_color: u8,
    u: u32,
    v: u32,
    target: Grid,
)
    ensures
        imprinted(colors, bitmap, text_color, u, v, target).rows() == target.rows(),
        imprinted(colors, bitmap, text_color, u, v, target).cols == target.cols,
        imprinted(colors, bitmap, text_color, u, v, target).rectangular(),
        forall|ty: int, tx: int|
            target.contains(ty, tx) && !covered(bitmap, u, v, ty, tx) ==> #[trigger] imprinted(
                colors,
                bitmap,
                text_color,
                u,
                v,
                target,
            ).cells[ty][tx] == target.cells[ty][tx],
{
}

/// A bitmap that lies wholly outside the image leaves the image as it was.
pub proof fn lemma_imprint_outside(
    colors: Seq<Rgb>,
    bitmap: Grid,
    text_color: u8,
    u: u32,
    v: u32,
    target: Grid,
)
    requires
        target.rectangular(),
        u >= target.cols || v >= target.rows(),
    ensures
        imprinted(colors, bitmap, text_color, u, v, target) == target,
{
    let after = imprinted(colors, bitmap, text_color, u, v, target);
    assert forall|ty: int| 0 <= ty < target.rows() implies #[trigger] after.cells[ty]
        =~= target.cells[ty] by {}
}

/// Laying a colour over another with no coverage gives the colour underneath.
pub proof fn lemma_tinted_none(text: Rgb, under: Rgb)
    ensures
        tinted(text, under, 0) == under,
{
}

/// Laying a colour over another with full coverage gives the colour laid on.
pub proof fn lemma_tinted_full(text: Rgb, under: Rgb)
    ensures
        tinted(text, under, 255) == text,
{
}

/// Every cell of `bitmap` holds `value`.
pub open spec fn uniform(bitmap: Grid, value: u8) -> bool {
    forall|y: int, x: int| bitmap.contains(y, x) ==> #[trigger] bitmap.cells[y][x] == value
}

/// The colour that index `index` stands for occurs at no lower index.
pub open spec fn first_of_its_color(colors: Seq<Rgb>, index: int) -> bool {
    &&& 0 <= index < colors.len()
    &&& forall|j: int| 0 <= j < index ==> #[trigger] colors[j] != colors[index]
}

/// Imprinting a bitmap without any coverage leaves the image as it was,
/// provided that each cell that the bitmap reaches holds the first index of
/// its colour.
pub proof fn lemma_imprint_zero_coverage(
    colors: Seq<Rgb>,
    bitmap: Grid,
    text_color: u8,
    u: u32,
    v: u32,
    target: Grid,
)
    requires
        target.rectangular(),
        uniform(bitmap, 0),
        forall|ty: int, tx: int|
            target.contains(ty, tx) && covered(bitmap, u, v, ty, tx) ==> first_of_its_color(
                colors,
                #[trigger] target.cells[ty][tx] as int,
            ),
    ensures
        imprinted(colors, bitmap, text_color, u, v, target) == target,
{
    let after = imprinted(colors, bitmap, text_color, u, v, target);
    assert forall|ty: int| 0 <= ty < target.rows() implies #[trigger] after.cells[ty]
        =~= target.cells[ty] by {
        assert forall|tx: int| 0 <= tx < target.cols implies after.cells[ty][tx]
            == target.cells[ty][tx] by {
            if covered(bitmap, u, v, ty, tx) {
                let index = target.cells[ty][tx];
                lemma_tinted_none(colors[text_color as int], colors[index as int]);
                lemma_first_occurrence_is_nearest(colors, index as int);
            }
        }
    }
}

/// Imprinting a bitmap of full coverage stores, in every cell that the bitmap
/// reaches, the index of the palette entry nearest to the text colour.
pub proof fn lemma_imprint_full_coverage(
    colors: Seq<Rgb>,
    bitmap: Grid,
    text_color: u8,
    u: u32,
    v: u32,
    target: Grid,
)
    requires
        uniform(bitmap, 255),
        indexable(colors),
        text_color < colors.len(),
    ensures
        forall|ty: int, tx: int|
            #![trigger imprinted(colors, bitmap, text_color, u, v, target).cells[ty][tx]]
            target.contains(ty, tx) && covered(bitmap, u, v, ty, tx) ==> imprinted(
                colors,
                bitmap,
                text_color,
                u,
                v,
                target,
            ).cells[ty][tx] as int == nearest(colors, colors[text_color as int]),
{
    let after = imprinted(colors, bitmap, text_color, u, v, target);
    lemma_nearest_exists(colors, colors[text_color as int]);
    assert forall|ty: int, tx: int|
        #![trigger after.cells[ty][tx]]
        target.contains(ty, tx) && covered(bitmap, u, v, ty, tx) implies after.cells[ty][tx] as int
        == nearest(colors, colors[text_color as int]) by {
        lemma_tinted_full(colors[text_color as int], colors[target.cells[ty][tx] as int]);
    }
}

} // verus!
