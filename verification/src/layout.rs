//! Assembling the glyphs of a laid-out text into one bitmap.
//!
//! The canvas is the smallest grid, anchored at the origin, that holds every
//! glyph's box. Glyphs are stamped onto it in layout order: where two boxes
//! overlap, the later glyph's cells replace the earlier one's.

use vstd::prelude::*;
use std::sync::Arc;
use crate::bitmap::{fits, raw_get, raw_ncols, raw_nrows, raw_set, raw_zeros, shape_fits, Bitmap, Grid};
use crate::font::Placement;

verus! {

/// A coordinate of the layout brought onto the canvas: what lies left of or
/// above the origin is moved to it.
pub open spec fn on_canvas(coordinate: i64) -> nat {
    if coordinate < 0 {
        0
    } else {
        coordinate as nat
    }
}

impl Placement {
    /// The first canvas column of the glyph's box.
    pub open spec fn left(self) -> nat {
        on_canvas(self.x)
    }

    /// The first canvas row of the glyph's box.
    pub open spec fn top(self) -> nat {
        on_canvas(self.y)
    }

    /// The canvas column just right of the glyph's box.
    pub open spec fn right(self) -> nat {
        self.left() + self.width as nat
    }

    /// The canvas row just below the glyph's box.
    pub open spec fn bottom(self) -> nat {
        self.top() + self.height as nat
    }

    /// The glyph's box reaches the canvas cell `(y, x)`.
    pub open spec fn reaches(self, y: int, x: int) -> bool {
        self.top() <= y < self.bottom() && self.left() <= x < self.right()
    }

    /// The box ends within what 32 bits can count.
    pub open spec fn in_range(self) -> bool {
        self.right() <= u32::MAX && self.bottom() <= u32::MAX
    }
}

/// The width of the canvas: the rightmost edge of any glyph's box.
pub open spec fn canvas_cols(placements: Seq<Placement>) -> nat
    decreases placements.len(),
{
    if placements.len() == 0 {
        0
    } else {
        let rest = canvas_cols(placements.drop_last());
        if placements.last().right() > rest {
            placements.last().right()
        } else {
            rest
        }
    }
}

/// The height of the canvas: the lowest edge of any glyph's box.
pub open spec fn canvas_rows(placements: Seq<Placement>) -> nat
    decreases placements.len(),
{
    if placements.len() == 0 {
        0
    } else {
        let rest = canvas_rows(placements.drop_last());
        if placements.last().bottom() > rest {
            placements.last().bottom()
        } else {
            rest
        }
    }
}

/// The canvas cell `(y, x)` after the first `count` glyphs have been stamped:
/// the cell of the last of them whose box reaches it, or 0 where none does.
pub open spec fn composed_cell(
    placements: Seq<Placement>,
    glyphs: Seq<Grid>,
    count: nat,
    y: int,
    x: int,
) -> u8
    decreases count,
{
    if count == 0 {
        0
    } else {
        let p = placements[count - 1];
        if p.reaches(y, x) {
            glyphs[count - 1].cells[y - p.top()][x - p.left()]
        } else {
            composed_cell(placements, glyphs, (count - 1) as nat, y, x)
        }
    }
}

/// The canvas after the first `count` glyphs have been stamped.
pub open spec fn composed_upto(placements: Seq<Placement>, glyphs: Seq<Grid>, count: nat) -> Grid {
    Grid {
        cols: canvas_cols(placements),
        cells: Seq::new(
            canvas_rows(placements),
            |y: int|
                Seq::new(
                    canvas_cols(placements),
                    |x: int| composed_cell(placements, glyphs, count, y, x),
                ),
        ),
    }
}

/// The bitmap of the whole text: the canvas with every glyph stamped.
pub open spec fn composed(placements: Seq<Placement>, glyphs: Seq<Grid>) -> Grid {
    composed_upto(placements, glyphs, placements.len())
}

/// The glyphs can be assembled: there is one bitmap for each placement, no
/// box is larger than its bitmap or ends beyond what 32 bits can count, and
/// the canvas can be allocated.
pub open spec fn composable(placements: Seq<Placement>, glyphs: Seq<Grid>) -> bool {
    &&& glyphs.len() == placements.len()
    &&& forall|i: int|
        0 <= i < placements.len() ==> (#[trigger] placements[i]).in_range() && placements[i].width
            <= glyphs[i].cols && placements[i].height <= glyphs[i].rows()
    &&& fits(canvas_rows(placements), canvas_cols(placements))
}

/// The views of a vector of shared bitmaps.
pub open spec fn grids_of(glyphs: Seq<Arc<Bitmap>>) -> Seq<Grid> {
    Seq::new(glyphs.len(), |i: int| glyphs[i]@)
}

/// The canvas holds every glyph's box.
pub proof fn lemma_canvas_holds(placements: Seq<Placement>, i: int)
    requires
        0 <= i < placements.len(),
    ensures
        placements[i].right() <= canvas_cols(placements),
        placements[i].bottom() <= canvas_rows(placements),
    decreases placements.len(),
{
    if i < placements.len() - 1 {
        lemma_canvas_holds(placements.drop_last(), i);
    }
}

/// Appending one placement leaves the canvas as it was or extends it to that
/// placement's edges.
pub proof fn lemma_canvas_push(placements: Seq<Placement>, p: Placement)
    ensures
        canvas_cols(placements.push(p)) == if p.right() > canvas_cols(placements) {
            p.right()
        } else {
            canvas_cols(placements)
        },
        canvas_rows(placements.push(p)) == if p.bottom() > canvas_rows(placements) {
            p.bottom()
        } else {
            canvas_rows(placements)
        },
{
    assert(placements.push(p).drop_last() =~= placements);
}

/// A text whose layout continues another's needs a canvas at least as wide
/// and as high.
pub proof fn lemma_canvas_grows(placements: Seq<Placement>, more: Seq<Placement>)
    ensures
        canvas_cols(placements) <= canvas_cols(placements + more),
        canvas_rows(placements) <= canvas_rows(placements + more),
    decreases more.len(),
{
    if more.len() == 0 {
        assert(placements + more =~= placements);
    } else {
        lemma_canvas_grows(placements, more.drop_last());
        assert((placements + more).drop_last() =~= placements + more.drop_last());
    }
}

/// The right and bottom edges of a placement's box on the canvas, or `None`
/// where one of them lies beyond what 32 bits can count.
pub fn placement_edges(p: &Placement) -> (out: Option<(u32, u32)>)
    ensures
        out is Some <==> p.in_range(),
        out matches Some(edges) ==> edges.0 == p.right() && edges.1 == p.bottom(),
{
    let limit: u64 = u32::MAX as u64;
    let left: u64 = if p.x < 0 {
        0
    } else {
        p.x as u64
    };
    let top: u64 = if p.y < 0 {
        0
    } else {
        p.y as u64
    };
    if left > limit || top > limit || p.width as u64 > limit || p.height as u64 > limit {
        return None;
    }
    let right: u64 = left + p.width as u64;
    let bottom: u64 = top + p.height as u64;
    if right > limit || bottom > limit {
        return None;
    }
    Some((right as u32, bottom as u32))
}

/// The width and height of the canvas for `placements`, or `None` where a
/// box ends beyond what 32 bits can count.
pub fn canvas_extent(placements: &Vec<Placement>) -> (out: Option<(u32, u32)>)
    ensures
        out is Some <==> forall|i: int|
            0 <= i < placements@.len() ==> (#[trigger] placements@[i]).in_range(),
        out matches Some(extent) ==> extent.0 == canvas_cols(placements@) && extent.1 == canvas_rows(
            placements@,
        ),
{
    let mut width: u32 = 0;
    let mut height: u32 = 0;
    let mut i: usize = 0;
    while i < placements.len()
        invariant
            0 <= i <= placements@.len(),
            forall|j: int| 0 <= j < i ==> (#[trigger] placements@[j]).in_range(),
            width == canvas_cols(placements@.take(i as int)),
            height == canvas_rows(placements@.take(i as int)),
        decreases placements@.len() - i,
    {
        proof {
            lemma_canvas_push(placements@.take(i as int), placements@[i as int]);
            assert(placements@.take(i as int).push(placements@[i as int]) =~= placements@.take(
                i + 1,
            ));
        }
        match placement_edges(&placements[i]) {
            Some((right, bottom)) => {
                if right > width {
                    width = right;
                }
                if bottom > height {
                    height = bottom;
                }
            },
            None => {
                return None;
            },
        }
        i += 1;
    }
    proof {
        assert(placements@.take(placements@.len() as int) =~= placements@);
    }
    Some((width, height))
}

/// Copies the top-left `p.width` by `p.height` cells of `glyph` into the box
/// of `p` on the canvas.
fn stamp(
    canvas: &mut Bitmap,
    glyph: &Bitmap,
    p: &Placement,
    Ghost(placements): Ghost<Seq<Placement>>,
    Ghost(glyphs): Ghost<Seq<Grid>>,
    Ghost(index): Ghost<nat>,
)
    requires
        index < placements.len(),
        glyphs.len() == placements.len(),
        placements[index as int] == *p,
        glyphs[index as int] == glyph@,
        p.in_range(),
        p.width <= glyph@.cols,
        p.height <= glyph@.rows(),
        p.right() <= canvas_cols(placements),
        p.bottom() <= canvas_rows(placements),
        old(canvas)@ == composed_upto(placements, glyphs, index),
    ensures
        final(canvas)@ == composed_upto(placements, glyphs, index + 1),
{
    proof {
        use_type_invariant(glyph);
        use_type_invariant(&*canvas);
    }
    let left: usize = if p.x < 0 {
        0
    } else {
        p.x as usize
    };
    let top: usize = if p.y < 0 {
        0
    } else {
        p.y as usize
    };
    let ghost before: Grid = canvas@;
    let ghost rows: nat = canvas_rows(placements);
    let ghost cols: nat = canvas_cols(placements);
    let mut y_offset: usize = 0;
    while y_offset < p.height
        invariant
            index < placements.len(),
            placements[index as int] == *p,
            glyphs[index as int] == glyph@,
            glyph@.rectangular(),
            p.in_range(),
            left == p.left(),
            top == p.top(),
            p.width <= glyph@.cols,
            p.height <= glyph@.rows(),
            p.right() <= cols,
            p.bottom() <= rows,
            rows == canvas_rows(placements),
            cols == canvas_cols(placements),
            before == composed_upto(placements, glyphs, index),
            0 <= y_offset <= p.height,
            canvas@.cols == cols,
            canvas@.rows() == rows,
            canvas@.rectangular(),
            forall|y: int, x: int|
                0 <= y < rows && 0 <= x < cols ==> #[trigger] canvas@.cells[y][x] == (if p.reaches(y, x)
                    && y - top < y_offset {
                    glyph@.cells[y - top][x - left]
                } else {
                    before.cells[y][x]
                }),
        decreases p.height - y_offset,
    {
        let mut x_offset: usize = 0;
        while x_offset < p.width
            invariant
                glyph@.rectangular(),
                p.in_range(),
                left == p.left(),
                top == p.top(),
                p.width <= glyph@.cols,
                p.height <= glyph@.rows(),
                p.right() <= cols,
                p.bottom() <= rows,
                0 <= y_offset < p.height,
                0 <= x_offset <= p.width,
                canvas@.cols == cols,
                canvas@.rows() == rows,
                canvas@.rectangular(),
                forall|y: int, x: int|
                    0 <= y < rows && 0 <= x < cols ==> #[trigger] canvas@.cells[y][x] == (if p.reaches(
                        y,
                        x,
                    ) && (y - top < y_offset || (y - top == y_offset && x - left < x_offset)) {
                        glyph@.cells[y - top][x - left]
                    } else {
                        before.cells[y][x]
                    }),
            decreases p.width - x_offset,
        {
            let value: u8 = raw_get(glyph, y_offset, x_offset);
            raw_set(canvas, top + y_offset, left + x_offset, value);
            x_offset += 1;
        }
        y_offset += 1;
    }
    proof {
        let want = composed_upto(placements, glyphs, index + 1);
        assert forall|y: int| 0 <= y < rows implies #[trigger] canvas@.cells[y] =~= want.cells[y] by {}
    }
}

/// Assembles the bitmap of a text from the placements of its glyphs and
/// their bitmaps: a canvas of zeros that holds every box, onto which each
/// glyph is stamped in turn, later glyphs over earlier ones.
pub fn compose(placements: &Vec<Placement>, glyphs: &Vec<Arc<Bitmap>>) -> (out: Bitmap)
    requires
        composable(placements@, grids_of(glyphs@)),
    ensures
        out@ == composed(placements@, grids_of(glyphs@)),
{
    let ghost grids: Seq<Grid> = grids_of(glyphs@);
    let extent = canvas_extent(placements);
    let (width, height) = extent.unwrap();
    let mut canvas = raw_zeros(height as usize, width as usize);
    proof {
        let want = composed_upto(placements@, grids, 0);
        assert forall|y: int| 0 <= y < height implies #[trigger] canvas@.cells[y] =~= want.cells[y] by {}
    }
    let mut i: usize = 0;
    while i < placements.len()
        invariant
            composable(placements@, grids),
            grids == grids_of(glyphs@),
            0 <= i <= placements@.len(),
            canvas@ == composed_upto(placements@, grids, i as nat),
        decreases placements@.len() - i,
    {
        proof {
            lemma_canvas_holds(placements@, i as int);
        }
        stamp(
            &mut canvas,
            &glyphs[i],
            &placements[i],
            Ghost(placements@),
            Ghost(grids),
            Ghost(i as nat),
        );
        i += 1;
    }
    canvas
}

} // verus!
