//! Two-dimensional grids of bytes: coverage bitmaps of glyphs and text, and
//! palette-indexed images.
//!
//! The storage is an `ndarray` array. Verus does not look inside it: what a
//! [`Bitmap`] holds is described by [`grid_cells`] and [`grid_cols`], and the
//! few array operations the library uses are the private functions at the end
//! of this file, whose contracts are taken on trust.

use vstd::prelude::*;

verus! {

/// The mathematical content of a [`Bitmap`]: its rows from top to bottom,
/// each from left to right, and the width of every row.
///
/// The width is kept beside the rows because a grid without rows still has
/// a width.
#[verifier::ext_equal]
pub struct Grid {
    pub cols: nat,
    pub cells: Seq<Seq<u8>>,
}

impl Grid {
    /// The number of rows.
    pub open spec fn rows(self) -> nat {
        self.cells.len()
    }

    /// Every row has `cols` cells.
    pub open spec fn rectangular(self) -> bool {
        forall|y: int| 0 <= y < self.cells.len() ==> (#[trigger] self.cells[y]).len() == self.cols
    }

    /// `(y, x)` names a cell of the grid.
    pub open spec fn contains(self, y: int, x: int) -> bool {
        0 <= y < self.cells.len() && 0 <= x < self.cols
    }

    /// The grid of `rows` by `cols` cells that all hold `value`.
    pub open spec fn filled(rows: nat, cols: nat, value: u8) -> Grid {
        Grid { cols, cells: Seq::new(rows, |y: int| Seq::new(cols, |x: int| value)) }
    }
}

/// A grid of this shape can be allocated: neither side, nor the number of
/// cells, exceeds `isize::MAX`.
pub open spec fn fits(rows: nat, cols: nat) -> bool {
    rows <= isize::MAX && cols <= isize::MAX && rows * cols <= isize::MAX
}

/// The rows that a [`Bitmap`] holds, top to bottom.
pub uninterp spec fn grid_cells(b: Bitmap) -> Seq<Seq<u8>>;

/// The width that a [`Bitmap`] was made with.
pub uninterp spec fn grid_cols(b: Bitmap) -> nat;

/// A rectangular grid of bytes, held in an `ndarray::Array2`.
///
/// The array is hidden from Verus, which cannot take its type; the grid that
/// a bitmap holds is `self@`.
#[verifier::external_body]
pub struct Bitmap {
    cells: ndarray::Array2<u8>,
}

impl View for Bitmap {
    type V = Grid;

    open spec fn view(&self) -> Grid {
        Grid { cols: grid_cols(*self), cells: grid_cells(*self) }
    }
}

/// The rows of `rows` all have the length of the first.
pub open spec fn same_lengths(rows: Seq<Vec<u8>>) -> bool {
    forall|y: int| 0 <= y < rows.len() ==> (#[trigger] rows[y])@.len() == rows[0]@.len()
}

/// The width of the grid that `rows` spell out: the length of the first row,
/// or 0 where there is none.
pub open spec fn width_of_rows(rows: Seq<Vec<u8>>) -> nat {
    if rows.len() == 0 {
        0
    } else {
        rows[0]@.len()
    }
}

/// The grid that `rows` spell out.
pub open spec fn grid_of_rows(rows: Seq<Vec<u8>>) -> Grid {
    Grid { cols: width_of_rows(rows), cells: Seq::new(rows.len(), |y: int| rows[y]@) }
}

impl Bitmap {
    /// Every bitmap is rectangular.
    #[verifier::type_invariant]
    pub open spec fn well_formed(self) -> bool {
        self@.rectangular()
    }

    /// A bitmap of `rows` by `cols` zeros, or `None` where that shape cannot
    /// be allocated.
    pub fn zeros(rows: usize, cols: usize) -> (out: Option<Bitmap>)
        ensures
            out is Some <==> fits(rows as nat, cols as nat),
            out matches Some(b) ==> b@ == Grid::filled(rows as nat, cols as nat, 0),
    {
        if shape_fits(rows, cols) {
            Some(raw_zeros(rows, cols))
        } else {
            None
        }
    }

    /// The bitmap that `rows` spell out, or `None` where the rows differ in
    /// length or the shape cannot be allocated.
    pub fn from_rows(rows: &Vec<Vec<u8>>) -> (out: Option<Bitmap>)
        ensures
            out is Some <==> same_lengths(rows@) && fits(rows@.len(), width_of_rows(rows@)),
            out matches Some(b) ==> b@ == grid_of_rows(rows@),
    {
        let height: usize = rows.len();
        let width: usize = if height == 0 {
            0
        } else {
            rows[0].len()
        };
        if !shape_fits(height, width) {
            return None;
        }
        let mut out = raw_zeros(height, width);
        let mut y: usize = 0;
        while y < height
            invariant
                height == rows@.len(),
                width == width_of_rows(rows@),
                0 <= y <= height,
                out@.cols == width,
                out@.cells.len() == height,
                out@.rectangular(),
                forall|j: int| 0 <= j < y ==> (#[trigger] rows@[j])@.len() == width,
                forall|j: int| 0 <= j < y ==> (#[trigger] out@.cells[j]) == rows@[j]@,
            decreases height - y,
        {
            if rows[y].len() != width {
                return None;
            }
            let mut x: usize = 0;
            while x < width
                invariant
                    height == rows@.len(),
                    0 <= y < height,
                    rows@[y as int]@.len() == width,
                    0 <= x <= width,
                    out@.cols == width,
                    out@.cells.len() == height,
                    out@.rectangular(),
                    forall|j: int| 0 <= j < y ==> (#[trigger] out@.cells[j]) == rows@[j]@,
                    forall|i: int| 0 <= i < x ==> (#[trigger] out@.cells[y as int][i]) == rows@[y as int]@[i],
                decreases width - x,
            {
                let value: u8 = rows[y][x];
                raw_set(&mut out, y, x, value);
                x += 1;
            }
            y += 1;
        }
        Some(out)
    }

    /// The rows of the bitmap, top to bottom.
    pub fn to_rows(&self) -> (out: Vec<Vec<u8>>)
        ensures
            out@.len() == self@.rows(),
            forall|y: int| 0 <= y < out@.len() ==> (#[trigger] out@[y])@ == self@.cells[y],
    {
        proof {
            use_type_invariant(self);
        }
        let height: usize = raw_nrows(self);
        let width: usize = raw_ncols(self);
        let mut out: Vec<Vec<u8>> = Vec::new();
        let mut y: usize = 0;
        while y < height
            invariant
                height == self@.cells.len(),
                width == self@.cols,
                self@.rectangular(),
                0 <= y <= height,
                out@.len() == y,
                forall|j: int| 0 <= j < y ==> (#[trigger] out@[j])@ == self@.cells[j],
            decreases height - y,
        {
            let mut row: Vec<u8> = Vec::new();
            let mut x: usize = 0;
            while x < width
                invariant
                    height == self@.cells.len(),
                    width == self@.cols,
                    self@.rectangular(),
                    0 <= y < height,
                    0 <= x <= width,
                    row@.len() == x,
                    forall|i: int| 0 <= i < x ==> #[trigger] row@[i] == self@.cells[y as int][i],
                decreases width - x,
            {
                row.push(raw_get(self, y, x));
                x += 1;
            }
            out.push(row);
            y += 1;
        }
        out
    }

    /// The number of rows.
    pub fn nrows(&self) -> (n: usize)
        ensures
            n == self@.rows(),
    {
        raw_nrows(self)
    }

    /// The number of columns.
    pub fn ncols(&self) -> (n: usize)
        ensures
            n == self@.cols,
    {
        raw_ncols(self)
    }

    /// The cell in row `y` and column `x`, or `None` where the bitmap has no
    /// such cell.
    pub fn get(&self, y: usize, x: usize) -> (out: Option<u8>)
        ensures
            out is Some <==> self@.contains(y as int, x as int),
            out matches Some(v) ==> v == self@.cells[y as int][x as int],
    {
        if y < raw_nrows(self) && x < raw_ncols(self) {
            Some(raw_get(self, y, x))
        } else {
            None
        }
    }

    /// The number of cells: the weight of the bitmap as a cache entry. A
    /// count that 32 bits cannot hold is given as the largest that they can.
    pub fn weight(&self) -> (w: u32)
        ensures
            w as int == weight_of(self@),
    {
        let cells: usize = raw_len(self);
        if cells > u32::MAX as usize {
            u32::MAX
        } else {
            cells as u32
        }
    }
}

/// The weight of a grid as a cache entry: the number of its cells, or the
/// largest number of 32 bits where there are more.
pub open spec fn weight_of(grid: Grid) -> int {
    if grid.rows() * grid.cols <= u32::MAX {
        (grid.rows() * grid.cols) as int
    } else {
        u32::MAX as int
    }
}

/// Whether a grid of this shape can be allocated.
pub fn shape_fits(rows: usize, cols: usize) -> (ok: bool)
    ensures
        ok == fits(rows as nat, cols as nat),
{
    let limit: usize = isize::MAX as usize;
    if rows > limit || cols > limit {
        return false;
    }
    match rows.checked_mul(cols) {
        Some(cells) => cells <= limit,
        None => false,
    }
}

/// `ndarray::Array2::zeros` with the shape `(rows, cols)`. It panics where
/// the product of the non-zero sides exceeds `isize::MAX`, which `fits` rules
/// out; otherwise it gives an array of that shape whose every element is zero.
#[verifier::external_body]
pub(crate) fn raw_zeros(rows: usize, cols: usize) -> (b: Bitmap)
    requires
        fits(rows as nat, cols as nat),
    ensures
        grid_cols(b) == cols,
        grid_cells(b) == Seq::new(rows as nat, |y: int| Seq::new(cols as nat, |x: int| 0u8)),
{
    Bitmap { cells: ndarray::Array2::zeros((rows, cols)) }
}

/// `ndarray`'s `nrows`: the length of the first axis.
#[verifier::external_body]
pub(crate) fn raw_nrows(b: &Bitmap) -> (n: usize)
    ensures
        n == grid_cells(*b).len(),
{
    b.cells.nrows()
}

/// `ndarray`'s `ncols`: the length of the second axis.
#[verifier::external_body]
pub(crate) fn raw_ncols(b: &Bitmap) -> (n: usize)
    ensures
        n == grid_cols(*b),
{
    b.cells.ncols()
}

/// `ndarray`'s `len`: the total number of elements, the product of the two
/// axis lengths.
#[verifier::external_body]
pub(crate) fn raw_len(b: &Bitmap) -> (n: usize)
    ensures
        n == grid_cells(*b).len() * grid_cols(*b),
{
    b.cells.len()
}

/// Indexing an `ndarray` array by `[y, x]`. It panics outside the array's
/// shape, which the precondition rules out, and otherwise gives the element
/// in row `y` and column `x`.
#[verifier::external_body]
pub(crate) fn raw_get(b: &Bitmap, y: usize, x: usize) -> (value: u8)
    requires
        y < grid_cells(*b).len(),
        x < grid_cols(*b),
    ensures
        value == grid_cells(*b)[y as int][x as int],
{
    b.cells[[y, x]]
}

/// Assigning through the index `[y, x]` of an `ndarray` array. It panics
/// outside the array's shape, which the precondition rules out, and otherwise
/// replaces the element in row `y` and column `x` and nothing else.
#[verifier::external_body]
pub(crate) fn raw_set(b: &mut Bitmap, y: usize, x: usize, value: u8)
    requires
        y < grid_cells(*old(b)).len(),
        x < grid_cols(*old(b)),
    ensures
        grid_cols(*final(b)) == grid_cols(*old(b)),
        grid_cells(*final(b)) == grid_cells(*old(b)).update(
            y as int,
            grid_cells(*old(b))[y as int].update(x as int, value),
        ),
{
    b.cells[[y, x]] = value;
}

} // verus!
