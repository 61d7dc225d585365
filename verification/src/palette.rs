//! A fixed, ordered table of colours and the search for the entry nearest to
//! a given colour.

use vstd::prelude::*;
use crate::color::{color_dist, lemma_dist_zero_iff_same, weighted_dist, Rgb};

verus! {

/// An ordered table of colours. The position of a colour in the table is the
/// index that stands for it wherever a pixel is stored.
#[derive(Clone, Debug)]
pub struct Palette {
    pub palette: Vec<Rgb>,
}

/// Entry `i` is at least as near to `color` as every entry, and strictly
/// nearer than every entry before it.
pub open spec fn is_nearest(colors: Seq<Rgb>, color: Rgb, i: int) -> bool {
    &&& 0 <= i < colors.len()
    &&& forall|j: int|
        0 <= j < colors.len() ==> weighted_dist(color, colors[i]) <= weighted_dist(
            color,
            #[trigger] colors[j],
        )
    &&& forall|j: int|
        0 <= j < i ==> weighted_dist(color, colors[i]) < weighted_dist(color, #[trigger] colors[j])
}

/// The index of the first entry of `colors` at the least distance from
/// `color`; 0 for an empty table.
pub open spec fn nearest(colors: Seq<Rgb>, color: Rgb) -> int {
    if colors.len() == 0 {
        0
    } else {
        choose|i: int| is_nearest(colors, color, i)
    }
}

/// The most entries a table can have for each to be named by an index of
/// eight bits.
pub const PALETTE_MAX: usize = 256;

/// Every entry of `colors` can be named by an index of eight bits.
pub open spec fn indexable(colors: Seq<Rgb>) -> bool {
    colors.len() <= PALETTE_MAX
}

/// No colour occurs twice in `colors`.
pub open spec fn pairwise_distinct(colors: Seq<Rgb>) -> bool {
    forall|i: int, j: int| 0 <= i < j < colors.len() ==> #[trigger] colors[i] != #[trigger] colors[j]
}

/// At most one index is the nearest.
pub proof fn lemma_nearest_unique(colors: Seq<Rgb>, color: Rgb, i: int, j: int)
    requires
        is_nearest(colors, color, i),
        is_nearest(colors, color, j),
    ensures
        i == j,
{
    if i < j {
        assert(weighted_dist(color, colors[i]) <= weighted_dist(color, colors[j]));
    } else if j < i {
        assert(weighted_dist(color, colors[j]) <= weighted_dist(color, colors[i]));
    }
}

/// An index that is the nearest is the one `nearest` names.
pub proof fn lemma_nearest_is(colors: Seq<Rgb>, color: Rgb, i: int)
    requires
        is_nearest(colors, color, i),
    ensures
        nearest(colors, color) == i,
{
    let k = choose|k: int| is_nearest(colors, color, k);
    lemma_nearest_unique(colors, color, i, k);
}

/// Among the first `count` entries there is one that is at least as near to
/// `color` as each of them and strictly nearer than those before it.
proof fn lemma_first_least(colors: Seq<Rgb>, color: Rgb, count: int) -> (i: int)
    requires
        0 < count <= colors.len(),
    ensures
        is_nearest(colors.take(count), color, i),
    decreases count,
{
    let head = colors.take(count);
    if count == 1 {
        0
    } else {
        let rest = lemma_first_least(colors, color, count - 1);
        let shorter = colors.take(count - 1);
        assert forall|j: int| 0 <= j < count - 1 implies #[trigger] head[j] == shorter[j] by {}
        if weighted_dist(color, head[count - 1]) < weighted_dist(color, head[rest]) {
            count - 1
        } else {
            rest
        }
    }
}

/// A table that is not empty has a nearest entry to every colour, and
/// `nearest` names it.
pub proof fn lemma_nearest_exists(colors: Seq<Rgb>, color: Rgb)
    requires
        colors.len() > 0,
    ensures
        is_nearest(colors, color, nearest(colors, color)),
        0 <= nearest(colors, color) < colors.len(),
{
    let i = lemma_first_least(colors, color, colors.len() as int);
    assert(colors.take(colors.len() as int) =~= colors);
    lemma_nearest_is(colors, color, i);
}

/// In a table without repeated colours every entry is its own nearest entry.
pub proof fn lemma_entry_is_its_own_nearest(colors: Seq<Rgb>, i: int)
    requires
        pairwise_distinct(colors),
        0 <= i < colors.len(),
    ensures
        nearest(colors, colors[i]) == i,
{
    lemma_first_occurrence_is_nearest(colors, i);
}

/// An entry whose colour does not occur earlier in the table is the nearest
/// entry to its own colour.
pub proof fn lemma_first_occurrence_is_nearest(colors: Seq<Rgb>, i: int)
    requires
        0 <= i < colors.len(),
        forall|j: int| 0 <= j < i ==> #[trigger] colors[j] != colors[i],
    ensures
        nearest(colors, colors[i]) == i,
{
    let c = colors[i];
    lemma_dist_zero_iff_same(c, c);
    assert forall|j: int| 0 <= j < colors.len() implies weighted_dist(c, colors[i])
        <= weighted_dist(c, #[trigger] colors[j]) by {
        lemma_dist_zero_iff_same(c, colors[j]);
    }
    assert forall|j: int| 0 <= j < i implies weighted_dist(c, colors[i]) < weighted_dist(
        c,
        #[trigger] colors[j],
    ) by {
        lemma_dist_zero_iff_same(c, colors[j]);
    }
    lemma_nearest_is(colors, c, i);
}

impl Palette {
    /// Finds the entry nearest to `color` by weighted distance and returns
    /// its index; among entries at the same distance the first wins. The
    /// index is 0 for an empty table. The table must have at most 256
    /// entries, so that the index of each can be returned;
    /// [`Palette::try_closest_color`] tests this first.
    pub fn closest_color(&self, color: Rgb) -> (index: u8)
        requires
            indexable(self.palette@),
        ensures
            index as int == nearest(self.palette@, color),
            self.palette@.len() > 0 ==> is_nearest(self.palette@, color, index as int),
    {
        let n: usize = self.palette.len();
        if n == 0 {
            return 0;
        }
        let mut min_dist: u32 = color_dist(color, self.palette[0]);
        let mut min_index: usize = 0;
        let mut i: usize = 1;
        while i < n
            invariant
                n == self.palette@.len(),
                1 <= i <= n,
                0 <= min_index < i,
                min_dist as int == weighted_dist(color, self.palette@[min_index as int]),
                forall|j: int|
                    0 <= j < i ==> min_dist as int <= weighted_dist(color, #[trigger] self.palette@[j]),
                forall|j: int|
                    0 <= j < min_index ==> (min_dist as int) < weighted_dist(
                        color,
                        #[trigger] self.palette@[j],
                    ),
            decreases n - i,
        {
            let dist: u32 = color_dist(color, self.palette[i]);
            if dist < min_dist {
                min_dist = dist;
                min_index = i;
            }
            i += 1;
        }
        proof {
            lemma_nearest_is(self.palette@, color, min_index as int);
        }
        min_index as u8
    }

    /// As [`Palette::closest_color`], for a table of any length: `None`
    /// where the table has more entries than an index of eight bits can
    /// name.
    pub fn try_closest_color(&self, color: Rgb) -> (out: Option<u8>)
        ensures
            out is Some <==> indexable(self.palette@),
            out matches Some(index) ==> index as int == nearest(self.palette@, color),
    {
        if self.palette.len() > PALETTE_MAX {
            None
        } else {
            Some(self.closest_color(color))
        }
    }
}

} // verus!
