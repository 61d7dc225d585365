//! A font with a bounded cache of its rasterized glyphs.

use vstd::prelude::*;
use std::sync::Arc;
use crate::bitmap::{shape_fits, Bitmap, Grid};
use crate::cache::{build_cache, cache_entries, cache_get, cache_insert, cache_limit, no_entries, GlyphCache};
use crate::font::{
    cover_glyph, extent_fits, glyph_grid, lay_out, materialize, measure_glyph, parse_font,
    parsed_font, renderable, text_layout, Placement,
};
use crate::layout::{canvas_extent, composable, compose, composed, grids_of, placement_edges};
use crate::loading::{
    check_loadable, font_names, loadable, names_decode, scale_admitted, Refusal,
};

pub use crate::compositor::{imprint_text, try_imprint_text};
pub use crate::palette::Palette;

verus! {

/// Why [`CachedFont::try_from_bytes`] gives no font.
#[derive(Clone, Copy, Debug, PartialEq, Eq)]
pub enum LoadError {
    /// The scale in the settings is negative.
    NegativeScale,
    /// The font's full name is not well-formed UTF-16.
    MalformedName,
    /// The bytes are not a font, for the reason that the parser gives.
    NotAFont(&'static str),
}

/// A font together with a cache of the glyphs rasterized from it, keyed by
/// character and size.
pub struct CachedFont {
    pub(crate) font: fontdue::Font,
    pub(crate) cache: GlyphCache,
}

/// Every bitmap in `entries` is the one that `font` gives for its key.
pub open spec fn holds_glyphs_of(font: fontdue::Font, entries: Map<(char, u32), Grid>) -> bool {
    forall|key: (char, u32)| #[trigger]
        entries.dom().contains(key) ==> entries[key] == glyph_grid(font, key.0, key.1)
}

/// The bitmaps of the glyphs that `placements` name, one for each placement.
pub open spec fn glyph_grids(font: fontdue::Font, placements: Seq<Placement>, size: u32) -> Seq<
    Grid,
> {
    Seq::new(placements.len(), |i: int| glyph_grid(font, placements[i].character, size))
}

/// The font can rasterize at `size` every glyph that `placements` name.
pub open spec fn glyphs_renderable(font: fontdue::Font, placements: Seq<Placement>, size: u32) -> bool {
    forall|i: int|
        0 <= i < placements.len() ==> renderable(font, (#[trigger] placements[i]).character, size)
}

/// The glyphs that `placements` name can all be rasterized at `size` and
/// assembled.
pub open spec fn layout_renderable(font: fontdue::Font, placements: Seq<Placement>, size: u32) -> bool {
    glyphs_renderable(font, placements, size) && composable(
        placements,
        glyph_grids(font, placements, size),
    )
}

/// One of `placements` is for the character `ch`.
pub open spec fn places(placements: Seq<Placement>, ch: char) -> bool {
    exists|i: int| 0 <= i < placements.len() && (#[trigger] placements[i]).character == ch
}

/// Every key of `after` is a key of `before` or names, at `size`, the
/// character of one of `placements`.
pub open spec fn grown_by(
    before: Map<(char, u32), Grid>,
    after: Map<(char, u32), Grid>,
    placements: Seq<Placement>,
    size: u32,
) -> bool {
    forall|key: (char, u32)| #[trigger]
        after.dom().contains(key) ==> before.dom().contains(key) || (key.1 == size && places(
            placements,
            key.0,
        ))
}

impl CachedFont {
    /// The font.
    pub closed spec fn font(&self) -> fontdue::Font {
        self.font
    }

    /// The bitmaps that the cache holds, each under its character and size.
    pub closed spec fn entries(&self) -> Map<(char, u32), Grid> {
        cache_entries(self.cache)
    }

    /// The total weight that the cache was made to hold.
    pub closed spec fn capacity(&self) -> nat {
        cache_limit(self.cache)
    }

    /// The coverage bitmap that the font gives for `ch` at `size`.
    pub open spec fn glyph(&self, ch: char, size: u32) -> Grid {
        glyph_grid(self.font(), ch, size)
    }

    /// The font can rasterize `ch` at `size`.
    pub open spec fn can_rasterize(&self, ch: char, size: u32) -> bool {
        renderable(self.font(), ch, size)
    }

    /// The placements of the glyphs of `text` at `size`.
    pub open spec fn layout(&self, text: Seq<char>, size: u32) -> Seq<Placement> {
        text_layout(self.font(), text, size)
    }

    /// The bitmap of `text` at `size`: its glyphs, assembled as laid out.
    pub open spec fn text_bitmap(&self, text: Seq<char>, size: u32) -> Grid {
        composed(self.layout(text, size), glyph_grids(self.font(), self.layout(text, size), size))
    }

    /// The font can rasterize every glyph of `text` at `size`, and the
    /// glyphs can be assembled.
    pub open spec fn can_rasterize_text(&self, text: Seq<char>, size: u32) -> bool {
        layout_renderable(self.font(), self.layout(text, size), size)
    }

    /// Every bitmap in the cache is the one that the font gives for its key.
    #[verifier::type_invariant]
    pub closed spec fn well_formed(&self) -> bool {
        holds_glyphs_of(self.font, cache_entries(self.cache))
    }

    /// A font with an empty cache that is to hold bitmaps of at most
    /// `max_size` cells in all.
    pub fn new(font: fontdue::Font, max_size: u64) -> (out: Self)
        ensures
            out.font() == font,
            out.entries() == no_entries(),
            out.capacity() == max_size,
    {
        let cache = build_cache(max_size);
        Self { font, cache }
    }

    /// Wraps the outcome of parsing a font: the font with an empty cache, or
    /// the reason why there is none.
    pub fn from_parsed(parsed: Result<fontdue::Font, &'static str>, max_size: u64) -> (out: Result<
        Self,
        LoadError,
    >)
        ensures
            match parsed {
                Ok(font) => out matches Ok(cached) && cached.font() == font
                    && cached.entries() == no_entries() && cached.capacity() == max_size,
                Err(reason) => out matches Err(LoadError::NotAFont(told)) && told == reason,
            },
    {
        match parsed {
            Ok(font) => Ok(Self::new(font, max_size)),
            Err(reason) => Err(LoadError::NotAFont(reason)),
        }
    }

    /// Parses `bytes` as a font file and gives the font an empty cache of
    /// limit `max_size`.
    ///
    /// It fails, before any parsing, where the scale in `settings` is
    /// negative or the font's full name is not well-formed UTF-16, and with
    /// the parser's reason where the bytes are not a font.
    pub fn try_from_bytes(bytes: &[u8], settings: fontdue::FontSettings, max_size: u64) -> (out:
        Result<Self, LoadError>)
        ensures
            match out {
                Ok(cached) => loadable(bytes@, settings) && parsed_font(bytes@, settings) == Ok::<
                    fontdue::Font,
                    Seq<char>,
                >(cached.font()) && cached.entries() == no_entries() && cached.capacity()
                    == max_size,
                Err(LoadError::NegativeScale) => !scale_admitted(settings),
                Err(LoadError::MalformedName) => scale_admitted(settings) && !names_decode(
                    font_names(bytes@, settings),
                ),
                Err(LoadError::NotAFont(reason)) => loadable(bytes@, settings) && parsed_font(
                    bytes@,
                    settings,
                ) == Err::<fontdue::Font, Seq<char>>(reason@),
            },
    {
        match check_loadable(bytes, &settings) {
            Err(Refusal::NegativeScale) => Err(LoadError::NegativeScale),
            Err(Refusal::MalformedName) => Err(LoadError::MalformedName),
            Ok(()) => Self::from_parsed(parse_font(bytes, settings), max_size),
        }
    }

    /// The coverage bitmap of `ch` at `size`, shared with the cache.
    ///
    /// A bitmap found in the cache is handed out as it is. Otherwise the
    /// glyph is rasterized, stored under `(ch, size)` and handed out. Either
    /// way the cache may have evicted entries when this returns.
    pub fn rasterize(&mut self, ch: char, size: u32) -> (out: Arc<Bitmap>)
        requires
            old(self).can_rasterize(ch, size),
        ensures
            out@ == old(self).glyph(ch, size),
            final(self).font() == old(self).font(),
            final(self).capacity() == old(self).capacity(),
            final(self).entries().submap_of(
                old(self).entries().insert((ch, size), old(self).glyph(ch, size)),
            ),
    {
        let ghost before = self.entries();
        let ghost fresh = self.glyph(ch, size);
        proof {
            use_type_invariant(&*self);
            lemma_part_holds_glyphs(self.font, before);
        }
        match cache_get(&mut self.cache, ch, size) {
            Some(entry) => {
                assert(before.insert((ch, size), fresh) =~= before);
                entry
            },
            None => {
                let (width, height, coverage) = cover_glyph(&self.font, ch, size);
                let array = materialize(width, height, &coverage);
                let a = Arc::new(array);
                let ghost kept = self.entries();
                proof {
                    lemma_part_holds_glyphs(self.font, kept.insert((ch, size), fresh));
                }
                cache_insert(&mut self.cache, ch, size, &a);
                proof {
                    lemma_part_of_grown(self.entries(), kept, before, (ch, size), fresh);
                }
                a
            },
        }
    }

    /// The coverage bitmap of `ch` at `size`, computed afresh; the cache is
    /// neither read nor written.
    pub fn rasterize_without_cache(&self, ch: char, size: u32) -> (out: Bitmap)
        requires
            self.can_rasterize(ch, size),
        ensures
            out@ == self.glyph(ch, size),
    {
        let (width, height, coverage) = cover_glyph(&self.font, ch, size);
        materialize(width, height, &coverage)
    }

    /// The bitmap of `text` at `size`: the text is laid out, each glyph is
    /// fetched through the cache, and the glyphs are stamped in layout order
    /// onto a canvas that holds them all.
    pub fn rasterize_text(&mut self, text: &str, size: u32) -> (out: Bitmap)
        requires
            old(self).can_rasterize_text(text@, size),
        ensures
            out@ == old(self).text_bitmap(text@, size),
            final(self).font() == old(self).font(),
            final(self).capacity() == old(self).capacity(),
            grown_by(
                old(self).entries(),
                final(self).entries(),
                old(self).layout(text@, size),
                size,
            ),
    {
        let placements = lay_out(&self.font, text, size);
        let glyphs = self.rasterize_glyphs(&placements, size);
        compose(&placements, &glyphs)
    }

    /// The bitmap of the glyph of each placement at `size`, in the order of
    /// the placements, each fetched through the cache.
    pub fn rasterize_glyphs(&mut self, placements: &Vec<Placement>, size: u32) -> (glyphs: Vec<
        Arc<Bitmap>,
    >)
        requires
            glyphs_renderable(old(self).font(), placements@, size),
        ensures
            grids_of(glyphs@) == glyph_grids(old(self).font(), placements@, size),
            final(self).font() == old(self).font(),
            final(self).capacity() == old(self).capacity(),
            grown_by(old(self).entries(), final(self).entries(), placements@, size),
    {
        let mut glyphs: Vec<Arc<Bitmap>> = Vec::new();
        let mut i: usize = 0;
        while i < placements.len()
            invariant
                glyphs_renderable(old(self).font(), placements@, size),
                0 <= i <= placements@.len(),
                glyphs@.len() == i,
                forall|j: int|
                    0 <= j < i ==> (#[trigger] glyphs@[j])@ == glyph_grid(
                        old(self).font(),
                        placements@[j].character,
                        size,
                    ),
                self.font() == old(self).font(),
                self.capacity() == old(self).capacity(),
                grown_by(old(self).entries(), self.entries(), placements@.take(i as int), size),
            decreases placements@.len() - i,
        {
            let ch: char = placements[i].character;
            let ghost before = self.entries();
            let bitmap = self.rasterize(ch, size);
            proof {
                lemma_grown_by_one(old(self).entries(), before, self.entries(), placements@, i as int, size);
            }
            glyphs.push(bitmap);
            i += 1;
        }
        proof {
            assert(placements@.take(i as int) =~= placements@);
            assert(grids_of(glyphs@) =~= glyph_grids(old(self).font(), placements@, size));
        }
        glyphs
    }

    /// Whether the glyphs that `placements` name can all be rasterized at
    /// `size` and assembled.
    pub fn layout_fits(&self, placements: &Vec<Placement>, size: u32) -> (ok: bool)
        ensures
            ok == layout_renderable(self.font(), placements@, size),
    {
        let ghost grids = glyph_grids(self.font(), placements@, size);
        let mut i: usize = 0;
        while i < placements.len()
            invariant
                0 <= i <= placements@.len(),
                grids == glyph_grids(self.font(), placements@, size),
                forall|j: int|
                    0 <= j < i ==> renderable(self.font(), (#[trigger] placements@[j]).character, size)
                        && placements@[j].in_range() && placements@[j].width <= grids[j].cols
                        && placements@[j].height <= grids[j].rows(),
            decreases placements@.len() - i,
        {
            let p: Placement = placements[i];
            let (width, height) = measure_glyph(&self.font, p.character, size);
            let ok: bool = size > 0 && extent_fits(width, height) && p.width <= width && p.height
                <= height && placement_edges(&p).is_some();
            if !ok {
                assert(placements@[i as int] == p && grids[i as int] == self.glyph(p.character, size));
                return false;
            }
            i += 1;
        }
        match canvas_extent(placements) {
            Some((width, height)) => shape_fits(height as usize, width as usize),
            None => false,
        }
    }

    /// As [`CachedFont::rasterize`], for any character and size: `None`, with
    /// the cache as it was, where the font cannot rasterize `ch` at `size`.
    pub fn try_rasterize(&mut self, ch: char, size: u32) -> (out: Option<Arc<Bitmap>>)
        ensures
            out is Some <==> old(self).can_rasterize(ch, size),
            out matches Some(bitmap) ==> bitmap@ == old(self).glyph(ch, size),
            out is None ==> final(self).entries() == old(self).entries(),
            final(self).font() == old(self).font(),
            final(self).capacity() == old(self).capacity(),
            final(self).entries().submap_of(
                old(self).entries().insert((ch, size), old(self).glyph(ch, size)),
            ),
    {
        proof {
            use_type_invariant(&*self);
            lemma_part_of_itself(self.entries(), (ch, size));
        }
        if size == 0 {
            return None;
        }
        let (width, height) = measure_glyph(&self.font, ch, size);
        if !extent_fits(width, height) {
            return None;
        }
        Some(self.rasterize(ch, size))
    }

    /// As [`CachedFont::rasterize_without_cache`], for any character and
    /// size: `None` where the font cannot rasterize `ch` at `size`.
    pub fn try_rasterize_without_cache(&self, ch: char, size: u32) -> (out: Option<Bitmap>)
        ensures
            out is Some <==> self.can_rasterize(ch, size),
            out matches Some(bitmap) ==> bitmap@ == self.glyph(ch, size),
    {
        if size == 0 {
            return None;
        }
        let (width, height) = measure_glyph(&self.font, ch, size);
        if !extent_fits(width, height) {
            return None;
        }
        Some(self.rasterize_without_cache(ch, size))
    }

    /// As [`CachedFont::rasterize_text`], for any text and size: `None`, with
    /// the cache as it was, where a glyph cannot be rasterized or the glyphs
    /// cannot be assembled.
    pub fn try_rasterize_text(&mut self, text: &str, size: u32) -> (out: Option<Bitmap>)
        ensures
            out is Some <==> old(self).can_rasterize_text(text@, size),
            out matches Some(bitmap) ==> bitmap@ == old(self).text_bitmap(text@, size),
            out is None ==> final(self).entries() == old(self).entries(),
            final(self).font() == old(self).font(),
            final(self).capacity() == old(self).capacity(),
            grown_by(
                old(self).entries(),
                final(self).entries(),
                old(self).layout(text@, size),
                size,
            ),
    {
        let placements = lay_out(&self.font, text, size);
        if !self.layout_fits(&placements, size) {
            return None;
        }
        Some(self.rasterize_text(text, size))
    }
}

/// Every part of a cache that holds only glyphs of `font` holds only glyphs
/// of `font`.
proof fn lemma_part_holds_glyphs(font: fontdue::Font, entries: Map<(char, u32), Grid>)
    requires
        holds_glyphs_of(font, entries),
    ensures
        forall|part: Map<(char, u32), Grid>| #[trigger]
            part.submap_of(entries) ==> holds_glyphs_of(font, part),
{
    assert forall|part: Map<(char, u32), Grid>| #[trigger]
        part.submap_of(entries) implies holds_glyphs_of(font, part) by {
        assert forall|key: (char, u32)| #[trigger] part.dom().contains(key) implies part[key]
            == glyph_grid(font, key.0, key.1) by {
            assert(entries.dom().contains(key));
        }
    }
}

/// What is part of `kept` with one more entry is part of `before` with that
/// entry, where `kept` is part of `before`.
proof fn lemma_part_of_grown(
    after: Map<(char, u32), Grid>,
    kept: Map<(char, u32), Grid>,
    before: Map<(char, u32), Grid>,
    key: (char, u32),
    value: Grid,
)
    requires
        kept.submap_of(before),
        after.submap_of(kept.insert(key, value)),
    ensures
        after.submap_of(before.insert(key, value)),
{
    assert forall|k: (char, u32)| #[trigger] after.dom().contains(k) implies before.insert(
        key,
        value,
    ).dom().contains(k) && after[k] == before.insert(key, value)[k] by {
        assert(kept.insert(key, value).dom().contains(k));
        if k != key {
            assert(kept.dom().contains(k));
            assert(before.dom().contains(k));
        }
    }
}

/// A cache is part of itself with an entry that it holds or lacks.
proof fn lemma_part_of_itself(entries: Map<(char, u32), Grid>, key: (char, u32))
    ensures
        entries.dom().contains(key) ==> entries.submap_of(entries.insert(key, entries[key])),
        !entries.dom().contains(key) ==> forall|value: Grid| #[trigger]
            entries.submap_of(entries.insert(key, value)),
{
    if entries.dom().contains(key) {
        assert(entries.insert(key, entries[key]) =~= entries);
    }
}

/// Fetching the glyph of placement `i` keeps the cache within what the first
/// `i + 1` placements account for.
proof fn lemma_grown_by_one(
    first: Map<(char, u32), Grid>,
    before: Map<(char, u32), Grid>,
    after: Map<(char, u32), Grid>,
    placements: Seq<Placement>,
    i: int,
    size: u32,
)
    requires
        0 <= i < placements.len(),
        grown_by(first, before, placements.take(i), size),
        exists|fresh: Grid| after.submap_of(before.insert((placements[i].character, size), fresh)),
    ensures
        grown_by(first, after, placements.take(i + 1), size),
{
    let ch = placements[i].character;
    let fresh = choose|fresh: Grid| after.submap_of(before.insert((ch, size), fresh));
    let longer = placements.take(i + 1);
    assert forall|key: (char, u32)| #[trigger] after.dom().contains(key) implies first.dom().contains(
        key,
    ) || (key.1 == size && places(longer, key.0)) by {
        assert(before.insert((ch, size), fresh).dom().contains(key));
        if key == (ch, size) {
            assert(longer[i].character == ch);
        } else if !first.dom().contains(key) {
            assert(before.dom().contains(key));
            let j = choose|j: int|
                0 <= j < placements.take(i).len() && (#[trigger] placements.take(i)[j]).character
                    == key.0;
            assert(longer[j].character == key.0);
        }
    }
}

/// What `rasterize` hands out for a character and size depends on the font
/// alone: two states of the cache around the same font give the same bitmap.
pub proof fn lemma_rasterize_repeatable(first: CachedFont, second: CachedFont, ch: char, size: u32)
    requires
        first.font() == second.font(),
    ensures
        first.glyph(ch, size) == second.glyph(ch, size),
        first.can_rasterize(ch, size) == second.can_rasterize(ch, size),
{
}

/// A bitmap that the cache holds is the one that rasterizing without the
/// cache computes.
pub proof fn lemma_cached_is_fresh(cached: CachedFont, ch: char, size: u32)
    requires
        cached.well_formed(),
        cached.entries().dom().contains((ch, size)),
    ensures
        cached.entries()[(ch, size)] == cached.glyph(ch, size),
{
}

} // verus!
