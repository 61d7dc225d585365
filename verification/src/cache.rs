//! The bounded store of rasterized glyphs.
//!
//! The store is a `mini_moka` cache keyed by character and size, weighing
//! each bitmap by its number of cells. When and what it evicts is its own
//! affair and depends on the clock; the contracts here say only what holds
//! whatever it decides: a lookup hands out what was stored, and entries go
//! away but never change or appear by themselves. Verus does not look inside
//! the cache; what it holds is named by [`cache_entries`], and the contracts
//! of the private functions below are taken on trust.

use vstd::prelude::*;
use std::hash::RandomState;
use std::sync::Arc;
use crate::bitmap::{Bitmap, Grid};

verus! {

/// `mini_moka::sync::Cache`, a concurrent cache bounded by the total weight
/// of its entries.
#[verifier::external_type_specification]
#[verifier::external_body]
#[verifier::reject_recursive_types(K)]
#[verifier::reject_recursive_types(V)]
#[verifier::reject_recursive_types(S)]
pub struct ExCache<K, V, S>(mini_moka::sync::Cache<K, V, S>);

/// A cache of shared glyph bitmaps, keyed by character and size.
pub type GlyphCache = mini_moka::sync::Cache<(char, u32), Arc<Bitmap>, RandomState>;

/// The bitmaps that the cache holds, each under its character and size.
pub uninterp spec fn cache_entries(cache: GlyphCache) -> Map<(char, u32), Grid>;

/// What an empty cache holds.
pub open spec fn no_entries() -> Map<(char, u32), Grid> {
    Map::empty()
}

/// The total weight that the cache was made to hold.
pub uninterp spec fn cache_limit(cache: GlyphCache) -> nat;

/// `mini_moka::sync::Cache::builder`, with `max_capacity` set to `max_size`
/// and a weigher that gives each bitmap its number of cells as weight, then
/// `build`: an empty cache with that limit.
#[verifier::external_body]
pub(crate) fn build_cache(max_size: u64) -> (out: GlyphCache)
    ensures
        cache_entries(out) == no_entries(),
        cache_limit(out) == max_size,
{
    mini_moka::sync::Cache::builder()
        .max_capacity(max_size)
        .weigher(|_, v: &Arc<Bitmap>| v.weight())
        .build()
}

/// `mini_moka::sync::Cache::get`: looks the key up and hands out the stored
/// bitmap if there is one. Afterwards the cache may catch up on pending
/// evictions, so entries may be gone, but none is new or changed. It panics
/// only where the cache's own channels or clock fail, which is taken not to
/// happen.
#[verifier::external_body]
pub(crate) fn cache_get(cache: &mut GlyphCache, ch: char, size: u32) -> (out: Option<Arc<Bitmap>>)
    ensures
        out is Some <==> cache_entries(*old(cache)).contains_key((ch, size)),
        out matches Some(bitmap) ==> bitmap@ == cache_entries(*old(cache))[(ch, size)],
        cache_entries(*final(cache)).submap_of(cache_entries(*old(cache))),
        cache_limit(*final(cache)) == cache_limit(*old(cache)),
    no_unwind
{
    cache.get(&(ch, size))
}

/// `mini_moka::sync::Cache::insert`: stores the bitmap under the key,
/// replacing what was there. The cache may then evict entries, the new one
/// among them, so it holds some part of the old entries and the new one. It
/// panics only where the cache's own channels or clock fail, which is taken
/// not to happen.
#[verifier::external_body]
pub(crate) fn cache_insert(cache: &mut GlyphCache, ch: char, size: u32, bitmap: &Arc<Bitmap>)
    ensures
        cache_entries(*final(cache)).submap_of(
            cache_entries(*old(cache)).insert((ch, size), bitmap@),
        ),
        cache_limit(*final(cache)) == cache_limit(*old(cache)),
    no_unwind
{
    cache.insert((ch, size), bitmap.clone());
}

} // verus!
