//! The glyph cache: which character holds which slot of the atlas, from the
//! least recently used to the most recently used.

use crate::font_extractor::GlyphMetrics;
use vstd::prelude::*;

verus! {

/// A glyph in the atlas: its character, its measures, and its place.
/// `u_min .. u_max` and `v_min .. v_max` bound its cell in texels.
#[derive(Debug, Clone, Copy, PartialEq, Eq)]
pub struct Glyph {
    pub ch: char,
    pub metrics: GlyphMetrics,
    /// The channel of the texture that holds the glyph: 0 to 3.
    pub page: i32,
    /// The cell of the page that holds the glyph.
    pub index: u32,
    pub u_min: u32,
    pub u_max: u32,
    pub v_min: u32,
    pub v_max: u32,
    /// How many cells side by side the glyph takes.
    pub grid_count: u32,
}

/// `lru::LruCache`, whose inside stays hidden: what a cache holds is told
/// by `cache_entries` and `cache_capacity`.
#[verifier::external_type_specification]
#[verifier::external_body]
#[verifier::reject_recursive_types(K)]
#[verifier::reject_recursive_types(V)]
#[verifier::reject_recursive_types(S)]
pub struct ExLruCache<K, V, S>(lru::LruCache<K, V, S>);

/// `lru::DefaultHasher`, the hasher that a cache is made with.
#[verifier::external_type_specification]
#[verifier::external_body]
pub struct ExDefaultHasher(lru::DefaultHasher);

/// What a cache holds: its entries from the least recently used to the most
/// recently used. No two entries have the same key.
pub uninterp spec fn cache_entries(c: lru::LruCache<char, Glyph>) -> Seq<(char, Glyph)>;

/// How many entries a cache holds at most.
pub uninterp spec fn cache_capacity(c: lru::LruCache<char, Glyph>) -> nat;

/// Index of the entry with the key `ch`, or -1 where there is none.
pub open spec fn find(entries: Seq<(char, Glyph)>, ch: char) -> int
    decreases entries.len(),
{
    if entries.len() == 0 {
        -1
    } else if entries.last().0 == ch {
        entries.len() - 1
    } else {
        find(entries.drop_last(), ch)
    }
}

/// The entries with entry `i` replaced by `entry` and moved to the most
/// recently used end.
pub open spec fn renewed(entries: Seq<(char, Glyph)>, i: int, entry: (char, Glyph)) -> Seq<
    (char, Glyph),
> {
    entries.remove(i).push(entry)
}

/// The entries after `ch` has been pushed with `glyph`: an entry with that
/// key is replaced; else, in a full cache, the least recently used entry
/// leaves; the new entry is the most recently used.
pub open spec fn pushed(entries: Seq<(char, Glyph)>, capacity: nat, ch: char, glyph: Glyph) -> Seq<
    (char, Glyph),
> {
    if find(entries, ch) >= 0 {
        renewed(entries, find(entries, ch), (ch, glyph))
    } else if entries.len() >= capacity {
        entries.drop_first().push((ch, glyph))
    } else {
        entries.push((ch, glyph))
    }
}

/// The entry that leaves when `ch` is pushed.
pub open spec fn displaced(entries: Seq<(char, Glyph)>, capacity: nat, ch: char) -> Option<
    (char, Glyph),
> {
    if find(entries, ch) >= 0 {
        Some((ch, entries[find(entries, ch)].1))
    } else if entries.len() >= capacity {
        Some(entries[0])
    } else {
        None
    }
}

/// The entries after the key `ch` has been looked up: its entry, if there is
/// one, becomes the most recently used.
pub open spec fn touched(entries: Seq<(char, Glyph)>, ch: char) -> Seq<(char, Glyph)> {
    if find(entries, ch) >= 0 {
        renewed(entries, find(entries, ch), entries[find(entries, ch)])
    } else {
        entries
    }
}

/// The glyph that a lookup of `ch` finds.
pub open spec fn found(entries: Seq<(char, Glyph)>, ch: char) -> Option<Glyph> {
    if find(entries, ch) >= 0 {
        Some(entries[find(entries, ch)].1)
    } else {
        None
    }
}

/// Calls `lru::LruCache::new`. The contract claims an empty cache that
/// holds at most `capacity` entries.
#[verifier::external_body]
pub(crate) fn cache_new(capacity: usize) -> (c: lru::LruCache<char, Glyph>)
    requires
        capacity > 0,
    ensures
        cache_entries(c) == Seq::<(char, Glyph)>::empty(),
        cache_capacity(c) == capacity,
{
    lru::LruCache::new(std::num::NonZeroUsize::new(capacity).unwrap())
}

/// Calls `lru::LruCache::contains`. The contract claims that the answer
/// tells whether an entry has the key, and the cache is left as it is.
#[verifier::external_body]
pub(crate) fn cache_contains(c: &lru::LruCache<char, Glyph>, ch: char) -> (b: bool)
    ensures
        b == (find(cache_entries(*c), ch) >= 0),
{
    c.contains(&ch)
}

/// Calls `lru::LruCache::get`. The contract claims that the glyph of the
/// entry with the key comes back, and that this entry becomes the most
/// recently used.
#[verifier::external_body]
pub(crate) fn cache_get(c: &mut lru::LruCache<char, Glyph>, ch: char) -> (g: Option<Glyph>)
    ensures
        g == found(cache_entries(*old(c)), ch),
        cache_entries(*final(c)) == touched(cache_entries(*old(c)), ch),
        cache_capacity(*final(c)) == cache_capacity(*old(c)),
{
    c.get(&ch).copied()
}

/// Calls `lru::LruCache::push`. The contract claims what the crate
/// documents: an entry with the key is replaced and comes back; else, in a
/// full cache, the least recently used entry leaves and comes back; the
/// pushed entry is the most recently used.
#[verifier::external_body]
pub(crate) fn cache_push(c: &mut lru::LruCache<char, Glyph>, ch: char, glyph: Glyph) -> (out: Option<
    (char, Glyph),
>)
    ensures
        out == displaced(cache_entries(*old(c)), cache_capacity(*old(c)), ch),
        cache_entries(*final(c)) == pushed(
            cache_entries(*old(c)),
            cache_capacity(*old(c)),
            ch,
            glyph,
        ),
        cache_capacity(*final(c)) == cache_capacity(*old(c)),
{
    c.push(ch, glyph)
}

} // verus!
