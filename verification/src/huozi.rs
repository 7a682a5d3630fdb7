//! The glyph atlas: distance-field tiles packed into the four channels of
//! one texture, with the least recently used glyph giving up its cell when
//! all cells are taken.

pub mod cache;
pub mod texture;

use crate::constant::{BUFFER, CUTOFF, FONT_SIZE, GRID_SIZE, RADIUS, TEXTURE_SIZE, UNIT};
use crate::font_extractor::{GlyphExtractorTrait, GlyphMetrics};
use crate::parser::scan::characters;
use crate::sdf::field::{at, lemma_at_bound};
use crate::sdf::{padded, tile_byte, TinySDF};
use cache::{
    cache_capacity, cache_contains, cache_entries, cache_get, cache_new, cache_push, find, found,
    touched, Glyph,
};
use texture::{byte_index, texture_bytes, texture_side, Texture};
use vstd::prelude::*;

verus! {

/// Cells in a row of a page.
pub const CELLS_PER_ROW: u32 = 16;

/// Cells of a page.
pub const SLOTS_PER_PAGE: u32 = 256;

/// Cells of the atlas: four pages.
pub const SLOTS: u32 = 1024;

/// Characters that one call of `preload` takes at most.
pub const PRELOAD_LIMIT: usize = 4096;

/// The glyph of `ch` in the cell with the number `slot`: the page is the
/// number divided by the cells of a page, the cell the remainder, and the
/// bounds are those of the cell.
pub open spec fn glyph_at(ch: char, metrics: GlyphMetrics, slot: int) -> Glyph {
    let index = slot % 256;
    Glyph {
        ch,
        metrics,
        page: (slot / 256) as i32,
        index: index as u32,
        u_min: (128 * (index % 16)) as u32,
        u_max: (128 * (index % 16) + 128) as u32,
        v_min: (128 * (index / 16)) as u32,
        v_max: (128 * (index / 16) + 128) as u32,
        grid_count: 1,
    }
}

/// The number of the cell that holds `g`.
pub open spec fn slot_of(g: Glyph) -> int {
    g.page * 256 + g.index
}

/// Where a tile of the side `side` starts inside its cell, so that it lies
/// in the middle: the padding is half of what the tile leaves, rounded up.
pub open spec fn centered(side: int) -> int {
    (129 - side) / 2
}

/// The byte of channel `c` of the texel `(x, y)`.
pub open spec fn texel(bytes: Seq<u8>, x: int, y: int, c: int) -> u8 {
    bytes[byte_index(2048, x, y, c)]
}

/// The byte of channel `c` of the texel `(x, y)` once the tile of a glyph
/// has been written into the cell `slot`: the tile's byte where the tile
/// lies, on the page of the cell, and the byte from before elsewhere.
pub open spec fn texel_after(
    before: Seq<u8>,
    bitmap: Seq<u8>,
    width: int,
    height: int,
    slot: int,
    x: int,
    y: int,
    c: int,
) -> u8 {
    let tile_width = padded(width, 16, 128);
    let tile_height = padded(height, 16, 128);
    let left = 128 * ((slot % 256) % 16) + centered(tile_width);
    let top = 128 * ((slot % 256) / 16) + centered(tile_height);
    if c == slot / 256 && left <= x < left + tile_width && top <= y < top + tile_height {
        tile_byte(bitmap, width, height, 16, 128, 24, 250, x - left, y - top)
    } else {
        texel(before, x, y, c)
    }
}

/// The cell that a new glyph gets: the next free one, or in a full atlas
/// the cell of the least recently used glyph.
pub open spec fn next_slot(entries: Seq<(char, Glyph)>) -> int {
    if entries.len() >= 1024 {
        slot_of(entries[0].1)
    } else {
        entries.len() as int
    }
}

/// The entries once a new glyph has come in: in a full atlas the least
/// recently used glyph has left.
pub open spec fn admitted(entries: Seq<(char, Glyph)>, ch: char, g: Glyph) -> Seq<(char, Glyph)> {
    if entries.len() >= 1024 {
        entries.drop_first().push((ch, g))
    } else {
        entries.push((ch, g))
    }
}

/// The cached glyphs once the glyph of `ch` has been asked for, and `g` has
/// come back: a cached glyph becomes the most recently used; a new one comes
/// in as the most recently used, and in a full atlas the least recently used
/// glyph leaves.
pub open spec fn fetch(entries: Seq<(char, Glyph)>, ch: char, g: Glyph) -> Seq<(char, Glyph)> {
    if find(entries, ch) >= 0 {
        touched(entries, ch)
    } else {
        admitted(entries, ch, g)
    }
}

/// The cached glyphs once the glyphs of `chars` have been asked for in turn,
/// and `glyphs` have come back.
pub open spec fn fetched(entries: Seq<(char, Glyph)>, chars: Seq<char>, glyphs: Seq<Glyph>) -> Seq<
    (char, Glyph),
>
    decreases chars.len(),
{
    if chars.len() == 0 {
        entries
    } else {
        fetch(fetched(entries, chars.drop_last(), glyphs.drop_last()), chars.last(), glyphs.last())
    }
}

/// How many of the characters `chars`, asked for in turn, were not cached
/// when their turn came.
pub open spec fn misses(entries: Seq<(char, Glyph)>, chars: Seq<char>, glyphs: Seq<Glyph>) -> nat
    decreases chars.len(),
{
    if chars.len() == 0 {
        0
    } else {
        misses(entries, chars.drop_last(), glyphs.drop_last()) + (if find(
            fetched(entries, chars.drop_last(), glyphs.drop_last()),
            chars.last(),
        ) >= 0 {
            0nat
        } else {
            1nat
        })
    }
}

/// The cached glyphs once `glyphs` have been asked for in turn, each by its
/// character.
pub open spec fn taken(entries: Seq<(char, Glyph)>, glyphs: Seq<Glyph>) -> Seq<(char, Glyph)>
    decreases glyphs.len(),
{
    if glyphs.len() == 0 {
        entries
    } else {
        fetch(taken(entries, glyphs.drop_last()), glyphs.last().ch, glyphs.last())
    }
}

/// How many of `glyphs`, asked for in turn, were not cached when their turn
/// came.
pub open spec fn written(entries: Seq<(char, Glyph)>, glyphs: Seq<Glyph>) -> nat
    decreases glyphs.len(),
{
    if glyphs.len() == 0 {
        0
    } else {
        written(entries, glyphs.drop_last()) + (if find(
            taken(entries, glyphs.drop_last()),
            glyphs.last().ch,
        ) >= 0 {
            0nat
        } else {
            1nat
        })
    }
}

/// The characters that one call of `preload` takes: the first
/// `PRELOAD_LIMIT` of the charset.
pub open spec fn preloaded(charset: Seq<char>) -> Seq<char> {
    if charset.len() <= PRELOAD_LIMIT {
        charset
    } else {
        charset.take(PRELOAD_LIMIT as int)
    }
}

/// The atlas with its font.
pub struct Huozi<E: GlyphExtractorTrait> {
    extractor: E,
    tiny_sdf: TinySDF,
    image: Texture,
    cache: lru::LruCache<char, Glyph>,
    next_grid_index: u32,
    image_version: u64,
}

/// An entry of the search for a key: where `find` points, the key stands;
/// where it points nowhere, no entry has the key.
pub proof fn lemma_find(entries: Seq<(char, Glyph)>, ch: char)
    ensures
        find(entries, ch) >= 0 ==> find(entries, ch) < entries.len() && entries[find(
            entries,
            ch,
        )].0 == ch,
        find(entries, ch) < 0 ==> forall|i: int| 0 <= i < entries.len() ==> (#[trigger] entries[i]).0
            != ch,
        find(entries, ch) >= -1,
    decreases entries.len(),
{
    if entries.len() > 0 && entries.last().0 != ch {
        lemma_find(entries.drop_last(), ch);
        assert forall|i: int| 0 <= i < entries.len() - 1 implies entries.drop_last()[i]
            == entries[i] by {}
        if find(entries, ch) < 0 {
            assert forall|i: int| 0 <= i < entries.len() implies (#[trigger] entries[i]).0
                != ch by {
                if i < entries.len() - 1 {
                    assert(entries.drop_last()[i] == entries[i]);
                }
            }
        }
    }
}

/// A key that no entry has is not found.
pub proof fn lemma_find_absent(entries: Seq<(char, Glyph)>, ch: char)
    requires
        forall|i: int| 0 <= i < entries.len() ==> (#[trigger] entries[i]).0 != ch,
    ensures
        find(entries, ch) < 0,
    decreases entries.len(),
{
    if entries.len() > 0 {
        assert(entries.last() == entries[entries.len() - 1]);
        assert forall|i: int| 0 <= i < entries.len() - 1 implies (
        #[trigger] entries.drop_last()[i]).0 != ch by {
            assert(entries.drop_last()[i] == entries[i]);
        }
        lemma_find_absent(entries.drop_last(), ch);
    }
}

/// Stability: the glyph that was asked for last is found again as it is,
/// and finding it changes nothing.
pub proof fn law_stability(entries: Seq<(char, Glyph)>, ch: char, g: Glyph)
    requires
        entries.len() > 0,
        entries.last() == (ch, g),
    ensures
        found(entries, ch) == Some(g),
        touched(entries, ch) == entries,
{
    assert(find(entries, ch) == entries.len() - 1);
    assert(entries.remove(entries.len() - 1).push(entries.last()) =~= entries);
}

/// Eviction: in a full atlas a new glyph gets the cell of the least
/// recently used glyph, which alone leaves; every other glyph stays as it
/// is, and the new glyph is the most recently used.
pub proof fn law_eviction(entries: Seq<(char, Glyph)>, ch: char, g: Glyph)
    requires
        entries_ok(entries, 1024),
        find(entries, ch) < 0,
    ensures
        next_slot(entries) == slot_of(entries[0].1),
        admitted(entries, ch, g).len() == 1024,
        admitted(entries, ch, g).last() == (ch, g),
        find(admitted(entries, ch, g), entries[0].0) < 0,
        forall|i: int| 1 <= i < 1024 ==> admitted(entries, ch, g)[i - 1] == #[trigger] entries[i],
{
    lemma_find(entries, ch);
    let now = admitted(entries, ch, g);
    assert(entries[0].0 != ch);
    assert forall|i: int| 0 <= i < now.len() implies (#[trigger] now[i]).0 != entries[0].0 by {
        if i < 1023 {
            assert(now[i] == entries[i + 1]);
        }
    }
    lemma_find_absent(now, entries[0].0);
}

/// Whether the entries are those of an atlas with `next` cells handed out.
pub open spec fn entries_ok(entries: Seq<(char, Glyph)>, next: int) -> bool {
    &&& entries.len() == next <= 1024
    &&& forall|i: int|
        0 <= i < entries.len() ==> {
            let e = #[trigger] entries[i];
            &&& e.1.ch == e.0
            &&& 0 <= slot_of(e.1) < next
            &&& 0 <= e.1.page < 4
            &&& e.1.index < 256
            &&& e.1 == glyph_at(e.0, e.1.metrics, slot_of(e.1))
        }
    &&& forall|i: int, j: int|
        0 <= i < j < entries.len() ==> (#[trigger] entries[i]).0 != (#[trigger] entries[j]).0
            && slot_of(entries[i].1) != slot_of(entries[j].1)
}

impl<E: GlyphExtractorTrait> Huozi<E> {
    /// The cached glyphs with their characters, from the least recently
    /// used to the most recently used.
    pub closed spec fn glyphs(&self) -> Seq<(char, Glyph)> {
        cache_entries(self.cache)
    }

    /// The bytes of the texture.
    pub closed spec fn texture(&self) -> Seq<u8> {
        texture_bytes(self.image)
    }

    /// How often the texture has been written.
    pub closed spec fn version(&self) -> u64 {
        self.image_version
    }

    /// Whether the atlas is sound: every cached glyph has a cell of its
    /// own, no character is cached twice, and cells are handed out in
    /// order.
    pub closed spec fn wf(&self) -> bool {
        &&& self.tiny_sdf.wf()
        &&& self.tiny_sdf.grid_size() == 128
        &&& self.tiny_sdf.buffer() == 16
        &&& self.tiny_sdf.radius() == 24
        &&& self.tiny_sdf.cutoff() == 250
        &&& texture_side(self.image) == 2048
        &&& texture_bytes(self.image).len() == 4 * 2048 * 2048
        &&& cache_capacity(self.cache) == 1024
        &&& entries_ok(cache_entries(self.cache), self.next_grid_index as int)
    }

    /// Every cached glyph has a cell of its own, which is the cell that its
    /// place says, and no character is cached twice.
    pub proof fn law_cells_are_not_shared(&self)
        requires
            self.wf(),
        ensures
            self.glyphs().len() <= 1024,
            self.texture().len() == 4 * 2048 * 2048,
            entries_ok(self.glyphs(), self.glyphs().len() as int),
    {
    }

    /// An empty atlas for the font in `font_data`.
    pub fn new(font_data: Vec<u8>) -> (r: Self)
        ensures
            r.wf(),
            r.glyphs().len() == 0,
            r.version() == 0,
            forall|i: int| 0 <= i < r.texture().len() ==> r.texture()[i] == 0,
    {
        let extractor = E::new(font_data, FONT_SIZE as i32 * UNIT);
        let tiny_sdf = TinySDF::new(GRID_SIZE, BUFFER, RADIUS, CUTOFF);
        let image = Texture::blank(TEXTURE_SIZE);
        let cache = cache_new(SLOTS as usize);
        Huozi { extractor, tiny_sdf, image, cache, next_grid_index: 0, image_version: 0 }
    }

    /// How often the texture has been written.
    pub fn image_version(&self) -> (r: u64)
        ensures
            r == self.version(),
    {
        self.image_version
    }

    /// The bytes of the texture: for each texel, row by row, its four
    /// channels.
    pub fn texture_image(&self) -> (r: &Vec<u8>)
        ensures
            r@ == self.texture(),
    {
        self.image.as_raw()
    }

    /// Writes a tile into the cell `slot`, in the middle of it.
    fn write_tile(
        &mut self,
        tile: &Vec<u8>,
        width: u32,
        height: u32,
        slot: u32,
        Ghost(bitmap): Ghost<Seq<u8>>,
        Ghost(glyph_width): Ghost<int>,
        Ghost(glyph_height): Ghost<int>,
    )
        requires
            texture_side(old(self).image) == 2048,
            texture_bytes(old(self).image).len() == 4 * 2048 * 2048,
            slot < 1024,
            width == padded(glyph_width, 16, 128),
            height == padded(glyph_height, 16, 128),
            width <= 128,
            height <= 128,
            tile.len() == width * height,
            forall|x: int, y: int|
                0 <= x < width && 0 <= y < height ==> tile[#[trigger] at(width as int, x, y)]
                    == tile_byte(bitmap, glyph_width, glyph_height, 16, 128, 24, 250, x, y),
        ensures
            final(self).tiny_sdf == old(self).tiny_sdf,
            final(self).cache == old(self).cache,
            final(self).next_grid_index == old(self).next_grid_index,
            final(self).image_version == old(self).image_version,
            texture_side(final(self).image) == 2048,
            texture_bytes(final(self).image).len() == 4 * 2048 * 2048,
            forall|x: int, y: int, c: int|
                0 <= x < 2048 && 0 <= y < 2048 && 0 <= c < 4 ==> #[trigger] texel(
                    texture_bytes(final(self).image),
                    x,
                    y,
                    c,
                ) == texel_after(
                    texture_bytes(old(self).image),
                    bitmap,
                    glyph_width,
                    glyph_height,
                    slot as int,
                    x,
                    y,
                    c,
                ),
    {
        let page: usize = (slot / SLOTS_PER_PAGE) as usize;
        let index: u32 = slot % SLOTS_PER_PAGE;
        let left: u32 = GRID_SIZE * (index % CELLS_PER_ROW) + (129 - width) / 2;
        let top: u32 = GRID_SIZE * (index / CELLS_PER_ROW) + (129 - height) / 2;
        let ghost before = texture_bytes(self.image);
        let mut ty: u32 = 0;
        while ty < height
            invariant
                0 <= ty <= height <= 128,
                width <= 128,
                page < 4,
                page == slot / 256,
                left == 128 * ((slot % 256) % 16) + centered(width as int),
                top == 128 * ((slot % 256) / 16) + centered(height as int),
                left + width <= 2048,
                top + height <= 2048,
                tile.len() == width * height,
                self.tiny_sdf == old(self).tiny_sdf,
                self.cache == old(self).cache,
                self.next_grid_index == old(self).next_grid_index,
                self.image_version == old(self).image_version,
                texture_side(self.image) == 2048,
                texture_bytes(self.image).len() == 4 * 2048 * 2048,
                forall|x: int, y: int, c: int|
                    0 <= x < 2048 && 0 <= y < 2048 && 0 <= c < 4 ==> #[trigger] texel(
                        texture_bytes(self.image),
                        x,
                        y,
                        c,
                    ) == (if c == page && left <= x < left + width && top <= y < top + ty {
                        tile[at(width as int, x - left, y - top)]
                    } else {
                        texel(before, x, y, c)
                    }),
            decreases height - ty,
        {
            let mut tx: u32 = 0;
            while tx < width
                invariant
                    0 <= tx <= width <= 128,
                    0 <= ty < height <= 128,
                    page < 4,
                    left + width <= 2048,
                    top + height <= 2048,
                    tile.len() == width * height,
                    self.tiny_sdf == old(self).tiny_sdf,
                    self.cache == old(self).cache,
                    self.next_grid_index == old(self).next_grid_index,
                    self.image_version == old(self).image_version,
                    texture_side(self.image) == 2048,
                    texture_bytes(self.image).len() == 4 * 2048 * 2048,
                    forall|x: int, y: int, c: int|
                        0 <= x < 2048 && 0 <= y < 2048 && 0 <= c < 4 ==> #[trigger] texel(
                            texture_bytes(self.image),
                            x,
                            y,
                            c,
                        ) == (if c == page && left <= x < left + width && (top <= y < top + ty || (y
                            == top + ty && x < left + tx)) {
                            tile[at(width as int, x - left, y - top)]
                        } else {
                            texel(before, x, y, c)
                        }),
                decreases width - tx,
            {
                proof {
                    lemma_at_bound(width as int, height as int, tx as int, ty as int);
                    assert(0 <= ty * width <= 128 * 128) by (nonlinear_arith)
                        requires
                            0 <= ty < 128,
                            0 <= width <= 128,
                    ;
                }
                let value = tile[ty as usize * width as usize + tx as usize];
                let ghost held = texture_bytes(self.image);
                self.image.put(left + tx, top + ty, page, value);
                proof {
                    let spot = byte_index(2048, left + tx, top + ty, page as int);
                    assert forall|x: int, y: int, c: int|
                        0 <= x < 2048 && 0 <= y < 2048 && 0 <= c < 4 && !(x == left + tx && y == top
                            + ty && c == page) implies #[trigger] texel(
                        texture_bytes(self.image),
                        x,
                        y,
                        c,
                    ) == texel(held, x, y, c) by {
                        assert(byte_index(2048, x, y, c) != spot);
                    }
                    assert(texel(texture_bytes(self.image), left + tx, top + ty, page as int)
                        == value);
                }
                tx = tx + 1;
            }
            ty = ty + 1;
        }
    }

    /// What putting a glyph of `ch` into the atlas `before` gives, when the
    /// font hands out `bitmap` and `metrics` for it: the glyph `g` in the
    /// next cell, as the most recently used one, its tile in the texture,
    /// and one more write counted.
    pub open spec fn inserted(
        before: &Self,
        ch: char,
        bitmap: Seq<u8>,
        metrics: GlyphMetrics,
        after: &Self,
        g: Glyph,
    ) -> bool {
        &&& g == glyph_at(ch, metrics, next_slot(before.glyphs()))
        &&& after.glyphs() == admitted(before.glyphs(), ch, g)
        &&& after.version() == before.version() + 1
        &&& after.texture().len() == before.texture().len()
        &&& forall|x: int, y: int, c: int|
            0 <= x < 2048 && 0 <= y < 2048 && 0 <= c < 4 ==> #[trigger] texel(
                after.texture(),
                x,
                y,
                c,
            ) == texel_after(
                before.texture(),
                bitmap,
                metrics.width as int,
                metrics.height as int,
                next_slot(before.glyphs()),
                x,
                y,
                c,
            )
    }

    /// Puts the glyph of a character that is not cached into the atlas:
    /// makes its tile from `bitmap`, gives it the next cell, or the cell of
    /// the least recently used glyph where none is free, and writes the tile
    /// into the page of that cell.
    pub fn insert_glyph(&mut self, ch: char, bitmap: &Vec<u8>, metrics: GlyphMetrics) -> (g: Glyph)
        requires
            old(self).wf(),
            old(self).version() < u64::MAX,
            find(old(self).glyphs(), ch) < 0,
        ensures
            final(self).wf(),
            Self::inserted(old(self), ch, bitmap@, metrics, final(self), g),
    {
        let ghost entries = cache_entries(self.cache);
        proof {
            lemma_find(entries, ch);
        }
        let (tile, width, height) = self.tiny_sdf.calculate(bitmap, metrics.width, metrics.height);
        let blank = Glyph {
            ch,
            metrics,
            page: 0,
            index: 0,
            u_min: 0,
            u_max: 0,
            v_min: 0,
            v_max: 0,
            grid_count: 1,
        };
        let slot: u32 = match cache_push(&mut self.cache, ch, blank) {
            Some((_, old_glyph)) => {
                assert(entries[0].1 == old_glyph);
                old_glyph.page as u32 * SLOTS_PER_PAGE + old_glyph.index
            },
            None => {
                let slot = self.next_grid_index;
                self.next_grid_index = self.next_grid_index + 1;
                slot
            },
        };
        assert(slot == next_slot(entries));
        self.write_tile(
            &tile,
            width,
            height,
            slot,
            Ghost(bitmap@),
            Ghost(metrics.width as int),
            Ghost(metrics.height as int),
        );
        let index = slot % SLOTS_PER_PAGE;
        let grid_x = GRID_SIZE * (index % CELLS_PER_ROW);
        let grid_y = GRID_SIZE * (index / CELLS_PER_ROW);
        let glyph = Glyph {
            ch,
            metrics,
            page: (slot / SLOTS_PER_PAGE) as i32,
            index,
            u_min: grid_x,
            u_max: grid_x + GRID_SIZE,
            v_min: grid_y,
            v_max: grid_y + GRID_SIZE,
            grid_count: 1,
        };
        let ghost pushed = cache_entries(self.cache);
        proof {
            let base = if entries.len() >= 1024 {
                entries.drop_first()
            } else {
                entries
            };
            assert(pushed == base.push((ch, blank)));
            assert(find(pushed, ch) == pushed.len() - 1);
        }
        cache_push(&mut self.cache, ch, glyph);
        self.image_version = self.image_version + 1;
        proof {
            let base = if entries.len() >= 1024 {
                entries.drop_first()
            } else {
                entries
            };
            assert(pushed == base.push((ch, blank)));
            assert(find(pushed, ch) == pushed.len() - 1);
            assert(pushed.remove(pushed.len() - 1) =~= base);
            let now = cache_entries(self.cache);
            assert(now == base.push((ch, glyph)));
            assert(now == admitted(entries, ch, glyph));
            assert(slot_of(glyph) == slot);
            assert(glyph == glyph_at(ch, metrics, slot as int));
            assert forall|i: int| 0 <= i < base.len() implies #[trigger] base[i] == entries[if entries.len()
                >= 1024 {
                i + 1
            } else {
                i
            }] by {}
            assert forall|i: int| 0 <= i < now.len() implies {
                let e = #[trigger] now[i];
                &&& e.1.ch == e.0
                &&& 0 <= slot_of(e.1) < self.next_grid_index
                &&& 0 <= e.1.page < 4
                &&& e.1.index < 256
                &&& e.1 == glyph_at(e.0, e.1.metrics, slot_of(e.1))
            } by {
                if i < base.len() {
                    assert(now[i] == base[i]);
                    let k = if entries.len() >= 1024 {
                        i + 1
                    } else {
                        i
                    };
                    assert(base[i] == entries[k]);
                }
            }
            assert forall|i: int, j: int| 0 <= i < j < now.len() implies (#[trigger] now[i]).0 != (
            #[trigger] now[j]).0 && slot_of(now[i].1) != slot_of(now[j].1) by {
                let ki = if entries.len() >= 1024 {
                    i + 1
                } else {
                    i
                };
                let kj = if entries.len() >= 1024 {
                    j + 1
                } else {
                    j
                };
                assert(now[i] == entries[ki]);
                if j < base.len() {
                    assert(now[j] == entries[kj]);
                } else {
                    assert(now[j] == (ch, glyph));
                    if entries.len() >= 1024 {
                        assert(slot_of(entries[0].1) != slot_of(entries[ki].1));
                    }
                }
            }
        }
        glyph
    }

    /// The glyph of `ch`, which becomes the most recently used. A glyph that
    /// is not cached is taken from the font and put into the atlas.
    pub fn get_glyph(&mut self, ch: char) -> (g: Glyph)
        requires
            old(self).wf(),
            old(self).version() < u64::MAX,
        ensures
            final(self).wf(),
            g.ch == ch,
            final(self).version() >= old(self).version(),
            final(self).glyphs() == fetch(old(self).glyphs(), ch, g),
            final(self).version() == old(self).version() + (if find(old(self).glyphs(), ch) >= 0 {
                0int
            } else {
                1int
            }),
            final(self).glyphs().len() > 0,
            final(self).glyphs().last() == (ch, g),
            found(old(self).glyphs(), ch) matches Some(cached) ==> {
                &&& g == cached
                &&& final(self).glyphs() == touched(old(self).glyphs(), ch)
                &&& final(self).version() == old(self).version()
                &&& final(self).texture() == old(self).texture()
            },
            found(old(self).glyphs(), ch) is None ==> exists|bitmap: Seq<u8>, metrics: GlyphMetrics|
                Self::inserted(old(self), ch, bitmap, metrics, final(self), g),
    {
        proof {
            lemma_find(cache_entries(self.cache), ch);
        }
        if cache_contains(&self.cache, ch) {
            let ghost entries = cache_entries(self.cache);
            let g = cache_get(&mut self.cache, ch).unwrap();
            proof {
                lemma_touched_ok(entries, ch, self.next_grid_index as int);
            }
            g
        } else {
            let (bitmap, metrics) = self.extractor.get_bitmap_and_metrics(ch);
            let g = self.insert_glyph(ch, &bitmap, metrics);
            assert(Self::inserted(old(self), ch, bitmap@, metrics, self, g));
            g
        }
    }

    /// Puts the glyphs of the first characters of `charset` into the atlas:
    /// of at most `PRELOAD_LIMIT` of them, each asked for in turn.
    pub fn preload(&mut self, charset: &str)
        requires
            old(self).wf(),
            old(self).version() <= u64::MAX - PRELOAD_LIMIT,
        ensures
            final(self).wf(),
            exists|glyphs: Seq<Glyph>|
                {
                    &&& glyphs.len() == preloaded(charset@).len()
                    &&& final(self).glyphs() == #[trigger] fetched(
                        old(self).glyphs(),
                        preloaded(charset@),
                        glyphs,
                    )
                    &&& final(self).version() == old(self).version() + misses(
                        old(self).glyphs(),
                        preloaded(charset@),
                        glyphs,
                    )
                },
            old(self).version() <= final(self).version() <= old(self).version() + PRELOAD_LIMIT,
    {
        let chars = characters(charset);
        let ghost wanted = preloaded(charset@);
        let ghost mut glyphs: Seq<Glyph> = Seq::empty();
        let mut i: usize = 0;
        while i < chars.len() && i < PRELOAD_LIMIT
            invariant
                0 <= i <= chars.len(),
                i <= PRELOAD_LIMIT,
                chars@ == charset@,
                wanted == preloaded(charset@),
                self.wf(),
                old(self).version() <= u64::MAX - PRELOAD_LIMIT,
                glyphs.len() == i,
                self.glyphs() == fetched(old(self).glyphs(), wanted.take(i as int), glyphs),
                self.version() == old(self).version() + misses(
                    old(self).glyphs(),
                    wanted.take(i as int),
                    glyphs,
                ),
                misses(old(self).glyphs(), wanted.take(i as int), glyphs) <= i,
            decreases chars.len() - i,
        {
            let ghost before = self.glyphs();
            let ghost held = glyphs;
            let ghost taken = wanted.take(i as int);
            let g = self.get_glyph(chars[i]);
            proof {
                glyphs = held.push(g);
                let more = wanted.take(i + 1);
                assert(more.drop_last() =~= taken);
                assert(glyphs.drop_last() =~= held);
                assert(more.last() == chars@[i as int]);
                assert(self.glyphs() == fetch(before, chars@[i as int], g));
            }
            i = i + 1;
        }
        proof {
            assert(wanted.take(i as int) =~= wanted);
        }
    }
}

/// Looking a cached glyph up leaves the atlas sound.
proof fn lemma_touched_ok(entries: Seq<(char, Glyph)>, ch: char, next: int)
    requires
        entries_ok(entries, next),
        find(entries, ch) >= 0,
    ensures
        entries_ok(touched(entries, ch), next),
        touched(entries, ch).len() > 0,
        touched(entries, ch).last() == entries[find(entries, ch)],
        entries[find(entries, ch)].0 == ch,
{
    lemma_find(entries, ch);
    let k = find(entries, ch);
    let now = touched(entries, ch);
    assert forall|i: int| 0 <= i < now.len() implies #[trigger] now[i] == entries[if i
        == now.len() - 1 {
        k
    } else if i < k {
        i
    } else {
        i + 1
    }] by {}
    assert forall|i: int, j: int| 0 <= i < j < now.len() implies (#[trigger] now[i]).0 != (
    #[trigger] now[j]).0 && slot_of(now[i].1) != slot_of(now[j].1) by {
        let ki = if i < k {
            i
        } else {
            i + 1
        };
        let kj = if j == now.len() - 1 {
            k
        } else if j < k {
            j
        } else {
            j + 1
        };
        assert(now[i] == entries[ki]);
        assert(now[j] == entries[kj]);
        if ki < kj {
            assert(entries[ki].0 != entries[kj].0);
        } else {
            assert(entries[kj].0 != entries[ki].0);
        }
    }
    assert forall|i: int| 0 <= i < now.len() implies {
        let e = #[trigger] now[i];
        &&& e.1.ch == e.0
        &&& 0 <= slot_of(e.1) < next
        &&& 0 <= e.1.page < 4
        &&& e.1.index < 256
        &&& e.1 == glyph_at(e.0, e.1.metrics, slot_of(e.1))
    } by {
        let ki = if i == now.len() - 1 {
            k
        } else if i < k {
            i
        } else {
            i + 1
        };
        assert(now[i] == entries[ki]);
    }
}

} // verus!
