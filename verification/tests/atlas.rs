use huozi::font_extractor::{FontHMetrics, GlyphExtractorTrait, GlyphMetrics};
use huozi::{Glyph, Huozi};

/// A font whose glyphs are full squares: the side of a glyph is the code of
/// its character modulo 8, plus 4.
struct Squares {
    font_size: i32,
}

fn side_of(ch: char) -> u32 {
    ch as u32 % 8 + 4
}

impl GlyphExtractorTrait for Squares {
    fn new(_font_data: Vec<u8>, font_size: i32) -> Self {
        Squares { font_size }
    }

    fn set_font_size(&mut self, font_size: i32) {
        self.font_size = font_size;
    }

    fn exist(&self, _ch: char) -> bool {
        true
    }

    fn get_glyph_metrics(&self, ch: char) -> GlyphMetrics {
        let side = side_of(ch);
        GlyphMetrics {
            width: side,
            height: side,
            h_advance: self.font_size / 2,
            v_advance: 0,
            x_min: 0,
            y_min: 0,
            x_max: side as i32 * 1000,
            y_max: side as i32 * 1000,
            x_scale: None,
            y_scale: None,
        }
    }

    fn font_metrics(&self) -> FontHMetrics {
        FontHMetrics { ascent: 88, descent: -24, line_gap: 0, line_height: 112, content_height: 112 }
    }

    fn get_bitmap_and_metrics(&self, ch: char) -> (Vec<u8>, GlyphMetrics) {
        let metrics = self.get_glyph_metrics(ch);
        let side = metrics.width as usize;
        let mut bitmap = vec![0u8; side * side];
        for y in 1..side - 1 {
            for x in 1..side - 1 {
                bitmap[y * side + x] = 255;
            }
        }
        (bitmap, metrics)
    }
}

fn atlas() -> Huozi<Squares> {
    Huozi::new(Vec::new())
}

fn letter(k: u32) -> char {
    char::from_u32(0x4e00 + k).unwrap()
}

#[test]
fn a_new_atlas_is_blank() {
    let huozi = atlas();
    assert_eq!(huozi.image_version(), 0);
    let texture = huozi.texture_image();
    assert_eq!(texture.len(), 2048 * 2048 * 4);
    assert!(texture.iter().all(|b| *b == 0));
}

#[test]
fn the_extractor_is_made_at_the_atlas_size() {
    let mut huozi = atlas();
    // The font above advances by half its size: 48 texels at 96 pixels.
    assert_eq!(huozi.get_glyph('a').metrics.h_advance, 48_000);
}

#[test]
fn glyphs_take_the_cells_in_order() {
    let mut huozi = atlas();
    for k in 0..40u32 {
        let glyph = huozi.get_glyph(letter(k));
        assert_eq!(glyph.ch, letter(k));
        assert_eq!(glyph.page, 0);
        assert_eq!(glyph.index, k);
        assert_eq!(glyph.u_min, 128 * (k % 16));
        assert_eq!(glyph.v_min, 128 * (k / 16));
        assert_eq!(glyph.u_max - glyph.u_min, 128);
        assert_eq!(glyph.v_max - glyph.v_min, 128);
        assert_eq!(glyph.grid_count, 1);
    }
}

#[test]
fn the_pages_follow_each_other() {
    let mut huozi = atlas();
    let mut last = None;
    for k in 0..600u32 {
        last = Some(huozi.get_glyph(letter(k)));
    }
    let glyph: Glyph = last.unwrap();
    assert_eq!(glyph.page, 2);
    assert_eq!(glyph.index, 599 - 512);
    assert_eq!(glyph.u_min, 128 * ((599 - 512) % 16));
    assert_eq!(glyph.v_min, 128 * ((599 - 512) / 16));
}

#[test]
fn get_glyph_twice_gives_the_same_glyph() {
    let mut huozi = atlas();
    huozi.get_glyph('x');
    let first = huozi.get_glyph('y');
    let version = huozi.image_version();
    let second = huozi.get_glyph('y');
    assert_eq!(first, second);
    assert_eq!(huozi.image_version(), version);
}

#[test]
fn the_version_counts_the_writes() {
    let mut huozi = atlas();
    assert_eq!(huozi.image_version(), 0);
    huozi.get_glyph('a');
    assert_eq!(huozi.image_version(), 1);
    huozi.get_glyph('b');
    assert_eq!(huozi.image_version(), 2);
    huozi.get_glyph('a');
    assert_eq!(huozi.image_version(), 2);
}

#[test]
fn a_full_atlas_gives_the_cell_of_the_least_recently_used_glyph() {
    let mut huozi = atlas();
    let mut held = Vec::new();
    for k in 0..1024u32 {
        held.push(huozi.get_glyph(letter(k)));
    }
    assert_eq!(huozi.image_version(), 1024);
    // The first glyph is used again, so the second is the one to leave.
    assert_eq!(huozi.get_glyph(letter(0)), held[0]);
    let newcomer = huozi.get_glyph(letter(5000));
    assert_eq!(huozi.image_version(), 1025);
    assert_eq!((newcomer.page, newcomer.index), (held[1].page, held[1].index));
    assert_eq!((newcomer.u_min, newcomer.v_min), (held[1].u_min, held[1].v_min));
    // Every other glyph still holds its cell, and asking for it writes nothing.
    for k in (0..1024u32).filter(|k| *k != 1) {
        assert_eq!(huozi.get_glyph(letter(k)), held[k as usize]);
    }
    assert_eq!(huozi.image_version(), 1025);
    // The glyph that left comes back into the cell of the glyph used longest
    // ago, which by now is the newcomer.
    let back = huozi.get_glyph(letter(1));
    assert_eq!(huozi.image_version(), 1026);
    assert_eq!((back.page, back.index), (newcomer.page, newcomer.index));
}

#[test]
fn a_tile_lies_in_the_middle_of_its_cell_on_its_page() {
    let mut huozi = atlas();
    for k in 0..256u32 {
        huozi.get_glyph(letter(k));
    }
    // The next glyph gets the first cell of the second page.
    let ch = letter(300);
    let glyph = huozi.get_glyph(ch);
    assert_eq!((glyph.page, glyph.index), (1, 0));
    let side = side_of(ch) + 32;
    let start = (129 - side) / 2;
    let texture = huozi.texture_image();
    let texel = |x: u32, y: u32, c: usize| texture[4 * (y as usize * 2048 + x as usize) + c];
    // The glyph is a full square of 6 pixels with an empty rim; its middle
    // lies three texels inside: 255 * (1 - (-3 / 24 + 0.25)) = 223.125.
    let middle = start + side / 2;
    assert_eq!(texel(middle, middle, 1), 223);
    // The first texel of the tile is far outside, the texel before it is
    // not written.
    assert_eq!(texel(start, start, 1), 0);
    assert_eq!(texel(start + 16, middle, 1), 181);
    assert_eq!(texel(start + 17, middle, 1), 202);
    // The other pages hold the glyphs of their own cells.
    assert_eq!(texel(start + 17, middle, 2), 0);
    assert_eq!(texel(start + 17, middle, 3), 0);
}

#[test]
fn tiles_of_neighbours_do_not_touch() {
    let mut huozi = atlas();
    let a = huozi.get_glyph(letter(0));
    let b = huozi.get_glyph(letter(1));
    assert_eq!(a.u_max, b.u_min);
    let texture = huozi.texture_image();
    let texel = |x: u32, y: u32| texture[4 * (y as usize * 2048 + x as usize)];
    let side_a = side_of(letter(0)) + 32;
    let start_a = (129 - side_a) / 2;
    // The last column that the first tile takes, and the first behind it.
    assert_eq!(texel(start_a + side_a - 1 - 16, 64), 181);
    for x in start_a + side_a..128 {
        assert_eq!(texel(x, 64), 0);
    }
}

#[test]
fn preload_takes_the_characters_in_order() {
    let mut huozi = atlas();
    huozi.preload("abca");
    assert_eq!(huozi.image_version(), 3);
    assert_eq!(huozi.get_glyph('a').index, 0);
    assert_eq!(huozi.get_glyph('b').index, 1);
    assert_eq!(huozi.get_glyph('c').index, 2);
    assert_eq!(huozi.image_version(), 3);
}

#[test]
fn preload_stops_at_its_limit() {
    let mut huozi = atlas();
    let charset: String = (0..5000u32).map(letter).collect();
    huozi.preload(&charset);
    assert_eq!(huozi.image_version(), 4096);
    // The last characters taken are cached, those behind the limit are not.
    let version = huozi.image_version();
    huozi.get_glyph(letter(4095));
    assert_eq!(huozi.image_version(), version);
    huozi.get_glyph(letter(4096));
    assert_eq!(huozi.image_version(), version + 1);
}
