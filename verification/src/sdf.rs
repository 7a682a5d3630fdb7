//! Distance fields: the squared Euclidean distance transform of Felzenszwalb
//! and Huttenlocher, and the tile of distance bytes made with it.
//!
//! An alpha bitmap is turned into two grids of squared distances, one to the
//! nearest covered texel and one to the nearest uncovered texel. Both are
//! transformed, and each texel of the tile gets the byte
//! `round(255 * (1 - (d / radius + cutoff)))`, kept between 0 and 255, where
//! `d` is the root of the outer squared distance minus the root of the
//! inner one, in texels.

pub mod envelope;
pub mod field;
pub mod hull;
pub mod sweep;
pub mod root;

use envelope::{in_range, INF, MAX_LINE, UNIT_SQ};
use field::{
    after_columns, at, cells, cells_in_range, column_of, inside, lemma_at, lemma_at_apart,
    lemma_at_bound, lemma_lines_in_range, lemma_transformed_agrees, row, transformed,
};
use hull::Ratio;
use sweep::{edt1d, on_line, samples, spot};
use root::{ceil_root, ceil_sqrt, floor_root, floor_sqrt, ROOT_LIMIT};
use vstd::prelude::*;

verus! {

/// The squared Euclidean distance transform of a rectangle of a grid, in
/// place: of the `width` columns from `x0` on and the `height` rows from
/// `y0` on, in a grid whose rows are `grid_size` cells long.
///
/// Each column of the rectangle is transformed, then each row. A cell that
/// holds zero is a site, a cell that holds `INF` is none, and a cell may hold
/// the squared distance to a site that lies inside it.
pub fn edt(
    data: &mut Vec<i128>,
    x0: u32,
    y0: u32,
    width: u32,
    height: u32,
    grid_size: u32,
    f: &mut Vec<i128>,
    v: &mut Vec<usize>,
    z: &mut Vec<Ratio>,
)
    requires
        grid_size >= 1,
        x0 + width <= grid_size,
        (y0 + height) * grid_size <= old(data).len(),
        width < MAX_LINE,
        height < MAX_LINE,
        old(f).len() >= width,
        old(f).len() >= height,
        old(v).len() >= width,
        old(v).len() >= height,
        old(z).len() > width,
        old(z).len() > height,
        cells_in_range(
            cells(old(data)@, grid_size as int),
            x0 as int,
            y0 as int,
            width as int,
            height as int,
        ),
    ensures
        final(data).len() == old(data).len(),
        final(f).len() == old(f).len(),
        final(v).len() == old(v).len(),
        final(z).len() == old(z).len(),
        forall|x: int, y: int|
            inside(x0 as int, y0 as int, width as int, height as int, x, y) ==> final(data)[#[trigger] at(
                grid_size as int,
                x,
                y,
            )] == transformed(
                cells(old(data)@, grid_size as int),
                x0 as int,
                y0 as int,
                width as int,
                height as int,
                x,
                y,
            ),
        forall|x: int, y: int|
            0 <= x < grid_size && 0 <= y && at(grid_size as int, x, y) < old(data).len() && !inside(
                x0 as int,
                y0 as int,
                width as int,
                height as int,
                x,
                y,
            ) ==> final(data)[#[trigger] at(grid_size as int, x, y)] == old(data)[at(
                grid_size as int,
                x,
                y,
            )],
{
    if width == 0 || height == 0 {
        return;
    }
    let ghost c = cells(data@, grid_size as int);
    let ghost gs = grid_size as int;
    let ghost w = width as int;
    let ghost h = height as int;
    let stride: usize = grid_size as usize;
    proof {
        assert((y0 + height) * grid_size >= 0);
        assert forall|a: int, b: int| 0 <= a < gs && 0 <= b < y0 + h implies 0 <= #[trigger] at(
            gs,
            a,
            b,
        ) < data.len() by {
            lemma_at_bound(gs, y0 + h, a, b);
        }
    }
    let mut x: u32 = x0;
    while x < x0 + width
        invariant
            x0 <= x <= x0 + width <= grid_size,
            gs == grid_size,
            w == width,
            h == height,
            1 <= h < MAX_LINE,
            stride == grid_size,
            stride >= 1,
            c == cells(old(data)@, gs),
            cells_in_range(c, x0 as int, y0 as int, w, h),
            data.len() == old(data).len(),
            f.len() == old(f).len() >= height,
            v.len() == old(v).len() >= height,
            z.len() == old(z).len() > height,
            forall|a: int, b: int|
                0 <= a < gs && 0 <= b < y0 + h ==> 0 <= #[trigger] at(gs, a, b) < data.len(),
            forall|a: int, b: int|
                inside(x0 as int, y0 as int, x - x0, h, a, b) ==> data[#[trigger] at(gs, a, b)]
                    == after_columns(c, y0 as int, h, a, b),
            forall|a: int, b: int|
                0 <= a < gs && 0 <= b && at(gs, a, b) < data.len() && !inside(
                    x0 as int,
                    y0 as int,
                    x - x0,
                    h,
                    a,
                    b,
                ) ==> data[#[trigger] at(gs, a, b)] == old(data)[at(gs, a, b)],
        decreases x0 + width - x,
    {
        let ghost before = data@;
        let ghost offset = at(gs, x as int, y0 as int);
        proof {
            assert(0 <= at(gs, x as int, y0 as int) < data.len());
            assert forall|t: int| 0 <= t < h implies #[trigger] spot(offset, gs, t) == at(
                gs,
                x as int,
                y0 + t,
            ) by {
                lemma_at(gs, x as int, y0 as int, t);
            }
            assert(0 <= at(gs, x as int, y0 + h - 1) < data.len());
            assert forall|t: int| 0 <= t < h implies #[trigger] samples(before, offset, gs, h)[t]
                == column_of(c, x as int, y0 as int, h)[t] by {
                assert(spot(offset, gs, t) == at(gs, x as int, y0 + t));
                assert(!inside(x0 as int, y0 as int, x - x0, h, x as int, y0 + t));
            }
            assert(samples(before, offset, gs, h) =~= column_of(c, x as int, y0 as int, h));
            lemma_lines_in_range(c, x0 as int, y0 as int, w, h, x as int, y0 as int);
            assert((y0 as int) * gs == (y0 as usize) * stride) by (nonlinear_arith)
                requires
                    gs == stride,
            ;
        }
        edt1d(data, y0 as usize * stride + x as usize, stride, height as usize, f, v, z);
        proof {
            assert forall|a: int, b: int|
                inside(x0 as int, y0 as int, x + 1 - x0, h, a, b) implies data[#[trigger] at(
                gs,
                a,
                b,
            )] == after_columns(c, y0 as int, h, a, b) by {
                if a == x {
                    assert(spot(offset, gs, b - y0) == at(gs, a, b));
                } else {
                    assert(inside(x0 as int, y0 as int, x - x0, h, a, b));
                    assert forall|t: int| 0 <= t < h implies at(gs, a, b) != #[trigger] spot(
                        offset,
                        gs,
                        t,
                    ) by {
                        if at(gs, a, b) == spot(offset, gs, t) {
                            lemma_at_apart(gs, a, b, x as int, y0 + t);
                        }
                    }
                    assert(!on_line(at(gs, a, b), offset, gs, h));
                }
            }
            assert forall|a: int, b: int|
                0 <= a < gs && 0 <= b && at(gs, a, b) < data.len() && !inside(
                    x0 as int,
                    y0 as int,
                    x + 1 - x0,
                    h,
                    a,
                    b,
                ) implies data[#[trigger] at(gs, a, b)] == old(data)[at(gs, a, b)] by {
                assert(!inside(x0 as int, y0 as int, x - x0, h, a, b));
                assert forall|t: int| 0 <= t < h implies at(gs, a, b) != #[trigger] spot(
                    offset,
                    gs,
                    t,
                ) by {
                    if at(gs, a, b) == spot(offset, gs, t) {
                        lemma_at_apart(gs, a, b, x as int, y0 + t);
                    }
                }
                assert(!on_line(at(gs, a, b), offset, gs, h));
                assert(at(gs, a, b) >= 0) by (nonlinear_arith)
                    requires
                        a >= 0,
                        b >= 0,
                        gs >= 1,
                        at(gs, a, b) == b * gs + a,
                ;
            }
        }
        x = x + 1;
    }
    assert(y0 + height <= (y0 + height) * grid_size) by (nonlinear_arith)
        requires
            grid_size >= 1,
            y0 + height >= 0,
    ;
    let rows: usize = y0 as usize + height as usize;
    let mut y: usize = y0 as usize;
    while y < rows
        invariant
            y0 <= y <= y0 + height == rows,
            x0 + width <= grid_size,
            gs == grid_size,
            w == width,
            h == height,
            1 <= w < MAX_LINE,
            stride == grid_size,
            stride >= 1,
            c == cells(old(data)@, gs),
            cells_in_range(c, x0 as int, y0 as int, w, h),
            data.len() == old(data).len(),
            f.len() == old(f).len() >= width,
            v.len() == old(v).len() >= width,
            z.len() == old(z).len() > width,
            forall|a: int, b: int|
                0 <= a < gs && 0 <= b < y0 + h ==> 0 <= #[trigger] at(gs, a, b) < data.len(),
            forall|a: int, b: int|
                inside(x0 as int, y0 as int, w, y - y0, a, b) ==> data[#[trigger] at(gs, a, b)]
                    == transformed(c, x0 as int, y0 as int, w, h, a, b),
            forall|a: int, b: int|
                inside(x0 as int, y0 as int, w, h, a, b) && b >= y ==> data[#[trigger] at(gs, a, b)]
                    == after_columns(c, y0 as int, h, a, b),
            forall|a: int, b: int|
                0 <= a < gs && 0 <= b && at(gs, a, b) < data.len() && !inside(
                    x0 as int,
                    y0 as int,
                    w,
                    h,
                    a,
                    b,
                ) ==> data[#[trigger] at(gs, a, b)] == old(data)[at(gs, a, b)],
        decreases rows - y,
    {
        let ghost before = data@;
        let ghost offset = at(gs, x0 as int, y as int);
        proof {
            assert(0 <= at(gs, x0 as int, y as int) < data.len());
            assert forall|t: int| 0 <= t < w implies #[trigger] spot(offset, 1, t) == at(
                gs,
                x0 + t,
                y as int,
            ) by {
                lemma_at(gs, x0 as int, y as int, t);
            }
            assert(0 <= at(gs, x0 + w - 1, y as int) < data.len());
            assert forall|t: int| 0 <= t < w implies #[trigger] samples(before, offset, 1, w)[t]
                == row(c, x0 as int, y0 as int, w, h, y as int)[t] by {
                assert(spot(offset, 1, t) == at(gs, x0 + t, y as int));
                assert(inside(x0 as int, y0 as int, w, h, x0 + t, y as int));
                lemma_lines_in_range(c, x0 as int, y0 as int, w, h, x0 + t, y as int);
            }
            assert(samples(before, offset, 1, w) =~= row(c, x0 as int, y0 as int, w, h, y as int));
            lemma_lines_in_range(c, x0 as int, y0 as int, w, h, x0 as int, y as int);
            assert(at(gs, x0 as int, y as int) == y * stride + x0);
        }
        edt1d(data, y * stride + x0 as usize, 1, width as usize, f, v, z);
        proof {
            assert forall|a: int, b: int|
                0 <= a < gs && 0 <= b && at(gs, a, b) < data.len() && !(b == y && x0 <= a < x0
                    + w) implies data[#[trigger] at(gs, a, b)] == before[at(gs, a, b)] by {
                assert forall|t: int| 0 <= t < w implies at(gs, a, b) != #[trigger] spot(
                    offset,
                    1,
                    t,
                ) by {
                    if at(gs, a, b) == spot(offset, 1, t) {
                        lemma_at_apart(gs, a, b, x0 + t, y as int);
                    }
                }
                assert(!on_line(at(gs, a, b), offset, 1, w));
                assert(at(gs, a, b) >= 0) by (nonlinear_arith)
                    requires
                        a >= 0,
                        b >= 0,
                        gs >= 1,
                        at(gs, a, b) == b * gs + a,
                ;
            }
            assert forall|a: int, b: int|
                inside(x0 as int, y0 as int, w, y + 1 - y0, a, b) implies data[#[trigger] at(
                gs,
                a,
                b,
            )] == transformed(c, x0 as int, y0 as int, w, h, a, b) by {
                if b == y {
                    assert(spot(offset, 1, a - x0) == at(gs, a, b));
                } else {
                    assert(inside(x0 as int, y0 as int, w, y - y0, a, b));
                }
            }
        }
        y = y + 1;
    }
}

/// The side of a tile: the side of the glyph with the padding on both ends,
/// cut to the side of a cell.
pub open spec fn padded(side: int, buffer: int, grid_size: int) -> int {
    if side + 2 * buffer < grid_size {
        side + 2 * buffer
    } else {
        grid_size
    }
}

/// How much of the glyph's side lies inside the tile.
pub open spec fn clipped(side: int, buffer: int, out: int) -> int {
    if buffer >= out {
        0
    } else if side < out - buffer {
        side
    } else {
        out - buffer
    }
}

/// The coverage of the glyph's pixel `(x, y)`; zero around the glyph, and
/// where the bitmap ends early.
pub open spec fn alpha_at(bitmap: Seq<u8>, width: int, height: int, x: int, y: int) -> int {
    if 0 <= x < width && 0 <= y < height && y * width + x < bitmap.len() {
        bitmap[y * width + x] as int
    } else {
        0
    }
}

/// The squared distance from a pixel of coverage `a` to the covered area:
/// none for an empty pixel, zero for a pixel at least half covered, else the
/// square of the distance `1/2 - a/255` to the edge inside the pixel.
pub open spec fn outer_seed(a: int) -> i128 {
    if a == 0 {
        INF
    } else if a < 128 {
        ((255 - 2 * a) * (255 - 2 * a)) as i128
    } else {
        0
    }
}

/// The squared distance from a pixel of coverage `a` to the uncovered area:
/// none for a full pixel, zero for a pixel less than half covered, else the
/// square of the distance `a/255 - 1/2` to the edge inside the pixel.
pub open spec fn inner_seed(a: int) -> i128 {
    if a == 255 {
        INF
    } else if a < 128 {
        0
    } else {
        ((2 * a - 255) * (2 * a - 255)) as i128
    }
}

/// The grid of seeds of a tile: the glyph's pixels, moved by the padding.
pub open spec fn seeds(bitmap: Seq<u8>, width: int, height: int, buffer: int, inner: bool) -> spec_fn(
    int,
    int,
) -> i128 {
    |x: int, y: int|
        if inner {
            inner_seed(alpha_at(bitmap, width, height, x - buffer, y - buffer))
        } else {
            outer_seed(alpha_at(bitmap, width, height, x - buffer, y - buffer))
        }
}

/// The byte for the squared distances `outer` and `inner`:
/// `round(255 * (1 - (d / radius + cutoff)))` kept between 0 and 255, for
/// `d` the root of `outer` minus the root of `inner`, in texels. One of the
/// two is zero at every texel of a tile; the root of the other is taken to
/// the whole number that decides the rounding.
pub open spec fn distance_byte(outer: int, inner: int, radius: int, cutoff: int) -> u8 {
    let level = (255_500 - 255 * cutoff) * radius + floor_sqrt(250_000 * inner) - ceil_sqrt(
        250_000 * outer,
    );
    if level < 0 {
        0
    } else if level / (1000 * radius) > 255 {
        255
    } else {
        (level / (1000 * radius)) as u8
    }
}

/// The outer squared distance at the texel `(x, y)` of a tile.
pub open spec fn outer_distance(
    bitmap: Seq<u8>,
    width: int,
    height: int,
    buffer: int,
    grid_size: int,
    x: int,
    y: int,
) -> int {
    transformed(
        seeds(bitmap, width, height, buffer, false),
        0,
        0,
        padded(width, buffer, grid_size),
        padded(height, buffer, grid_size),
        x,
        y,
    )
}

/// The inner squared distance at the texel `(x, y)` of a tile. The inner
/// grid is transformed on the glyph's own rectangle only.
pub open spec fn inner_distance(
    bitmap: Seq<u8>,
    width: int,
    height: int,
    buffer: int,
    grid_size: int,
    x: int,
    y: int,
) -> int {
    let w = clipped(width, buffer, padded(width, buffer, grid_size));
    let h = clipped(height, buffer, padded(height, buffer, grid_size));
    if inside(buffer, buffer, w, h, x, y) {
        transformed(seeds(bitmap, width, height, buffer, true), buffer, buffer, w, h, x, y)
    } else {
        seeds(bitmap, width, height, buffer, true)(x, y) as int
    }
}

/// The byte at the texel `(x, y)` of the tile of a glyph.
pub open spec fn tile_byte(
    bitmap: Seq<u8>,
    width: int,
    height: int,
    buffer: int,
    grid_size: int,
    radius: int,
    cutoff: int,
    x: int,
    y: int,
) -> u8 {
    distance_byte(
        outer_distance(bitmap, width, height, buffer, grid_size, x, y),
        inner_distance(bitmap, width, height, buffer, grid_size, x, y),
        radius,
        cutoff,
    )
}

/// The byte does not rise with the distance to the glyph, and does not fall
/// with the depth inside it.
pub proof fn law_byte_is_monotone(
    outer: int,
    farther: int,
    inner: int,
    deeper: int,
    radius: int,
    cutoff: int,
)
    requires
        0 <= outer <= farther,
        0 <= inner <= deeper,
        radius >= 1,
    ensures
        distance_byte(farther, inner, radius, cutoff) <= distance_byte(outer, inner, radius, cutoff),
        distance_byte(outer, inner, radius, cutoff) <= distance_byte(outer, deeper, radius, cutoff),
{
    root::lemma_roots_monotone(250_000 * outer, 250_000 * farther);
    root::lemma_roots_monotone(250_000 * inner, 250_000 * deeper);
    let base = (255_500 - 255 * cutoff) * radius;
    let step = 1000 * radius;
    let near = base + floor_sqrt(250_000 * inner) - ceil_sqrt(250_000 * outer);
    let far = base + floor_sqrt(250_000 * inner) - ceil_sqrt(250_000 * farther);
    let deep = base + floor_sqrt(250_000 * deeper) - ceil_sqrt(250_000 * outer);
    vstd::arithmetic::div_mod::lemma_div_is_ordered(far, near, step);
    vstd::arithmetic::div_mod::lemma_div_is_ordered(near, deep, step);
    if far >= 0 {
        vstd::arithmetic::div_mod::lemma_div_pos_is_pos(far, step);
    }
    if near >= 0 {
        vstd::arithmetic::div_mod::lemma_div_pos_is_pos(near, step);
    }
    if deep >= 0 {
        vstd::arithmetic::div_mod::lemma_div_pos_is_pos(deep, step);
    }
}

/// At every texel of a tile one of the two squared distances is zero: the
/// texel lies outside the glyph, or inside it.
pub proof fn law_one_side_is_zero(
    bitmap: Seq<u8>,
    width: int,
    height: int,
    buffer: int,
    grid_size: int,
    x: int,
    y: int,
)
    requires
        0 <= x < padded(width, buffer, grid_size),
        0 <= y < padded(height, buffer, grid_size),
    ensures
        outer_distance(bitmap, width, height, buffer, grid_size, x, y) == 0 || inner_distance(
            bitmap,
            width,
            height,
            buffer,
            grid_size,
            x,
            y,
        ) == 0,
        0 <= outer_distance(bitmap, width, height, buffer, grid_size, x, y) <= INF,
        0 <= inner_distance(bitmap, width, height, buffer, grid_size, x, y) <= INF,
{
    let ow = padded(width, buffer, grid_size);
    let oh = padded(height, buffer, grid_size);
    let iw = clipped(width, buffer, ow);
    let ih = clipped(height, buffer, oh);
    let outer = seeds(bitmap, width, height, buffer, false);
    let inner = seeds(bitmap, width, height, buffer, true);
    assert forall|a: int, b: int| inside(0, 0, ow, oh, a, b) implies 0 <= #[trigger] outer(a, b)
        <= INF by {
        lemma_seed_range(alpha_at(bitmap, width, height, a - buffer, b - buffer));
    }
    lemma_lines_in_range(outer, 0, 0, ow, oh, x, y);
    lemma_seed_range(alpha_at(bitmap, width, height, x - buffer, y - buffer));
    if inside(buffer, buffer, iw, ih, x, y) {
        assert forall|a: int, b: int| inside(buffer, buffer, iw, ih, a, b) implies 0
            <= #[trigger] inner(a, b) <= INF by {
            lemma_seed_range(alpha_at(bitmap, width, height, a - buffer, b - buffer));
        }
        lemma_lines_in_range(inner, buffer, buffer, iw, ih, x, y);
    }
}

/// The byte for two squared distances.
pub fn byte_of(outer: i128, inner: i128, radius: u32, cutoff: u32) -> (b: u8)
    requires
        0 <= outer <= INF,
        0 <= inner <= INF,
        radius >= 1,
        cutoff <= 1000,
    ensures
        b == distance_byte(outer as int, inner as int, radius as int, cutoff as int),
{
    let inside_root = floor_root((250_000 * inner) as u128);
    let outside_root = ceil_root((250_000 * outer) as u128);
    let share: i128 = 255_500 - 255 * (cutoff as i128);
    let reach: i128 = radius as i128;
    assert(0 <= share * reach <= 255_500 * 0x1_0000_0000) by (nonlinear_arith)
        requires
            0 <= share <= 255_500,
            0 <= reach <= 0x1_0000_0000,
    ;
    let base: i128 = share * reach;
    let level: i128 = base + inside_root as i128 - outside_root as i128;
    if level < 0 {
        return 0;
    }
    let step: i128 = 1000 * (radius as i128);
    let b = level / step;
    if b > 255 {
        255
    } else {
        b as u8
    }
}

/// Makes distance-field tiles from alpha bitmaps.
pub struct TinySDF {
    grid_outer: Vec<i128>,
    grid_inner: Vec<i128>,
    f: Vec<i128>,
    z: Vec<Ratio>,
    v: Vec<usize>,
    grid_size: u32,
    buffer: u32,
    radius: u32,
    cutoff: u32,
}

impl TinySDF {
    /// Side of the largest tile, in texels.
    pub closed spec fn grid_size(&self) -> u32 {
        self.grid_size
    }

    /// Padding around the glyph inside its tile, in texels.
    pub closed spec fn buffer(&self) -> u32 {
        self.buffer
    }

    /// Largest distance that a byte encodes, in texels.
    pub closed spec fn radius(&self) -> u32 {
        self.radius
    }

    /// Place of the glyph's contour inside the byte range, in thousandths.
    pub closed spec fn cutoff(&self) -> u32 {
        self.cutoff
    }

    /// Whether the grids and the scratch space have the sizes that the side
    /// asks for.
    pub closed spec fn wf(&self) -> bool {
        &&& 1 <= self.grid_size < MAX_LINE
        &&& self.radius >= 1
        &&& self.cutoff <= 1000
        &&& self.grid_outer.len() == self.grid_size * self.grid_size
        &&& self.grid_inner.len() == self.grid_size * self.grid_size
        &&& self.f.len() == self.grid_size
        &&& self.v.len() == self.grid_size
        &&& self.z.len() == self.grid_size + 1
    }

    /// A generator for tiles of up to `grid_size` texels a side.
    pub fn new(grid_size: u32, buffer: u32, radius: u32, cutoff: u32) -> (r: Self)
        requires
            1 <= grid_size < MAX_LINE,
            grid_size * grid_size <= usize::MAX,
            radius >= 1,
            cutoff <= 1000,
        ensures
            r.wf(),
            r.grid_size() == grid_size,
            r.buffer() == buffer,
            r.radius() == radius,
            r.cutoff() == cutoff,
    {
        let side = grid_size as usize;
        let count = side * side;
        TinySDF {
            grid_outer: vec![0i128; count],
            grid_inner: vec![0i128; count],
            f: vec![0i128; side],
            z: vec![Ratio { num: 0, den: 1 }; side + 1],
            v: vec![0usize; side],
            grid_size,
            buffer,
            radius,
            cutoff,
        }
    }

    /// The distance-field tile of a glyph: its bytes row by row, its width
    /// and its height.
    ///
    /// `bitmap` holds the coverage of the glyph's pixels row by row, 0 for
    /// an empty pixel up to 255 for a full one. The tile is the glyph with
    /// the padding around it, cut to the side of a cell.
    pub fn calculate(&mut self, bitmap: &Vec<u8>, glyph_width: u32, glyph_height: u32) -> (r: (
        Vec<u8>,
        u32,
        u32,
    ))
        requires
            old(self).wf(),
        ensures
            final(self).wf(),
            final(self).grid_size() == old(self).grid_size(),
            final(self).buffer() == old(self).buffer(),
            final(self).radius() == old(self).radius(),
            final(self).cutoff() == old(self).cutoff(),
            r.1 == padded(glyph_width as int, old(self).buffer() as int, old(self).grid_size() as int),
            r.2 == padded(
                glyph_height as int,
                old(self).buffer() as int,
                old(self).grid_size() as int,
            ),
            r.0.len() == r.1 * r.2,
            forall|x: int, y: int|
                0 <= x < r.1 && 0 <= y < r.2 ==> r.0[#[trigger] at(r.1 as int, x, y)] == tile_byte(
                    bitmap@,
                    glyph_width as int,
                    glyph_height as int,
                    old(self).buffer() as int,
                    old(self).grid_size() as int,
                    old(self).radius() as int,
                    old(self).cutoff() as int,
                    x,
                    y,
                ),
    {
        let grid_size = self.grid_size;
        let buffer = self.buffer;
        let width: u32 = pad(glyph_width, buffer, grid_size);
        let height: u32 = pad(glyph_height, buffer, grid_size);
        let ghost gw = glyph_width as int;
        let ghost gh = glyph_height as int;
        let ghost ow = width as int;
        let ghost oh = height as int;
        let ghost outer = seeds(bitmap@, gw, gh, buffer as int, false);
        let ghost inner = seeds(bitmap@, gw, gh, buffer as int, true);
        if width == 0 || height == 0 {
            assert(width * height == 0) by (nonlinear_arith)
                requires
                    width == 0 || height == 0,
            ;
            return (Vec::new(), width, height);
        }
        let count: usize = self.grid_outer.len();
        let mut i: usize = 0;
        while i < count
            invariant
                i <= count,
                self.grid_outer.len() == count,
                self.grid_inner.len() == count,
                forall|k: int| 0 <= k < i ==> self.grid_outer[k] == INF && self.grid_inner[k] == 0,
                self.grid_size == grid_size,
                self.buffer == buffer,
                self.radius == old(self).radius,
                self.cutoff == old(self).cutoff,
                self.f.len() == old(self).f.len(),
                self.v.len() == old(self).v.len(),
                self.z.len() == old(self).z.len(),
            decreases count - i,
        {
            self.grid_outer.set(i, INF);
            self.grid_inner.set(i, 0);
            i = i + 1;
        }
        proof {
            assert(oh * ow <= grid_size * grid_size) by (nonlinear_arith)
                requires
                    0 <= oh <= grid_size,
                    0 <= ow <= grid_size,
            ;
            assert forall|a: int, b: int| 0 <= a < ow && 0 <= b < oh implies 0 <= #[trigger] at(
                ow,
                a,
                b,
            ) < oh * ow by {
                lemma_at_bound(ow, oh, a, b);
            }
        }
        let stride: usize = width as usize;
        let mut ty: u32 = 0;
        while ty < height
            invariant
                0 <= ty <= height,
                ow == width,
                oh == height,
                stride == width,
                1 <= width <= grid_size,
                1 <= height <= grid_size,
                gw == glyph_width,
                gh == glyph_height,
                oh * ow <= count,
                self.grid_outer.len() == count,
                self.grid_inner.len() == count,
                outer == seeds(bitmap@, gw, gh, buffer as int, false),
                inner == seeds(bitmap@, gw, gh, buffer as int, true),
                forall|a: int, b: int|
                    0 <= a < ow && 0 <= b < oh ==> 0 <= #[trigger] at(ow, a, b) < oh * ow,
                forall|a: int, b: int|
                    0 <= a < ow && 0 <= b < ty ==> self.grid_outer[#[trigger] at(ow, a, b)]
                        == outer(a, b) && self.grid_inner[at(ow, a, b)] == inner(a, b),
                forall|a: int, b: int|
                    0 <= a < ow && ty <= b < oh ==> self.grid_outer[#[trigger] at(ow, a, b)] == INF
                        && self.grid_inner[at(ow, a, b)] == 0,
                self.grid_size == grid_size,
                self.buffer == buffer,
                self.radius == old(self).radius,
                self.cutoff == old(self).cutoff,
                self.f.len() == old(self).f.len(),
                self.v.len() == old(self).v.len(),
                self.z.len() == old(self).z.len(),
            decreases height - ty,
        {
            let mut tx: u32 = 0;
            while tx < width
                invariant
                    0 <= tx <= width,
                    0 <= ty < height,
                    ow == width,
                    oh == height,
                    stride == width,
                    1 <= width <= grid_size,
                    1 <= height <= grid_size,
                    gw == glyph_width,
                    gh == glyph_height,
                    oh * ow <= count,
                    self.grid_outer.len() == count,
                    self.grid_inner.len() == count,
                    outer == seeds(bitmap@, gw, gh, buffer as int, false),
                    inner == seeds(bitmap@, gw, gh, buffer as int, true),
                    forall|a: int, b: int|
                        0 <= a < ow && 0 <= b < oh ==> 0 <= #[trigger] at(ow, a, b) < oh * ow,
                    forall|a: int, b: int|
                        0 <= a < ow && (0 <= b < ty || (b == ty && a < tx))
                            ==> self.grid_outer[#[trigger] at(ow, a, b)] == outer(a, b)
                            && self.grid_inner[at(ow, a, b)] == inner(a, b),
                    forall|a: int, b: int|
                        0 <= a < ow && b < oh && (ty < b || (b == ty && a >= tx))
                            ==> self.grid_outer[#[trigger] at(ow, a, b)] == INF
                            && self.grid_inner[at(ow, a, b)] == 0,
                    self.grid_size == grid_size,
                    self.buffer == buffer,
                    self.radius == old(self).radius,
                    self.cutoff == old(self).cutoff,
                    self.f.len() == old(self).f.len(),
                    self.v.len() == old(self).v.len(),
                    self.z.len() == old(self).z.len(),
                decreases width - tx,
            {
                let a = coverage(bitmap, glyph_width, glyph_height, tx, ty, buffer);
                assert(0 <= at(ow, tx as int, ty as int) < oh * ow);
                assert(at(ow, tx as int, ty as int) == ty * stride + tx);
                let j: usize = ty as usize * stride + tx as usize;
                let ghost before_outer = self.grid_outer@;
                let ghost before_inner = self.grid_inner@;
                if a != 0 {
                    if a == 255 {
                        self.grid_outer.set(j, 0);
                        self.grid_inner.set(j, INF);
                    } else if a < 128 {
                        let d: i128 = 255 - 2 * (a as i128);
                        assert(0 <= d * d <= 255 * 255) by (nonlinear_arith)
                            requires
                                0 <= d <= 255,
                        ;
                        self.grid_outer.set(j, d * d);
                        self.grid_inner.set(j, 0);
                    } else {
                        let d: i128 = 2 * (a as i128) - 255;
                        assert(0 <= d * d <= 255 * 255) by (nonlinear_arith)
                            requires
                                0 <= d <= 255,
                        ;
                        self.grid_outer.set(j, 0);
                        self.grid_inner.set(j, d * d);
                    }
                }
                proof {
                    assert forall|p: int, q: int|
                        0 <= p < ow && 0 <= q < oh && !(p == tx && q == ty) implies #[trigger] at(
                        ow,
                        p,
                        q,
                    ) != j by {
                        if at(ow, p, q) == j {
                            lemma_at_apart(ow, p, q, tx as int, ty as int);
                        }
                    }
                }
                tx = tx + 1;
            }
            ty = ty + 1;
        }
        proof {
            assert forall|a: int, b: int| inside(0, 0, ow, oh, a, b) implies 0 <= #[trigger] cells(
                self.grid_outer@,
                ow,
            )(a, b) <= INF by {
                assert(self.grid_outer[at(ow, a, b)] == outer(a, b));
                lemma_seed_range(alpha_at(bitmap@, gw, gh, a - buffer, b - buffer));
            }
        }
        let ghost seeded_outer = self.grid_outer@;
        edt(&mut self.grid_outer, 0, 0, width, height, width, &mut self.f, &mut self.v, &mut self.z);
        let inner_width: u32 = clip(glyph_width, buffer, width);
        let inner_height: u32 = clip(glyph_height, buffer, height);
        let ghost iw = inner_width as int;
        let ghost ih = inner_height as int;
        proof {
            if iw > 0 && ih > 0 {
                assert((buffer + ih) * ow <= oh * ow) by (nonlinear_arith)
                    requires
                        0 <= buffer + ih <= oh,
                        ow >= 0,
                ;
                assert forall|a: int, b: int|
                    inside(buffer as int, buffer as int, iw, ih, a, b) implies 0 <= #[trigger] cells(
                    self.grid_inner@,
                    ow,
                )(a, b) <= INF by {
                    assert(self.grid_inner[at(ow, a, b)] == inner(a, b));
                    lemma_seed_range(alpha_at(bitmap@, gw, gh, a - buffer, b - buffer));
                }
            }
        }
        let ghost seeded_inner = self.grid_inner@;
        if inner_width > 0 && inner_height > 0 {
            edt(
                &mut self.grid_inner,
                buffer,
                buffer,
                inner_width,
                inner_height,
                width,
                &mut self.f,
                &mut self.v,
                &mut self.z,
            );
        }
        let radius = self.radius;
        let cutoff = self.cutoff;
        let mut data: Vec<u8> = Vec::new();
        let mut y: u32 = 0;
        while y < height
            invariant
                0 <= y <= height,
                ow == width,
                oh == height,
                iw == inner_width,
                ih == inner_height,
                iw == clipped(gw, buffer as int, ow),
                ih == clipped(gh, buffer as int, oh),
                stride == width,
                1 <= width <= grid_size,
                1 <= height <= grid_size,
                ow == padded(gw, buffer as int, grid_size as int),
                oh == padded(gh, buffer as int, grid_size as int),
                radius >= 1,
                cutoff <= 1000,
                radius == old(self).radius,
                cutoff == old(self).cutoff,
                buffer == old(self).buffer,
                grid_size == old(self).grid_size,
                gw == glyph_width,
                gh == glyph_height,
                oh * ow <= count,
                self.grid_outer.len() == count,
                self.grid_inner.len() == count,
                outer == seeds(bitmap@, gw, gh, buffer as int, false),
                inner == seeds(bitmap@, gw, gh, buffer as int, true),
                forall|a: int, b: int|
                    0 <= a < ow && 0 <= b < oh ==> 0 <= #[trigger] at(ow, a, b) < oh * ow,
                seeded_outer.len() == count,
                seeded_inner.len() == count,
                forall|a: int, b: int|
                    0 <= a < ow && 0 <= b < oh ==> seeded_outer[#[trigger] at(ow, a, b)] == outer(
                        a,
                        b,
                    ) && seeded_inner[at(ow, a, b)] == inner(a, b),
                forall|a: int, b: int|
                    inside(0, 0, ow, oh, a, b) ==> self.grid_outer[#[trigger] at(ow, a, b)]
                        == transformed(cells(seeded_outer, ow), 0, 0, ow, oh, a, b),
                forall|a: int, b: int|
                    0 <= a < ow && 0 <= b < oh ==> self.grid_inner[#[trigger] at(ow, a, b)] == (
                    if iw > 0 && ih > 0 && inside(buffer as int, buffer as int, iw, ih, a, b) {
                        transformed(
                            cells(seeded_inner, ow),
                            buffer as int,
                            buffer as int,
                            iw,
                            ih,
                            a,
                            b,
                        )
                    } else {
                        seeded_inner[at(ow, a, b)] as int
                    }),
                data.len() == y * ow,
                forall|a: int, b: int|
                    0 <= a < ow && 0 <= b < y ==> data[#[trigger] at(ow, a, b)] == tile_byte(
                        bitmap@,
                        gw,
                        gh,
                        buffer as int,
                        grid_size as int,
                        radius as int,
                        cutoff as int,
                        a,
                        b,
                    ),
            decreases height - y,
        {
            let mut x: u32 = 0;
            while x < width
                invariant
                    0 <= x <= width,
                    0 <= y < height,
                    ow == width,
                    oh == height,
                    iw == inner_width,
                    ih == inner_height,
                    iw == clipped(gw, buffer as int, ow),
                    ih == clipped(gh, buffer as int, oh),
                    stride == width,
                    1 <= width <= grid_size,
                    1 <= height <= grid_size,
                    ow == padded(gw, buffer as int, grid_size as int),
                    oh == padded(gh, buffer as int, grid_size as int),
                    radius >= 1,
                    cutoff <= 1000,
                    gw == glyph_width,
                    gh == glyph_height,
                    oh * ow <= count,
                    self.grid_outer.len() == count,
                    self.grid_inner.len() == count,
                    outer == seeds(bitmap@, gw, gh, buffer as int, false),
                    inner == seeds(bitmap@, gw, gh, buffer as int, true),
                    forall|a: int, b: int|
                        0 <= a < ow && 0 <= b < oh ==> 0 <= #[trigger] at(ow, a, b) < oh * ow,
                    seeded_outer.len() == count,
                    seeded_inner.len() == count,
                    forall|a: int, b: int|
                        0 <= a < ow && 0 <= b < oh ==> seeded_outer[#[trigger] at(ow, a, b)]
                            == outer(a, b) && seeded_inner[at(ow, a, b)] == inner(a, b),
                    forall|a: int, b: int|
                        inside(0, 0, ow, oh, a, b) ==> self.grid_outer[#[trigger] at(ow, a, b)]
                            == transformed(cells(seeded_outer, ow), 0, 0, ow, oh, a, b),
                    forall|a: int, b: int|
                        0 <= a < ow && 0 <= b < oh ==> self.grid_inner[#[trigger] at(ow, a, b)]
                            == (if iw > 0 && ih > 0 && inside(
                            buffer as int,
                            buffer as int,
                            iw,
                            ih,
                            a,
                            b,
                        ) {
                            transformed(
                                cells(seeded_inner, ow),
                                buffer as int,
                                buffer as int,
                                iw,
                                ih,
                                a,
                                b,
                            )
                        } else {
                            seeded_inner[at(ow, a, b)] as int
                        }),
                    data.len() == y * ow + x,
                    forall|a: int, b: int|
                        0 <= a < ow && (0 <= b < y || (b == y && a < x)) ==> data[#[trigger] at(
                            ow,
                            a,
                            b,
                        )] == tile_byte(
                            bitmap@,
                            gw,
                            gh,
                            buffer as int,
                            grid_size as int,
                            radius as int,
                            cutoff as int,
                            a,
                            b,
                        ),
                decreases width - x,
            {
                assert(0 <= at(ow, x as int, y as int) < oh * ow);
                assert(at(ow, x as int, y as int) == y * stride + x);
                let j: usize = y as usize * stride + x as usize;
                proof {
                    let c_out = cells(seeded_outer, ow);
                    let c_in = cells(seeded_inner, ow);
                    assert forall|a: int, b: int| inside(0, 0, ow, oh, a, b) implies 0
                        <= #[trigger] c_out(a, b) <= INF && c_out(a, b) == outer(a, b) by {
                        assert(seeded_outer[at(ow, a, b)] == outer(a, b));
                        lemma_seed_range(alpha_at(bitmap@, gw, gh, a - buffer, b - buffer));
                    }
                    lemma_lines_in_range(c_out, 0, 0, ow, oh, x as int, y as int);
                    lemma_transformed_agrees(c_out, outer, 0, 0, ow, oh, x as int, y as int);
                    lemma_seed_range(alpha_at(bitmap@, gw, gh, x - buffer, y - buffer));
                    if iw > 0 && ih > 0 && inside(
                        buffer as int,
                        buffer as int,
                        iw,
                        ih,
                        x as int,
                        y as int,
                    ) {
                        assert forall|a: int, b: int|
                            inside(buffer as int, buffer as int, iw, ih, a, b) implies 0
                            <= #[trigger] c_in(a, b) <= INF && c_in(a, b) == inner(a, b) by {
                            assert(seeded_inner[at(ow, a, b)] == inner(a, b));
                            lemma_seed_range(alpha_at(bitmap@, gw, gh, a - buffer, b - buffer));
                        }
                        lemma_lines_in_range(
                            c_in,
                            buffer as int,
                            buffer as int,
                            iw,
                            ih,
                            x as int,
                            y as int,
                        );
                        lemma_transformed_agrees(
                            c_in,
                            inner,
                            buffer as int,
                            buffer as int,
                            iw,
                            ih,
                            x as int,
                            y as int,
                        );
                    }
                }
                let b = byte_of(self.grid_outer[j], self.grid_inner[j], radius, cutoff);
                let ghost held = data@;
                data.push(b);
                proof {
                    assert forall|p: int, q: int|
                        0 <= p < ow && (0 <= q < y || (q == y && p < x + 1)) implies data[#[trigger] at(
                        ow,
                        p,
                        q,
                    )] == tile_byte(
                        bitmap@,
                        gw,
                        gh,
                        buffer as int,
                        grid_size as int,
                        radius as int,
                        cutoff as int,
                        p,
                        q,
                    ) by {
                        if q < y {
                            lemma_at_bound(ow, y as int, p, q);
                            assert(data[at(ow, p, q)] == held[at(ow, p, q)]);
                        } else if p < x {
                            assert(0 <= at(ow, p, q) < held.len());
                            assert(data[at(ow, p, q)] == held[at(ow, p, q)]);
                        } else {
                            assert(at(ow, p, q) == held.len());
                        }
                    }
                }
                x = x + 1;
            }
            assert(y * ow + ow == (y + 1) * ow) by (nonlinear_arith);
            y = y + 1;
        }
        (data, width, height)
    }
}

/// Both seeds of a pixel lie between zero and `INF`, and one of them is zero.
pub proof fn lemma_seed_range(a: int)
    requires
        0 <= a <= 255,
    ensures
        0 <= outer_seed(a) <= INF,
        0 <= inner_seed(a) <= INF,
        outer_seed(a) == 0 || inner_seed(a) == 0,
{
    assert(0 <= (255 - 2 * a) * (255 - 2 * a) <= 255 * 255) by (nonlinear_arith)
        requires
            0 <= a <= 255,
    ;
    assert((2 * a - 255) * (2 * a - 255) == (255 - 2 * a) * (255 - 2 * a)) by (nonlinear_arith);
}

/// The side of a tile.
fn pad(side: u32, buffer: u32, grid_size: u32) -> (r: u32)
    ensures
        r == padded(side as int, buffer as int, grid_size as int),
        r <= grid_size,
{
    let whole: u64 = side as u64 + 2 * (buffer as u64);
    if whole < grid_size as u64 {
        whole as u32
    } else {
        grid_size
    }
}

/// How much of the glyph's side lies inside the tile.
fn clip(side: u32, buffer: u32, out: u32) -> (r: u32)
    ensures
        r == clipped(side as int, buffer as int, out as int),
        r == 0 || buffer + r <= out,
{
    if buffer >= out {
        0
    } else if side < out - buffer {
        side
    } else {
        out - buffer
    }
}

/// The coverage of the pixel of the glyph that lies at the texel `(tx, ty)`
/// of its tile.
fn coverage(bitmap: &Vec<u8>, width: u32, height: u32, tx: u32, ty: u32, buffer: u32) -> (a: u8)
    ensures
        a == alpha_at(bitmap@, width as int, height as int, tx - buffer, ty - buffer),
{
    if tx < buffer || ty < buffer {
        return 0;
    }
    let x = tx - buffer;
    let y = ty - buffer;
    if x >= width || y >= height {
        return 0;
    }
    assert(0 <= y * width <= 0xffff_ffff * 0xffff_ffff) by (nonlinear_arith)
        requires
            0 <= y <= 0xffff_ffff,
            0 <= width <= 0xffff_ffff,
    ;
    let index: u64 = (y as u64) * (width as u64) + x as u64;
    if index < bitmap.len() as u64 {
        bitmap[index as usize]
    } else {
        0
    }
}

} // verus!
