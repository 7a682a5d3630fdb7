//! The distance transform of one line of a grid.

use super::envelope::{
    at_or_before, cross_den, cross_num, envelope, in_range, lemma_crossing, lemma_envelope_is,
    lemma_envelope_range, parabola, FAR, INF, MAX_LINE, UNIT_SQ,
};
use super::hull::{
    cell, crossing, edge, in_top, lemma_crossing_not_far, lemma_den_positive, lemma_pop,
    lemma_push, lowest_below, lowest_top, lowest_with, nested, ratio_le, rising, starts, Ratio,
};
use vstd::prelude::*;

verus! {

/// Index in the grid of the sample `t` of a line.
pub open spec fn spot(offset: int, stride: int, t: int) -> int {
    offset + t * stride
}

/// The samples of a line: `length` values of `g`, `stride` apart, from
/// `offset` on.
pub open spec fn samples(g: Seq<i128>, offset: int, stride: int, length: int) -> Seq<i128> {
    Seq::new(length as nat, |t: int| g[spot(offset, stride, t)])
}

/// Whether the index `i` holds a sample of the line.
pub open spec fn on_line(i: int, offset: int, stride: int, length: int) -> bool {
    exists|t: int| 0 <= t < length && i == #[trigger] spot(offset, stride, t)
}

/// The largest numerator that a stored position has.
pub const NUM_LIMIT: i128 = 27_000_000_000_000_000_000_000_000;

/// The largest denominator that a stored position has.
pub const DEN_LIMIT: i128 = 40_000_000_000;

/// Whether a position is within the limits of the arithmetic.
pub open spec fn bounded(s: Ratio) -> bool {
    -NUM_LIMIT <= s.num <= NUM_LIMIT && 1 <= s.den <= DEN_LIMIT
}

/// Samples of a line lie apart.
pub proof fn lemma_spots_apart(offset: int, stride: int, s: int, t: int)
    requires
        stride >= 1,
        s < t,
    ensures
        spot(offset, stride, s) < spot(offset, stride, t),
{
    assert(s * stride < t * stride) by (nonlinear_arith)
        requires
            stride >= 1,
            s < t,
    ;
}

/// What lies behind the start of a cell stays behind it one step on.
proof fn lemma_stays_in_top(f: Seq<i128>, v: Seq<usize>, j: int, k: int, x: int)
    requires
        rising(v, k, f.len() as int),
        0 <= j <= k,
        in_top(f, v, j, x),
    ensures
        in_top(f, v, j, x + 1),
{
    if j > 0 {
        lemma_den_positive(v[j - 1] as int, v[j] as int);
        assert((x + 1) * cross_den(v[j - 1] as int, v[j] as int) == x * cross_den(
            v[j - 1] as int,
            v[j] as int,
        ) + cross_den(v[j - 1] as int, v[j] as int)) by (nonlinear_arith);
    }
}

/// The position where the parabolas of the sites `r` and `q` cross.
fn crossing_of(f: &Vec<i128>, r: usize, q: usize, Ghost(fl): Ghost<Seq<i128>>) -> (s: Ratio)
    requires
        r < q < f.len(),
        q < MAX_LINE,
        q < fl.len(),
        f[r as int] == fl[r as int],
        f[q as int] == fl[q as int],
        0 <= fl[r as int] <= INF,
        0 <= fl[q as int] <= INF,
    ensures
        crossing(fl, r as int, q as int, s),
        bounded(s),
{
    let qi: i128 = q as i128;
    let ri: i128 = r as i128;
    assert(0 <= ri * ri < qi * qi <= 65_536 * 65_536) by (nonlinear_arith)
        requires
            0 <= ri < qi < 65_536,
    ;
    let qq: i128 = qi * qi;
    let rr: i128 = ri * ri;
    let num: i128 = (f[q] + UNIT_SQ * qq) - (f[r] + UNIT_SQ * rr);
    let den: i128 = 2 * UNIT_SQ * ((q - r) as i128);
    Ratio { num, den }
}

/// Whether the position `a` lies at or before the position `b`.
fn at_or_before_position(a: Ratio, b: Ratio) -> (r: bool)
    requires
        bounded(a),
        bounded(b),
    ensures
        r == ratio_le(a, b),
{
    assert(-NUM_LIMIT * DEN_LIMIT <= a.num * b.den <= NUM_LIMIT * DEN_LIMIT) by (nonlinear_arith)
        requires
            -NUM_LIMIT <= a.num <= NUM_LIMIT,
            1 <= b.den <= DEN_LIMIT,
            NUM_LIMIT >= 0,
    ;
    assert(-NUM_LIMIT * DEN_LIMIT <= b.num * a.den <= NUM_LIMIT * DEN_LIMIT) by (nonlinear_arith)
        requires
            -NUM_LIMIT <= b.num <= NUM_LIMIT,
            1 <= a.den <= DEN_LIMIT,
            NUM_LIMIT >= 0,
    ;
    a.num * b.den <= b.num * a.den
}

/// Whether the position `z` lies before the sample `x`.
fn before_sample(z: Ratio, x: usize) -> (r: bool)
    requires
        bounded(z),
        x < MAX_LINE,
    ensures
        r == (z.num < x * z.den),
{
    let xi: i128 = x as i128;
    assert(0 <= xi * z.den <= 65_536 * DEN_LIMIT) by (nonlinear_arith)
        requires
            0 <= xi < 65_536,
            1 <= z.den <= DEN_LIMIT,
    ;
    z.num < xi * z.den
}

/// The squared Euclidean distance transform of one line, in place.
///
/// The line is the `length` samples of `grid` that lie `stride` apart from
/// `offset` on. Each sample becomes the lowest value, over the sites `r` of
/// the line, of the old value at `r` plus the squared distance to `r`. The
/// lower envelope of the parabolas rooted at the sites is built on a stack:
/// `v` holds the sites whose parabolas take part, `z` the positions from
/// which each is the lowest, `f` the old values.
pub fn edt1d(
    grid: &mut Vec<i128>,
    offset: usize,
    stride: usize,
    length: usize,
    f: &mut Vec<i128>,
    v: &mut Vec<usize>,
    z: &mut Vec<Ratio>,
)
    requires
        1 <= length < MAX_LINE,
        stride >= 1,
        spot(offset as int, stride as int, length - 1) < old(grid).len(),
        old(f).len() >= length,
        old(v).len() >= length,
        old(z).len() > length,
        in_range(samples(old(grid)@, offset as int, stride as int, length as int), length as int),
    ensures
        final(grid).len() == old(grid).len(),
        final(f).len() == old(f).len(),
        final(v).len() == old(v).len(),
        final(z).len() == old(z).len(),
        forall|t: int|
            0 <= t < length ==> final(grid)[#[trigger] spot(offset as int, stride as int, t)]
                == envelope(
                samples(old(grid)@, offset as int, stride as int, length as int),
                length as int,
                t,
            ),
        forall|i: int|
            0 <= i < old(grid).len() && !on_line(i, offset as int, stride as int, length as int)
                ==> final(grid)[i] == old(grid)[i],
{
    let ghost fl = samples(grid@, offset as int, stride as int, length as int);
    let ghost n = length as int;
    proof {
        assert forall|t: int| 0 <= t < length implies #[trigger] spot(
            offset as int,
            stride as int,
            t,
        ) <= spot(offset as int, stride as int, length - 1) by {
            if t < length - 1 {
                lemma_spots_apart(offset as int, stride as int, t, length - 1);
            }
        }
        assert(spot(offset as int, stride as int, 0) == offset);
    }
    v.set(0, 0);
    z.set(0, Ratio { num: -FAR, den: 1 });
    z.set(1, Ratio { num: FAR, den: 1 });
    f.set(0, grid[offset]);
    let mut k: usize = 0;
    let mut q: usize = 1;
    while q < length
        invariant
            1 <= q <= length < MAX_LINE,
            n == length,
            stride >= 1,
            fl == samples(old(grid)@, offset as int, stride as int, n),
            fl.len() == n,
            in_range(fl, n),
            grid@ == old(grid)@,
            forall|t: int|
                0 <= t < length ==> 0 <= #[trigger] spot(offset as int, stride as int, t)
                    < grid.len(),
            f.len() == old(f).len() >= length,
            v.len() == old(v).len() >= length,
            z.len() == old(z).len() > length,
            forall|r: int| 0 <= r < q ==> f[r] == #[trigger] fl[r],
            rising(v@, k as int, q as int),
            nested(fl, v@, k as int, n),
            lowest_below(fl, v@, k as int, q as int, n),
            lowest_top(fl, v@, k as int, q as int, n),
            starts(fl, v@, z@, k as int),
            z[k + 1].num == FAR && z[k + 1].den == 1,
            forall|i: int| 0 <= i <= k + 1 ==> bounded(#[trigger] z[i]),
        decreases length - q,
    {
        assert(0 <= spot(offset as int, stride as int, q as int) < grid.len());
        assert(q * stride == (q as int) * (stride as int));
        let value = grid[offset + q * stride];
        f.set(q, value);
        assert(fl[q as int] == value);
        assert(0 <= fl[q as int] <= INF);
        assert(0 <= fl[v[k as int] as int] <= INF);
        let mut s = crossing_of(f, v[k], q, Ghost(fl));
        proof {
            assert forall|x: int, r: int|
                0 <= x < n && 0 <= r <= q && #[trigger] in_top(
                    fl,
                    v@,
                    k as int,
                    x,
                ) implies parabola(fl, v[k as int] as int, x) <= #[trigger] parabola(fl, r, x)
                || parabola(fl, q as int, x) <= parabola(fl, r, x) by {
                if r < q {
                    assert(parabola(fl, v[k as int] as int, x) <= parabola(fl, r, x));
                }
            }
        }
        while at_or_before_position(s, z[k])
            invariant
                1 <= q < length < MAX_LINE,
                n == length,
                fl.len() == n,
                in_range(fl, n),
                f.len() >= length,
                v.len() >= length,
                z.len() > length,
                forall|r: int| 0 <= r <= q ==> f[r] == #[trigger] fl[r],
                rising(v@, k as int, q as int),
                nested(fl, v@, k as int, n),
                lowest_below(fl, v@, k as int, q as int, n),
                lowest_with(fl, v@, k as int, q as int, n),
                starts(fl, v@, z@, k as int),
                forall|i: int| 0 <= i <= k ==> bounded(#[trigger] z[i]),
                crossing(fl, v[k as int] as int, q as int, s),
                bounded(s),
            decreases k,
        {
            proof {
                lemma_crossing_not_far(fl, v[k as int] as int, q as int);
                assert(k >= 1);
                lemma_pop(fl, v@, k as int, q as int, n, z[k as int], s);
            }
            k = k - 1;
            assert(0 <= fl[v[k as int] as int] <= INF);
            s = crossing_of(f, v[k], q, Ghost(fl));
        }
        let ghost below = v@;
        let ghost top = z[k as int];
        k = k + 1;
        v.set(k, q);
        z.set(k, s);
        z.set(k + 1, Ratio { num: FAR, den: 1 });
        proof {
            lemma_push(fl, below, v@, k - 1, q as int, n, top, s);
        }
        q = q + 1;
    }
    let ghost last = k as int;
    let mut j: usize = 0;
    let mut x: usize = 0;
    while x < length
        invariant
            0 <= x <= length < MAX_LINE,
            n == length,
            stride >= 1,
            fl == samples(old(grid)@, offset as int, stride as int, n),
            fl.len() == n,
            in_range(fl, n),
            grid.len() == old(grid).len(),
            forall|t: int|
                0 <= t < length ==> 0 <= #[trigger] spot(offset as int, stride as int, t)
                    < grid.len(),
            f.len() == old(f).len() >= length,
            v.len() == old(v).len() >= length,
            z.len() == old(z).len() > length,
            forall|r: int| 0 <= r < length ==> f[r] == #[trigger] fl[r],
            0 <= j <= last == k,
            rising(v@, last, n),
            lowest_below(fl, v@, last, n, n),
            lowest_top(fl, v@, last, n, n),
            starts(fl, v@, z@, last),
            z[last + 1].num == FAR && z[last + 1].den == 1,
            forall|i: int| 0 <= i <= last + 1 ==> bounded(#[trigger] z[i]),
            x < length ==> in_top(fl, v@, j as int, x as int),
            forall|t: int|
                0 <= t < x ==> grid[#[trigger] spot(offset as int, stride as int, t)] == envelope(
                    fl,
                    n,
                    t,
                ),
            forall|i: int|
                0 <= i < grid.len() && !on_line(i, offset as int, stride as int, x as int)
                    ==> grid[i] == old(grid)[i],
        decreases length - x,
    {
        while before_sample(z[j + 1], x)
            invariant
                0 <= x < length < MAX_LINE,
                n == length,
                fl.len() == n,
                0 <= j <= last == k,
                z.len() > length,
                v.len() >= length,
                rising(v@, last, n),
                starts(fl, v@, z@, last),
                z[last + 1].num == FAR && z[last + 1].den == 1,
                forall|i: int| 0 <= i <= last + 1 ==> bounded(#[trigger] z[i]),
                in_top(fl, v@, j as int, x as int),
            decreases last - j,
        {
            proof {
                if j == last {
                    let den = z[j + 1].den as int;
                    assert(x * den == x) by (nonlinear_arith)
                        requires
                            den == 1,
                    ;
                }
            }
            j = j + 1;
        }
        assert(bounded(z[j + 1]));
        let r = v[j];
        let d: i128 = x as i128 - r as i128;
        assert(0 <= d * d <= 65_536 * 65_536) by (nonlinear_arith)
            requires
                -65_536 <= d <= 65_536,
        ;
        let value: i128 = f[r] + UNIT_SQ * (d * d);
        proof {
            assert(value == parabola(fl, r as int, x as int));
            assert forall|t: int| 0 <= t < n implies parabola(fl, r as int, x as int)
                <= #[trigger] parabola(fl, t, x as int) by {
                if j < last {
                    assert(cell(fl, v@, j as int, x as int));
                } else {
                    assert(in_top(fl, v@, last, x as int));
                }
            }
            lemma_envelope_is(fl, n, x as int, r as int);
            if x + 1 < length {
                lemma_stays_in_top(fl, v@, j as int, last, x as int);
            }
            assert forall|t: int| 0 <= t < x implies #[trigger] spot(
                offset as int,
                stride as int,
                t,
            ) != spot(offset as int, stride as int, x as int) by {
                lemma_spots_apart(offset as int, stride as int, t, x as int);
            }
        }
        assert(x * stride == (x as int) * (stride as int));
        let ghost before = grid@;
        grid.set(offset + x * stride, value);
        proof {
            assert forall|i: int|
                0 <= i < grid.len() && !on_line(
                    i,
                    offset as int,
                    stride as int,
                    x + 1,
                ) implies grid[i] == old(grid)[i] by {
                assert(i != spot(offset as int, stride as int, x as int));
                if on_line(i, offset as int, stride as int, x as int) {
                    let t = choose|t: int|
                        0 <= t < x && i == #[trigger] spot(offset as int, stride as int, t);
                    assert(0 <= t < x + 1 && i == spot(offset as int, stride as int, t));
                }
            }
        }
        x = x + 1;
    }
}

} // verus!
