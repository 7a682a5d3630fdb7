//! The distance transform of a rectangle of a grid: each column is
//! transformed, then each row of the result.

use super::envelope::{
    envelope, in_range, lemma_envelope_bounds, lemma_envelope_is, lemma_envelope_range, parabola,
    INF, MAX_LINE, UNIT_SQ,
};
use vstd::prelude::*;

verus! {

/// Index of the cell `(x, y)` in a grid stored row by row.
pub open spec fn at(stride: int, x: int, y: int) -> int {
    y * stride + x
}

/// The cells of a grid, as a function of their column and row.
pub open spec fn cells(g: Seq<i128>, stride: int) -> spec_fn(int, int) -> i128 {
    |x: int, y: int| g[at(stride, x, y)]
}

/// The part of column `x` that lies in the rows `y0 .. y0 + h`.
pub open spec fn column_of(c: spec_fn(int, int) -> i128, x: int, y0: int, h: int) -> Seq<i128> {
    Seq::new(h as nat, |t: int| c(x, y0 + t))
}

/// The value of the cell `(x, y)` once its column has been transformed.
pub open spec fn after_columns(c: spec_fn(int, int) -> i128, y0: int, h: int, x: int, y: int) -> int {
    envelope(column_of(c, x, y0, h), h, y - y0)
}

/// The part of row `y` that lies in the columns `x0 .. x0 + w`, once the
/// columns have been transformed.
pub open spec fn row(c: spec_fn(int, int) -> i128, x0: int, y0: int, w: int, h: int, y: int) -> Seq<
    i128,
> {
    Seq::new(w as nat, |t: int| after_columns(c, y0, h, x0 + t, y) as i128)
}

/// The value of the cell `(x, y)` of the rectangle once columns and rows
/// have been transformed.
pub open spec fn transformed(
    c: spec_fn(int, int) -> i128,
    x0: int,
    y0: int,
    w: int,
    h: int,
    x: int,
    y: int,
) -> int {
    envelope(row(c, x0, y0, w, h, y), w, x - x0)
}

/// Whether `(x, y)` lies in the rectangle.
pub open spec fn inside(x0: int, y0: int, w: int, h: int, x: int, y: int) -> bool {
    x0 <= x < x0 + w && y0 <= y < y0 + h
}

/// Whether every cell of the rectangle lies between zero and `INF`.
pub open spec fn cells_in_range(c: spec_fn(int, int) -> i128, x0: int, y0: int, w: int, h: int) -> bool {
    forall|x: int, y: int| inside(x0, y0, w, h, x, y) ==> 0 <= #[trigger] c(x, y) <= INF
}

/// Index arithmetic of a grid stored row by row.
pub proof fn lemma_at(stride: int, x: int, y: int, t: int)
    ensures
        at(stride, x, y) + t * stride == at(stride, x, y + t),
        at(stride, x, y) + t * 1 == at(stride, x + t, y),
{
    assert(y * stride + t * stride == (y + t) * stride) by (nonlinear_arith);
}

/// Cells of a grid stored row by row lie apart.
pub proof fn lemma_at_apart(stride: int, x: int, y: int, x2: int, y2: int)
    requires
        0 <= x < stride,
        0 <= x2 < stride,
        at(stride, x, y) == at(stride, x2, y2),
    ensures
        x == x2,
        y == y2,
{
    assert(y == y2) by (nonlinear_arith)
        requires
            0 <= x < stride,
            0 <= x2 < stride,
            y * stride + x == y2 * stride + x2,
    {
        if y < y2 {
            assert((y2 - y) * stride >= stride);
        } else if y2 < y {
            assert((y - y2) * stride >= stride);
        }
    }
}

/// A cell of a grid of `rows` rows lies inside the grid.
pub proof fn lemma_at_bound(stride: int, rows: int, x: int, y: int)
    requires
        0 <= x < stride,
        0 <= y < rows,
    ensures
        0 <= at(stride, x, y) < rows * stride,
{
    assert(y * stride + stride <= rows * stride) by (nonlinear_arith)
        requires
            0 <= y < rows,
            stride > 0,
    ;
    assert(y * stride >= 0) by (nonlinear_arith)
        requires
            0 <= y,
            stride > 0,
    ;
}

/// The columns of a rectangle in range are in range, and so are the rows of
/// the transformed columns.
pub proof fn lemma_lines_in_range(
    c: spec_fn(int, int) -> i128,
    x0: int,
    y0: int,
    w: int,
    h: int,
    x: int,
    y: int,
)
    requires
        cells_in_range(c, x0, y0, w, h),
        inside(x0, y0, w, h, x, y),
    ensures
        in_range(column_of(c, x, y0, h), h),
        0 <= after_columns(c, y0, h, x, y) <= c(x, y),
        in_range(row(c, x0, y0, w, h, y), w),
        0 <= transformed(c, x0, y0, w, h, x, y) <= after_columns(c, y0, h, x, y),
{
    assert forall|t: int| 0 <= t < h implies 0 <= #[trigger] column_of(c, x, y0, h)[t] <= INF by {
        assert(inside(x0, y0, w, h, x, y0 + t));
    }
    lemma_envelope_range(column_of(c, x, y0, h), h, y - y0);
    assert forall|t: int| 0 <= t < w implies 0 <= #[trigger] row(c, x0, y0, w, h, y)[t] <= INF by {
        assert forall|u: int| 0 <= u < h implies 0 <= #[trigger] column_of(c, x0 + t, y0, h)[u]
            <= INF by {
            assert(inside(x0, y0, w, h, x0 + t, y0 + u));
        }
        lemma_envelope_range(column_of(c, x0 + t, y0, h), h, y - y0);
    }
    lemma_envelope_range(row(c, x0, y0, w, h, y), w, x - x0);
}

/// Grids that agree on a rectangle have the same transform of it.
pub proof fn lemma_transformed_agrees(
    c: spec_fn(int, int) -> i128,
    d: spec_fn(int, int) -> i128,
    x0: int,
    y0: int,
    w: int,
    h: int,
    x: int,
    y: int,
)
    requires
        forall|a: int, b: int| inside(x0, y0, w, h, a, b) ==> #[trigger] c(a, b) == d(a, b),
        inside(x0, y0, w, h, x, y),
    ensures
        transformed(c, x0, y0, w, h, x, y) == transformed(d, x0, y0, w, h, x, y),
{
    assert forall|t: int| 0 <= t < w implies #[trigger] row(c, x0, y0, w, h, y)[t] == row(
        d,
        x0,
        y0,
        w,
        h,
        y,
    )[t] by {
        assert forall|u: int| 0 <= u < h implies #[trigger] column_of(c, x0 + t, y0, h)[u] == column_of(
            d,
            x0 + t,
            y0,
            h,
        )[u] by {
            assert(inside(x0, y0, w, h, x0 + t, y0 + u));
        }
        assert(column_of(c, x0 + t, y0, h) =~= column_of(d, x0 + t, y0, h));
    }
    assert(row(c, x0, y0, w, h, y) =~= row(d, x0, y0, w, h, y));
}

/// The envelope of a line without a site: `INF` everywhere.
pub proof fn lemma_envelope_of_nothing(f: Seq<i128>, n: int, x: int)
    requires
        0 <= x < n,
        forall|r: int| 0 <= r < n ==> #[trigger] f[r] == INF,
    ensures
        envelope(f, n, x) == INF,
{
    assert forall|t: int| 0 <= t < n implies parabola(f, x, x) <= #[trigger] parabola(f, t, x) by {
        assert(UNIT_SQ * ((x - t) * (x - t)) >= 0) by (nonlinear_arith);
    }
    lemma_envelope_is(f, n, x, x);
}

/// The envelope of a line with one site: the value at the site plus the
/// squared distance to it.
pub proof fn lemma_envelope_of_one(f: Seq<i128>, n: int, x: int, site: int)
    requires
        0 <= x < n,
        0 <= site < n,
        forall|r: int| 0 <= r < n && r != site ==> #[trigger] f[r] == INF,
        parabola(f, site, x) <= INF,
    ensures
        envelope(f, n, x) == parabola(f, site, x),
{
    assert forall|t: int| 0 <= t < n implies parabola(f, site, x) <= #[trigger] parabola(
        f,
        t,
        x,
    ) by {
        assert(UNIT_SQ * ((x - t) * (x - t)) >= 0) by (nonlinear_arith);
    }
    lemma_envelope_is(f, n, x, site);
}

/// A rectangle without a site is left as it is: every cell stays `INF`.
pub proof fn law_transform_of_nothing(
    c: spec_fn(int, int) -> i128,
    x0: int,
    y0: int,
    w: int,
    h: int,
    x: int,
    y: int,
)
    requires
        inside(x0, y0, w, h, x, y),
        forall|a: int, b: int| inside(x0, y0, w, h, a, b) ==> #[trigger] c(a, b) == INF,
    ensures
        transformed(c, x0, y0, w, h, x, y) == INF,
        transformed(c, x0, y0, w, h, x, y) == c(x, y),
{
    assert forall|t: int| 0 <= t < w implies #[trigger] row(c, x0, y0, w, h, y)[t] == INF by {
        assert forall|u: int| 0 <= u < h implies #[trigger] column_of(c, x0 + t, y0, h)[u] == INF by {
            assert(inside(x0, y0, w, h, x0 + t, y0 + u));
        }
        lemma_envelope_of_nothing(column_of(c, x0 + t, y0, h), h, y - y0);
    }
    lemma_envelope_of_nothing(row(c, x0, y0, w, h, y), w, x - x0);
    assert(inside(x0, y0, w, h, x, y));
}

/// A rectangle with the one site `(cx, cy)` becomes the squared distance to
/// it: the cell `(x, y)` holds `(x - cx)^2 + (y - cy)^2` squared texels.
pub proof fn law_transform_of_one_site(
    c: spec_fn(int, int) -> i128,
    x0: int,
    y0: int,
    w: int,
    h: int,
    cx: int,
    cy: int,
    x: int,
    y: int,
)
    requires
        w < MAX_LINE,
        h < MAX_LINE,
        inside(x0, y0, w, h, x, y),
        inside(x0, y0, w, h, cx, cy),
        c(cx, cy) == 0,
        forall|a: int, b: int|
            inside(x0, y0, w, h, a, b) && !(a == cx && b == cy) ==> #[trigger] c(a, b) == INF,
    ensures
        transformed(c, x0, y0, w, h, x, y) == UNIT_SQ * ((x - cx) * (x - cx) + (y - cy) * (y - cy)),
{
    let dy = y - cy;
    let dx = x - cx;
    assert(0 <= dy * dy <= 65_536 * 65_536 && 0 <= dx * dx <= 65_536 * 65_536) by (nonlinear_arith)
        requires
            -65_536 < dy < 65_536,
            -65_536 < dx < 65_536,
    ;
    assert(UNIT_SQ * (dx * dx + dy * dy) == UNIT_SQ * (dy * dy) + UNIT_SQ * (dx * dx))
        by (nonlinear_arith);
    assert forall|t: int| 0 <= t < w implies #[trigger] row(c, x0, y0, w, h, y)[t] == (if x0 + t
        == cx {
        UNIT_SQ * (dy * dy)
    } else {
        INF as int
    }) by {
        let col = column_of(c, x0 + t, y0, h);
        if x0 + t == cx {
            assert forall|u: int| 0 <= u < h && u != cy - y0 implies #[trigger] col[u] == INF by {
                assert(inside(x0, y0, w, h, x0 + t, y0 + u));
            }
            assert(col[cy - y0] == 0);
            assert((y - y0) - (cy - y0) == dy);
            lemma_envelope_of_one(col, h, y - y0, cy - y0);
        } else {
            assert forall|u: int| 0 <= u < h implies #[trigger] col[u] == INF by {
                assert(inside(x0, y0, w, h, x0 + t, y0 + u));
            }
            lemma_envelope_of_nothing(col, h, y - y0);
        }
    }
    let r = row(c, x0, y0, w, h, y);
    assert(r[cx - x0] == UNIT_SQ * (dy * dy));
    assert((x - x0) - (cx - x0) == dx);
    lemma_envelope_of_one(r, w, x - x0, cx - x0);
}

} // verus!
