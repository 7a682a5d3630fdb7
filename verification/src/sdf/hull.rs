//! What the transform of one line keeps while it runs: a stack of sites
//! whose parabolas make up the lower envelope, each lowest on its own cell
//! of the line.

use super::envelope::{
    at_or_before, cross_den, cross_num, in_range, lemma_ahead, lemma_behind, lemma_crossing,
    parabola, FAR, INF, UNIT_SQ,
};
use vstd::prelude::*;

verus! {

/// A position on a line, as a fraction with a positive denominator.
#[derive(Clone, Copy, Debug)]
pub struct Ratio {
    pub num: i128,
    pub den: i128,
}

/// Whether `x` lies at or before the start of the cell of stack entry `i`:
/// the crossing of the parabolas of the entries `i - 1` and `i`.
pub open spec fn edge(f: Seq<i128>, v: Seq<usize>, i: int, x: int) -> bool {
    at_or_before(f, v[i - 1] as int, v[i] as int, x)
}

/// Whether `x` lies in the cell of stack entry `i`, an entry below the top.
pub open spec fn cell(f: Seq<i128>, v: Seq<usize>, i: int, x: int) -> bool {
    (i == 0 || !edge(f, v, i, x)) && edge(f, v, i + 1, x)
}

/// The stack holds sites before `q`, in rising order.
pub open spec fn rising(v: Seq<usize>, k: int, q: int) -> bool {
    &&& 0 <= k < q
    &&& k < v.len()
    &&& forall|i: int| 0 <= i <= k ==> (#[trigger] v[i]) < q
    &&& forall|i: int, j: int| 0 <= i < j <= k ==> (#[trigger] v[i]) < (#[trigger] v[j])
}

/// The cells follow each other: what lies before the start of one lies
/// before the start of every later one.
pub open spec fn nested(f: Seq<i128>, v: Seq<usize>, k: int, n: int) -> bool {
    forall|x: int, i: int, j: int|
        0 <= x < n && 1 <= i <= j <= k && #[trigger] edge(f, v, i, x) ==> #[trigger] edge(
            f,
            v,
            j,
            x,
        )
}

/// On the cell of each entry below the top, its parabola is the lowest of
/// those of the sites before `q`.
pub open spec fn lowest_below(f: Seq<i128>, v: Seq<usize>, k: int, q: int, n: int) -> bool {
    forall|x: int, i: int, r: int|
        0 <= x < n && 0 <= i < k && 0 <= r < q && #[trigger] cell(f, v, i, x) ==> parabola(
            f,
            v[i] as int,
            x,
        ) <= #[trigger] parabola(f, r, x)
}

/// Whether `x` lies behind the start of the cell of the top entry.
pub open spec fn in_top(f: Seq<i128>, v: Seq<usize>, k: int, x: int) -> bool {
    k == 0 || !edge(f, v, k, x)
}

/// On the cell of the top entry, its parabola is the lowest of those of the
/// sites before `q`.
pub open spec fn lowest_top(f: Seq<i128>, v: Seq<usize>, k: int, q: int, n: int) -> bool {
    forall|x: int, r: int|
        0 <= x < n && 0 <= r < q && #[trigger] in_top(f, v, k, x) ==> parabola(f, v[k] as int, x)
            <= #[trigger] parabola(f, r, x)
}

/// On the cell of the top entry, the lower of its parabola and that of the
/// new site `q` is the lowest of those of the sites up to `q`.
pub open spec fn lowest_with(f: Seq<i128>, v: Seq<usize>, k: int, q: int, n: int) -> bool {
    forall|x: int, r: int|
        0 <= x < n && 0 <= r <= q && #[trigger] in_top(f, v, k, x) ==> parabola(
            f,
            v[k] as int,
            x,
        ) <= #[trigger] parabola(f, r, x) || parabola(f, q, x) <= parabola(f, r, x)
}

/// The fraction at which the parabolas of `r` and `q` cross.
pub open spec fn crossing(f: Seq<i128>, r: int, q: int, s: Ratio) -> bool {
    s.num == cross_num(f, r, q) && s.den == cross_den(r, q)
}

/// The stored positions are the starts of the cells: far before the line
/// for the first entry, the crossings for the others.
pub open spec fn starts(f: Seq<i128>, v: Seq<usize>, z: Seq<Ratio>, k: int) -> bool {
    &&& k + 1 < z.len()
    &&& z[0].num == -FAR
    &&& z[0].den == 1
    &&& forall|i: int| 1 <= i <= k ==> crossing(f, v[i - 1] as int, v[i] as int, #[trigger] z[i])
}

/// `a` is at or before `b`.
pub open spec fn ratio_le(a: Ratio, b: Ratio) -> bool {
    a.num * b.den <= b.num * a.den
}

/// A crossing of two sites in range lies behind the position that stands
/// for "far before the line".
pub proof fn lemma_crossing_not_far(f: Seq<i128>, r: int, q: int)
    requires
        0 <= r < q,
        0 <= f[q],
        f[r] <= INF,
    ensures
        cross_den(r, q) > 0,
        cross_num(f, r, q) * 1 > -FAR * cross_den(r, q),
{
    assert(q * q >= r * r) by (nonlinear_arith)
        requires
            0 <= r < q,
    ;
    assert(UNIT_SQ * (q * q) >= UNIT_SQ * (r * r)) by (nonlinear_arith)
        requires
            q * q >= r * r,
    ;
    assert(FAR * (2 * UNIT_SQ * (q - r)) >= FAR * (2 * UNIT_SQ)) by (nonlinear_arith)
        requires
            q - r >= 1,
    ;
}

/// The denominator of a crossing is positive.
pub proof fn lemma_den_positive(r: int, q: int)
    requires
        r < q,
    ensures
        cross_den(r, q) > 0,
{
    assert(2 * UNIT_SQ * (q - r) > 0) by (nonlinear_arith)
        requires
            q - r >= 1,
            UNIT_SQ == 260_100,
    ;
}

/// Dropping the top entry, whose cell the new site `q` has taken over.
pub proof fn lemma_pop(f: Seq<i128>, v: Seq<usize>, k: int, q: int, n: int, top: Ratio, s: Ratio)
    requires
        k >= 1,
        rising(v, k, q),
        lowest_below(f, v, k, q, n),
        lowest_with(f, v, k, q, n),
        crossing(f, v[k - 1] as int, v[k] as int, top),
        crossing(f, v[k] as int, q, s),
        ratio_le(s, top),
    ensures
        lowest_below(f, v, k - 1, q, n),
        lowest_with(f, v, k - 1, q, n),
{
    assert forall|x: int, r: int| 0 <= x < n && 0 <= r <= q && #[trigger] in_top(f, v, k - 1, x)
        implies parabola(f, v[k - 1] as int, x) <= #[trigger] parabola(f, r, x) || parabola(
        f,
        q,
        x,
    ) <= parabola(f, r, x) by {
        if edge(f, v, k, x) {
            assert(cell(f, v, k - 1, x));
            if r < q {
                assert(parabola(f, v[k - 1] as int, x) <= parabola(f, r, x));
            }
        } else {
            assert(in_top(f, v, k, x));
            lemma_den_positive(v[k - 1] as int, v[k] as int);
            lemma_den_positive(v[k] as int, q);
            lemma_behind(s.num as int, s.den as int, top.num as int, top.den as int, x);
            lemma_crossing(f, v[k] as int, q, x);
        }
    }
}

/// Putting the new site `q` on the stack, behind the top entry.
pub proof fn lemma_push(
    f: Seq<i128>,
    v: Seq<usize>,
    w: Seq<usize>,
    k: int,
    q: int,
    n: int,
    top: Ratio,
    s: Ratio,
)
    requires
        rising(v, k, q),
        nested(f, v, k, n),
        lowest_below(f, v, k, q, n),
        lowest_with(f, v, k, q, n),
        crossing(f, v[k] as int, q, s),
        k >= 1 ==> crossing(f, v[k - 1] as int, v[k] as int, top) && !ratio_le(s, top),
        k + 1 < w.len(),
        w[k + 1] == q,
        forall|i: int| 0 <= i <= k ==> w[i] == v[i],
        q < n,
    ensures
        rising(w, k + 1, q + 1),
        nested(f, w, k + 1, n),
        lowest_below(f, w, k + 1, q + 1, n),
        lowest_top(f, w, k + 1, q + 1, n),
{
    lemma_den_positive(v[k] as int, q);
    assert forall|x: int, i: int| 0 <= x < n && 1 <= i <= k && edge(f, v, i, x) implies edge(
        f,
        w,
        k + 1,
        x,
    ) by {
        assert(edge(f, v, k, x));
        lemma_den_positive(v[k - 1] as int, v[k] as int);
        lemma_ahead(s.num as int, s.den as int, top.num as int, top.den as int, x);
    }
    assert forall|x: int, i: int, j: int|
        0 <= x < n && 1 <= i <= j <= k + 1 && #[trigger] edge(f, w, i, x) implies #[trigger] edge(
        f,
        w,
        j,
        x,
    ) by {
        if j <= k {
            assert(edge(f, v, i, x));
            assert(edge(f, v, j, x));
        } else if i <= k {
            assert(edge(f, v, i, x));
        }
    }
    assert forall|x: int, i: int, r: int|
        0 <= x < n && 0 <= i < k + 1 && 0 <= r < q + 1 && #[trigger] cell(
            f,
            w,
            i,
            x,
        ) implies parabola(f, w[i] as int, x) <= #[trigger] parabola(f, r, x) by {
        lemma_crossing(f, v[k] as int, q, x);
        if i < k {
            assert(cell(f, v, i, x));
            assert(edge(f, v, i + 1, x));
            assert(edge(f, w, k + 1, x));
            assert(parabola(f, v[i] as int, x) <= parabola(f, v[k] as int, x));
            if r < q {
                assert(parabola(f, v[i] as int, x) <= parabola(f, r, x));
            }
        } else {
            assert(in_top(f, v, k, x));
            assert(edge(f, w, k + 1, x));
        }
    }
    assert forall|x: int, r: int|
        0 <= x < n && 0 <= r < q + 1 && #[trigger] in_top(f, w, k + 1, x) implies parabola(
        f,
        w[k + 1] as int,
        x,
    ) <= #[trigger] parabola(f, r, x) by {
        lemma_crossing(f, v[k] as int, q, x);
        assert(!edge(f, w, k + 1, x));
        if k >= 1 {
            if edge(f, v, k, x) {
                assert(edge(f, w, k + 1, x));
            }
        }
        assert(in_top(f, v, k, x));
    }
}

} // verus!
