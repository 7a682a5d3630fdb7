//! The lower envelope of parabolas: what the distance transform of one line
//! computes.
//!
//! Squared distances are whole numbers of `UNIT_SQ`-ths of a squared texel,
//! so that the squared distance to the edge of a partly covered texel,
//! `(1/2 - a/255)^2`, is the whole number `(255 - 2a)^2`.

use vstd::prelude::*;

verus! {

/// One squared texel.
pub const UNIT_SQ: i128 = 260_100;

/// The squared distance that stands for "no site": 10^20 squared texels.
pub const INF: i128 = 26_010_000_000_000_000_000_000_000;

/// The position that stands for "beyond every texel": 10^20 texels.
pub const FAR: i128 = 100_000_000_000_000_000_000;

/// The longest line that a transform takes.
pub const MAX_LINE: usize = 65_536;

/// The parabola rooted at site `r`, read at `x`: the value at the site plus
/// the squared distance to it.
pub open spec fn parabola(f: Seq<i128>, r: int, x: int) -> int {
    f[r] + UNIT_SQ * ((x - r) * (x - r))
}

/// The lowest of the parabolas rooted at the sites `0..n`, read at `x`.
pub open spec fn envelope(f: Seq<i128>, n: int, x: int) -> int
    decreases n,
{
    if n <= 1 {
        parabola(f, 0, x)
    } else if parabola(f, n - 1, x) < envelope(f, n - 1, x) {
        parabola(f, n - 1, x)
    } else {
        envelope(f, n - 1, x)
    }
}

/// Numerator of the position where the parabolas of `r` and `q` cross.
pub open spec fn cross_num(f: Seq<i128>, r: int, q: int) -> int {
    (f[q] + UNIT_SQ * (q * q)) - (f[r] + UNIT_SQ * (r * r))
}

/// Denominator of the position where the parabolas of `r` and `q` cross.
pub open spec fn cross_den(r: int, q: int) -> int {
    2 * UNIT_SQ * (q - r)
}

/// Whether `x` lies at or before the crossing of the parabolas of `r` and `q`.
pub open spec fn at_or_before(f: Seq<i128>, r: int, q: int, x: int) -> bool {
    x * cross_den(r, q) <= cross_num(f, r, q)
}

/// Whether every one of the first `n` values lies between zero and `INF`.
pub open spec fn in_range(f: Seq<i128>, n: int) -> bool {
    forall|r: int| 0 <= r < n ==> 0 <= #[trigger] f[r] <= INF
}

/// Up to the crossing the earlier parabola is the lower one, behind it the
/// later one.
pub proof fn lemma_crossing(f: Seq<i128>, r: int, q: int, x: int)
    requires
        r < q,
    ensures
        at_or_before(f, r, q, x) <==> parabola(f, r, x) <= parabola(f, q, x),
{
    assert(UNIT_SQ * ((x - q) * (x - q)) - UNIT_SQ * ((x - r) * (x - r)) == UNIT_SQ * (q * q)
        - UNIT_SQ * (r * r) - x * (2 * UNIT_SQ * (q - r))) by (nonlinear_arith);
}

/// A position behind a crossing is behind every crossing at or before it.
pub proof fn lemma_behind(n1: int, d1: int, n2: int, d2: int, x: int)
    requires
        d1 > 0,
        d2 > 0,
        n1 * d2 <= n2 * d1,
        x * d2 > n2,
    ensures
        x * d1 > n1,
{
    assert(x * d1 > n1) by (nonlinear_arith)
        requires
            d1 > 0,
            d2 > 0,
            n1 * d2 <= n2 * d1,
            x * d2 > n2,
    {
        assert((x * d2) * d1 > n2 * d1);
        assert((x * d1) * d2 > n1 * d2);
    }
}

/// A position at or before a crossing is before every crossing behind it.
pub proof fn lemma_ahead(n1: int, d1: int, n2: int, d2: int, x: int)
    requires
        d1 > 0,
        d2 > 0,
        n1 * d2 > n2 * d1,
        x * d2 <= n2,
    ensures
        x * d1 <= n1,
{
    assert(x * d1 <= n1) by (nonlinear_arith)
        requires
            d1 > 0,
            d2 > 0,
            n1 * d2 > n2 * d1,
            x * d2 <= n2,
    {
        assert((x * d2) * d1 <= n2 * d1);
        assert((x * d1) * d2 < n1 * d2);
    }
}

/// The envelope is one of the parabolas, and none of them is lower.
pub proof fn lemma_envelope_bounds(f: Seq<i128>, n: int, x: int)
    requires
        n >= 1,
    ensures
        forall|r: int| 0 <= r < n ==> envelope(f, n, x) <= #[trigger] parabola(f, r, x),
        exists|r: int| 0 <= r < n && envelope(f, n, x) == parabola(f, r, x),
    decreases n,
{
    if n > 1 {
        lemma_envelope_bounds(f, n - 1, x);
        let r0 = choose|r: int| 0 <= r < n - 1 && envelope(f, n - 1, x) == parabola(f, r, x);
        if parabola(f, n - 1, x) < envelope(f, n - 1, x) {
            assert(envelope(f, n, x) == parabola(f, n - 1, x));
        } else {
            assert(envelope(f, n, x) == parabola(f, r0, x));
        }
    } else {
        assert(envelope(f, n, x) == parabola(f, 0, x));
    }
}

/// A parabola that none of the others undercuts is the envelope.
pub proof fn lemma_envelope_is(f: Seq<i128>, n: int, x: int, r: int)
    requires
        0 <= r < n,
        forall|t: int| 0 <= t < n ==> parabola(f, r, x) <= #[trigger] parabola(f, t, x),
    ensures
        envelope(f, n, x) == parabola(f, r, x),
{
    lemma_envelope_bounds(f, n, x);
}

/// The envelope at a site is at most the value of the site, and not below
/// zero where no value is.
pub proof fn lemma_envelope_range(f: Seq<i128>, n: int, x: int)
    requires
        0 <= x < n,
        in_range(f, n),
    ensures
        0 <= envelope(f, n, x) <= f[x] <= INF,
{
    lemma_envelope_bounds(f, n, x);
    assert(parabola(f, x, x) == f[x]);
    let r = choose|r: int| 0 <= r < n && envelope(f, n, x) == parabola(f, r, x);
    assert(UNIT_SQ * ((x - r) * (x - r)) >= 0) by (nonlinear_arith);
}

} // verus!
