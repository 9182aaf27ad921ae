//! Finite sums of real numbers.
use crate::laws::algebra::lemma_times_plus;
use vstd::prelude::*;

verus! {

/// The sum of `f(lo)`, ..., `f(hi - 1)`.
pub open spec fn sigma(f: spec_fn(int) -> real, lo: int, hi: int) -> real
    decreases hi - lo,
{
    if hi <= lo {
        0real
    } else {
        sigma(f, lo, hi - 1) + f(hi - 1)
    }
}

/// The sum of `f(i, j)` over the nodes off the walls of a grid of `n * n` nodes.
pub open spec fn sum_inside(n: int, f: spec_fn(int, int) -> real) -> real {
    sigma(|j: int| sigma(|i: int| f(i, j), 1, n - 1), 1, n - 1)
}

/// Equal terms have equal sums.
pub proof fn lemma_sigma_same(
    f: spec_fn(int) -> real,
    g: spec_fn(int) -> real,
    lo: int,
    hi: int,
)
    requires
        forall|k: int| lo <= k < hi ==> #[trigger] f(k) == g(k),
    ensures
        sigma(f, lo, hi) == sigma(g, lo, hi),
    decreases hi - lo,
{
    if hi > lo {
        lemma_sigma_same(f, g, lo, hi - 1);
        assert(f(hi - 1) == g(hi - 1));
    }
}

/// A sum of zeros is zero.
pub proof fn lemma_sigma_zero(f: spec_fn(int) -> real, lo: int, hi: int)
    requires
        forall|k: int| lo <= k < hi ==> #[trigger] f(k) == 0real,
    ensures
        sigma(f, lo, hi) == 0real,
    decreases hi - lo,
{
    if hi > lo {
        lemma_sigma_zero(f, lo, hi - 1);
        assert(f(hi - 1) == 0real);
    }
}

/// A sum of ones counts them.
pub proof fn lemma_sigma_ones(f: spec_fn(int) -> real, lo: int, hi: int)
    requires
        lo <= hi,
        forall|k: int| lo <= k < hi ==> #[trigger] f(k) == 1real,
    ensures
        sigma(f, lo, hi) == (hi - lo) as real,
    decreases hi - lo,
{
    if hi > lo {
        lemma_sigma_ones(f, lo, hi - 1);
        assert(f(hi - 1) == 1real);
    }
}

/// A sum in which all terms but one are zero.
pub proof fn lemma_sigma_single(f: spec_fn(int) -> real, lo: int, hi: int, at: int)
    requires
        lo <= at < hi,
        forall|k: int| lo <= k < hi && k != at ==> #[trigger] f(k) == 0real,
    ensures
        sigma(f, lo, hi) == f(at),
    decreases hi - lo,
{
    if at == hi - 1 {
        lemma_sigma_zero(f, lo, hi - 1);
    } else {
        lemma_sigma_single(f, lo, hi - 1, at);
        assert(f(hi - 1) == 0real);
    }
}

/// `f` is the combination `a * g + b * h` term by term, so its sum is too.
pub proof fn lemma_sigma_linear(
    f: spec_fn(int) -> real,
    a: real,
    g: spec_fn(int) -> real,
    b: real,
    h: spec_fn(int) -> real,
    lo: int,
    hi: int,
)
    requires
        forall|k: int| lo <= k < hi ==> #[trigger] f(k) == a * g(k) + b * h(k),
    ensures
        sigma(f, lo, hi) == a * sigma(g, lo, hi) + b * sigma(h, lo, hi),
    decreases hi - lo,
{
    if hi > lo {
        lemma_sigma_linear(f, a, g, b, h, lo, hi - 1);
        let (sg, sh) = (sigma(g, lo, hi - 1), sigma(h, lo, hi - 1));
        let (gk, hk) = (g(hi - 1), h(hi - 1));
        assert(f(hi - 1) == a * gk + b * hk);
        lemma_times_plus(a, sg, gk);
        lemma_times_plus(b, sh, hk);
    } else {
        assert(a * 0real == 0real) by (nonlinear_arith);
        assert(b * 0real == 0real) by (nonlinear_arith);
    }
}

/// A common factor.
pub proof fn lemma_sigma_scaled(
    f: spec_fn(int) -> real,
    a: real,
    g: spec_fn(int) -> real,
    lo: int,
    hi: int,
)
    requires
        forall|k: int| lo <= k < hi ==> #[trigger] f(k) == a * g(k),
    ensures
        sigma(f, lo, hi) == a * sigma(g, lo, hi),
{
    assert forall|k: int| lo <= k < hi implies #[trigger] f(k) == a * g(k) + 0real * g(k) by {
        let gk = g(k);
        assert(0real * gk == 0real) by (nonlinear_arith);
        assert(f(k) == a * g(k));
    }
    lemma_sigma_linear(f, a, g, 0real, g, lo, hi);
    let s = sigma(g, lo, hi);
    assert(0real * s == 0real) by (nonlinear_arith);
}

/// Two ranges side by side.
pub proof fn lemma_sigma_split(f: spec_fn(int) -> real, lo: int, mid: int, hi: int)
    requires
        lo <= mid <= hi,
    ensures
        sigma(f, lo, hi) == sigma(f, lo, mid) + sigma(f, mid, hi),
    decreases hi - mid,
{
    if hi > mid {
        lemma_sigma_split(f, lo, mid, hi - 1);
    }
}

/// A range moved by `d`.
pub proof fn lemma_sigma_shift(
    f: spec_fn(int) -> real,
    g: spec_fn(int) -> real,
    lo: int,
    hi: int,
    d: int,
)
    requires
        forall|k: int| lo <= k < hi ==> #[trigger] f(k) == g(k + d),
    ensures
        sigma(f, lo, hi) == sigma(g, lo + d, hi + d),
    decreases hi - lo,
{
    if hi > lo {
        lemma_sigma_shift(f, g, lo, hi - 1, d);
        assert(f(hi - 1) == g(hi - 1 + d));
    }
}

/// A range walked from its other end.
pub proof fn lemma_sigma_mirrored(
    f: spec_fn(int) -> real,
    g: spec_fn(int) -> real,
    lo: int,
    hi: int,
)
    requires
        forall|k: int| lo <= k < hi ==> #[trigger] f(k) == g(lo + hi - 1 - k),
    ensures
        sigma(f, lo, hi) == sigma(g, lo, hi),
    decreases hi - lo,
{
    if hi > lo {
        let g1 = |k: int| g(k + 1);
        assert forall|k: int| lo <= k < hi - 1 implies #[trigger] f(k) == g1(lo + (hi - 1) - 1 - k)
            by {
            assert(f(k) == g(lo + hi - 1 - k));
        }
        lemma_sigma_mirrored(f, g1, lo, hi - 1);
        lemma_sigma_shift(g1, g, lo, hi - 1, 1);
        lemma_sigma_split(g, lo, lo + 1, hi);
        assert(sigma(g, lo, lo + 1) == sigma(g, lo, lo) + g(lo));
        assert(f(hi - 1) == g(lo + hi - 1 - (hi - 1)));
    }
}

/// Differences of neighbours add up to the difference of the ends.
pub proof fn lemma_telescope(f: spec_fn(int) -> real, x: spec_fn(int) -> real, lo: int, hi: int)
    requires
        lo <= hi,
        forall|k: int| lo <= k < hi ==> #[trigger] f(k) == x(k) - x(k - 1),
    ensures
        sigma(f, lo, hi) == x(hi - 1) - x(lo - 1),
    decreases hi - lo,
{
    if hi > lo {
        lemma_telescope(f, x, lo, hi - 1);
        assert(f(hi - 1) == x(hi - 1) - x(hi - 1 - 1));
    }
}

/// The order of two sums does not matter.
pub proof fn lemma_sigma_swap(
    f: spec_fn(int, int) -> real,
    lo: int,
    hi: int,
    lo2: int,
    hi2: int,
)
    requires
        lo <= hi,
        lo2 <= hi2,
    ensures
        sigma(|j: int| sigma(|i: int| f(i, j), lo, hi), lo2, hi2) == sigma(
            |i: int| sigma(|j: int| f(i, j), lo2, hi2),
            lo,
            hi,
        ),
    decreases hi2 - lo2,
{
    let by_row = |j: int| sigma(|i: int| f(i, j), lo, hi);
    let by_col = |i: int| sigma(|j: int| f(i, j), lo2, hi2);
    if hi2 == lo2 {
        lemma_sigma_zero(by_col, lo, hi);
    } else {
        lemma_sigma_swap(f, lo, hi, lo2, hi2 - 1);
        let short = |i: int| sigma(|j: int| f(i, j), lo2, hi2 - 1);
        let last = |i: int| f(i, hi2 - 1);
        assert forall|i: int| lo <= i < hi implies #[trigger] by_col(i) == 1real * short(i) + 1real
            * last(i) by {
            let row = |j: int| f(i, j);
            assert(sigma(row, lo2, hi2) == sigma(row, lo2, hi2 - 1) + row(hi2 - 1));
        }
        lemma_sigma_linear(by_col, 1real, short, 1real, last, lo, hi);
        assert(by_row(hi2 - 1) == sigma(last, lo, hi));
    }
}

/// A flux that vanishes at the walls: what flows out of one node flows into another,
/// so the divergence adds up to zero.
pub proof fn lemma_no_flux(
    n: int,
    f: spec_fn(int, int) -> real,
    x: spec_fn(int, int) -> real,
    y: spec_fn(int, int) -> real,
)
    requires
        n >= 2,
        forall|i: int, j: int|
            1 <= i < n - 1 && 1 <= j < n - 1 ==> #[trigger] f(i, j) == (x(i, j) - x(i - 1, j)) + (y(
                i,
                j,
            ) - y(i, j - 1)),
        forall|j: int| 1 <= j < n - 1 ==> #[trigger] x(0, j) == 0real,
        forall|j: int| 1 <= j < n - 1 ==> #[trigger] x(n - 2, j) == 0real,
        forall|i: int| 1 <= i < n - 1 ==> #[trigger] y(i, 0) == 0real,
        forall|i: int| 1 <= i < n - 1 ==> #[trigger] y(i, n - 2) == 0real,
    ensures
        sum_inside(n, f) == 0real,
{
    let across = |i: int, j: int| y(i, j) - y(i, j - 1);
    let rows = |j: int| sigma(|i: int| f(i, j), 1, n - 1);
    let rest = |j: int| sigma(|i: int| across(i, j), 1, n - 1);
    assert forall|j: int| 1 <= j < n - 1 implies #[trigger] rows(j) == rest(j) by {
        let fj = |i: int| f(i, j);
        let dx = |i: int| x(i, j) - x(i - 1, j);
        let dy = |i: int| across(i, j);
        let xj = |i: int| x(i, j);
        assert forall|i: int| 1 <= i < n - 1 implies #[trigger] fj(i) == 1real * dx(i) + 1real * dy(
            i,
        ) by {
            assert(f(i, j) == (x(i, j) - x(i - 1, j)) + (y(i, j) - y(i, j - 1)));
        }
        lemma_sigma_linear(fj, 1real, dx, 1real, dy, 1, n - 1);
        lemma_telescope(dx, xj, 1, n - 1);
        assert(x(n - 2, j) == 0real && x(0, j) == 0real);
    }
    lemma_sigma_same(rows, rest, 1, n - 1);
    lemma_sigma_swap(across, 1, n - 1, 1, n - 1);
    let cols = |i: int| sigma(|j: int| across(i, j), 1, n - 1);
    assert forall|i: int| 1 <= i < n - 1 implies #[trigger] cols(i) == 0real by {
        let dy = |j: int| across(i, j);
        let yi = |j: int| y(i, j);
        lemma_telescope(dy, yi, 1, n - 1);
        assert(y(i, n - 2) == 0real && y(i, 0) == 0real);
    }
    lemma_sigma_zero(cols, 1, n - 1);
}

} // verus!
