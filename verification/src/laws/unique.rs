//! The discrete Poisson equation has one solution.
use crate::grid::{at, interior};
use crate::laws::algebra::{lemma_minus_times, lemma_times_minus, lemma_times_plus};
use crate::laws::balance::law_settled_where_solved;
use crate::laws::direct::{is_solver_of, law_direct_solver_exact};
use crate::laws::exact::{lemma_nil, lemma_whole};
use crate::laws::sums::{lemma_no_flux, sigma, sum_inside};
use crate::laws::walls::lemma_solved_walls;
use crate::model::{change, closed_walls, laplacian, neighbours};
use crate::poisson::Spectral;
use vstd::prelude::*;

verus! {

proof fn lemma_sigma_not_negative(f: spec_fn(int) -> real, lo: int, hi: int)
    requires
        forall|k: int| lo <= k < hi ==> #[trigger] f(k) >= 0real,
    ensures
        sigma(f, lo, hi) >= 0real,
    decreases hi - lo,
{
    if hi > lo {
        lemma_sigma_not_negative(f, lo, hi - 1);
        assert(f(hi - 1) >= 0real);
    }
}

/// A sum of terms that are not negative is zero only where all terms are.
proof fn lemma_sigma_vanishes(f: spec_fn(int) -> real, lo: int, hi: int, k: int)
    requires
        lo <= k < hi,
        forall|c: int| lo <= c < hi ==> #[trigger] f(c) >= 0real,
        sigma(f, lo, hi) == 0real,
    ensures
        f(k) == 0real,
    decreases hi - lo,
{
    lemma_sigma_not_negative(f, lo, hi - 1);
    assert(f(hi - 1) >= 0real);
    if k < hi - 1 {
        lemma_sigma_vanishes(f, lo, hi - 1, k);
    }
}

/// Summation by parts at a node: `b` between its neighbours `a` and `c`.
proof fn lemma_by_parts(a: real, b: real, c: real)
    ensures
        c * (c - b) - b * (b - a) == (c - b) * (c - b) + b * (c + a - 2real * b),
{
    lemma_minus_times(c, b, c - b);
    let d = c - b;
    let e = b - a;
    lemma_times_minus(b, d, e);
    assert(d - e == c + a - 2real * b);
}

/// The difference of two fields at a node.
spec fn gap(p: Seq<real>, q: Seq<real>, n: int, i: int, j: int) -> real {
    at(p, n, i, j) - at(q, n, i, j)
}

/// How the difference changes to the east and to the north.
spec fn gap_x(p: Seq<real>, q: Seq<real>, n: int, i: int, j: int) -> real {
    gap(p, q, n, i + 1, j) - gap(p, q, n, i, j)
}

spec fn gap_y(p: Seq<real>, q: Seq<real>, n: int, i: int, j: int) -> real {
    gap(p, q, n, i, j + 1) - gap(p, q, n, i, j)
}

/// The products that summation by parts leaves, cut off at the walls.
spec fn edge_x(p: Seq<real>, q: Seq<real>, n: int, i: int, j: int) -> real {
    if i == 0 {
        0real
    } else {
        gap(p, q, n, i + 1, j) * gap_x(p, q, n, i, j)
    }
}

spec fn edge_y(p: Seq<real>, q: Seq<real>, n: int, i: int, j: int) -> real {
    if j == 0 {
        0real
    } else {
        gap(p, q, n, i, j + 1) * gap_y(p, q, n, i, j)
    }
}

/// The squares of the changes around a node.
spec fn roughness(p: Seq<real>, q: Seq<real>, n: int, i: int, j: int) -> real {
    let first_x = if i == 1 {
        gap(p, q, n, 1, j) * gap(p, q, n, 1, j)
    } else {
        0real
    };
    let first_y = if j == 1 {
        gap(p, q, n, i, 1) * gap(p, q, n, i, 1)
    } else {
        0real
    };
    gap_x(p, q, n, i, j) * gap_x(p, q, n, i, j) + gap_y(p, q, n, i, j) * gap_y(p, q, n, i, j)
        + first_x + first_y
}

proof fn lemma_rough(p: Seq<real>, q: Seq<real>, n: int, i: int, j: int)
    ensures
        roughness(p, q, n, i, j) >= gap_x(p, q, n, i, j) * gap_x(p, q, n, i, j),
        gap_x(p, q, n, i, j) * gap_x(p, q, n, i, j) >= 0real,
{
    lemma_square(gap_x(p, q, n, i, j));
    lemma_square(gap_y(p, q, n, i, j));
    lemma_square(gap(p, q, n, 1, j));
    lemma_square(gap(p, q, n, i, 1));
}

proof fn lemma_gap_at_wall(p: Seq<real>, q: Seq<real>, n: int, i: int, j: int)
    requires
        closed_walls(p, n),
        closed_walls(q, n),
        0 <= i < n,
        0 <= j < n,
        !interior(n, i, j),
    ensures
        gap(p, q, n, i, j) == 0real,
{
    lemma_nil();
    assert(at(p, n, i, j) == 0real && at(q, n, i, j) == 0real);
}

proof fn lemma_rough_is_divergence(
    p: Seq<real>,
    q: Seq<real>,
    n: int,
    h2: real,
    i: int,
    j: int,
)
    requires
        h2 != 0real,
        closed_walls(p, n),
        closed_walls(q, n),
        interior(n, i, j),
        laplacian(p, n, h2, i, j) == laplacian(q, n, h2, i, j),
    ensures
        roughness(p, q, n, i, j) == (edge_x(p, q, n, i, j) - edge_x(p, q, n, i - 1, j)) + (edge_y(
            p,
            q,
            n,
            i,
            j,
        ) - edge_y(p, q, n, i, j - 1)),
{
    lemma_same_balance(p, q, n, h2, i, j);
    let c = gap(p, q, n, i, j);
    let (e, w) = (gap(p, q, n, i + 1, j), gap(p, q, n, i - 1, j));
    let (nn, s) = (gap(p, q, n, i, j + 1), gap(p, q, n, i, j - 1));
    lemma_by_parts(w, c, e);
    lemma_by_parts(s, c, nn);
    lemma_times_plus(c, e + w - 2real * c, nn + s - 2real * c);
    assert(c * 0real == 0real) by (nonlinear_arith);
    assert(i - 1 + 1 == i && j - 1 + 1 == j);
    if i == 1 {
        lemma_gap_at_wall(p, q, n, 0, j);
    }
    if j == 1 {
        lemma_gap_at_wall(p, q, n, i, 0);
    }
}

/// The squares of all changes add up to zero.
proof fn lemma_no_roughness(p: Seq<real>, q: Seq<real>, n: int, h2: real)
    requires
        n >= 2,
        h2 != 0real,
        closed_walls(p, n),
        closed_walls(q, n),
        forall|a: int, b: int|
            #[trigger] interior(n, a, b) ==> laplacian(p, n, h2, a, b) == laplacian(q, n, h2, a, b),
    ensures
        sum_inside(n, |a: int, b: int| roughness(p, q, n, a, b)) == 0real,
{
    let x = |a: int, b: int| edge_x(p, q, n, a, b);
    let y = |a: int, b: int| edge_y(p, q, n, a, b);
    let f = |a: int, b: int| roughness(p, q, n, a, b);
    assert forall|a: int, b: int| 1 <= a < n - 1 && 1 <= b < n - 1 implies #[trigger] f(a, b) == (x(
        a,
        b,
    ) - x(a - 1, b)) + (y(a, b) - y(a, b - 1)) by {
        assert(interior(n, a, b));
        lemma_rough_is_divergence(p, q, n, h2, a, b);
    }
    assert forall|b: int| 1 <= b < n - 1 implies #[trigger] x(n - 2, b) == 0real by {
        lemma_gap_at_wall(p, q, n, n - 1, b);
        let g = gap_x(p, q, n, n - 2, b);
        assert(n - 2 + 1 == n - 1);
        assert(0real * g == 0real) by (nonlinear_arith);
    }
    assert forall|a: int| 1 <= a < n - 1 implies #[trigger] y(a, n - 2) == 0real by {
        lemma_gap_at_wall(p, q, n, a, n - 1);
        let g = gap_y(p, q, n, a, n - 2);
        assert(n - 2 + 1 == n - 1);
        assert(0real * g == 0real) by (nonlinear_arith);
    }
    lemma_no_flux(n, f, x, y);
}

/// Two fields that are zero on the walls and have the same Laplacian at every node off
/// the walls are the same field.
pub proof fn law_solution_unique(p: Seq<real>, q: Seq<real>, n: int, h2: real, i: int, j: int)
    requires
        n >= 2,
        h2 != 0real,
        closed_walls(p, n),
        closed_walls(q, n),
        forall|a: int, b: int|
            #[trigger] interior(n, a, b) ==> laplacian(p, n, h2, a, b) == laplacian(q, n, h2, a, b),
        0 <= i < n,
        0 <= j < n,
    ensures
        at(p, n, i, j) == at(q, n, i, j),
{
    if interior(n, i, j) {
        lemma_no_roughness(p, q, n, h2);
        let f = |a: int, b: int| roughness(p, q, n, a, b);
        let rows = |b: int| sigma(|a: int| f(a, b), 1, n - 1);
        assert forall|b: int| 1 <= b < n - 1 implies #[trigger] rows(b) >= 0real by {
            let row = |a: int| f(a, b);
            assert forall|a: int| 1 <= a < n - 1 implies #[trigger] row(a) >= 0real by {
                lemma_rough(p, q, n, a, b);
            }
            lemma_sigma_not_negative(row, 1, n - 1);
        }
        lemma_sigma_vanishes(rows, 1, n - 1, j);
        let row = |a: int| f(a, j);
        assert forall|a: int| 1 <= a < n - 1 implies #[trigger] row(a) >= 0real by {
            lemma_rough(p, q, n, a, j);
        }
        assert forall|a: int| 1 <= a < n - 1 implies #[trigger] gap_x(p, q, n, a, j) == 0real by {
            lemma_sigma_vanishes(row, 1, n - 1, a);
            lemma_rough(p, q, n, a, j);
            let g = gap_x(p, q, n, a, j);
            assert(row(a) == 0real);
            assert(g == 0real) by (nonlinear_arith)
                requires
                    g * g <= 0real,
            ;
        }
        lemma_gap_at_wall(p, q, n, n - 1, j);
        lemma_constant(p, q, n, i, j);
    } else {
        lemma_gap_at_wall(p, q, n, i, j);
    }
}

proof fn lemma_square(a: real)
    ensures
        a * a >= 0real,
{
    assert(a * a >= 0real) by (nonlinear_arith);
}

/// A row without changes up to a wall where it is zero is zero.
proof fn lemma_constant(p: Seq<real>, q: Seq<real>, n: int, i: int, j: int)
    requires
        1 <= i <= n - 1,
        gap(p, q, n, n - 1, j) == 0real,
        forall|a: int| 1 <= a < n - 1 ==> #[trigger] gap_x(p, q, n, a, j) == 0real,
    ensures
        gap(p, q, n, i, j) == 0real,
    decreases n - i,
{
    if i < n - 1 {
        lemma_constant(p, q, n, i + 1, j);
        assert(gap_x(p, q, n, i, j) == 0real);
    }
}

/// Equal Laplacians: the difference of the fields has none.
proof fn lemma_same_balance(p: Seq<real>, q: Seq<real>, n: int, h2: real, i: int, j: int)
    requires
        h2 != 0real,
        laplacian(p, n, h2, i, j) == laplacian(q, n, h2, i, j),
    ensures
        gap(p, q, n, i + 1, j) + gap(p, q, n, i - 1, j) - 2real * gap(p, q, n, i, j) + (gap(
            p,
            q,
            n,
            i,
            j + 1,
        ) + gap(p, q, n, i, j - 1) - 2real * gap(p, q, n, i, j)) == 0real,
{
    lemma_whole(4);
    let a = neighbours(p, n, i, j) - 4real * at(p, n, i, j);
    let b = neighbours(q, n, i, j) - 4real * at(q, n, i, j);
    assert(a / h2 == b / h2);
    let (r, s) = (a / h2, b / h2);
    assert(r * h2 == a) by (nonlinear_arith)
        requires
            r == a / h2,
            h2 != 0real,
    ;
    assert(s * h2 == b) by (nonlinear_arith)
        requires
            s == b / h2,
            h2 != 0real,
    ;
}

/// The two solvers agree: a field at which relaxation has settled at every node off the
/// walls is the field that the direct solver finds.
pub proof fn law_solvers_agree(
    s: Spectral<real>,
    h: real,
    omega: Seq<real>,
    start: Seq<real>,
    settled: Seq<real>,
    w: real,
    i: int,
    j: int,
)
    requires
        is_solver_of(s, s.n, h),
        w != 0real,
        closed_walls(start, s.n),
        closed_walls(settled, s.n),
        forall|a: int, b: int|
            #[trigger] interior(s.n, a, b) ==> change(settled, omega, s.n, h * h, w, a, b) == 0real,
        0 <= i < s.n,
        0 <= j < s.n,
    ensures
        at(settled, s.n, i, j) == at(s.solved(omega, start), s.n, i, j),
{
    let n = s.n;
    let h2 = h * h;
    assert(h2 != 0real) by (nonlinear_arith)
        requires
            h2 == h * h,
            h != 0real,
    ;
    let found = s.solved(omega, start);
    lemma_solved_walls(s, omega, start);
    assert forall|a: int, b: int| #[trigger] interior(n, a, b) implies laplacian(
        settled,
        n,
        h2,
        a,
        b,
    ) == laplacian(found, n, h2, a, b) by {
        law_settled_where_solved(settled, omega, n, h2, w, a, b);
        law_direct_solver_exact(s, h, omega, start, a, b);
    }
    law_solution_unique(settled, found, n, h2, i, j);
}

} // verus!
