//! The largest speed and the diagnostics in exact arithmetic.
use crate::grid::{at, interior};
use crate::laws::direct::lemma_peak_zero;
use crate::laws::exact::{is_root, lemma_nil, lemma_whole};
use crate::laws::order::{law_lid_speed_bounded, law_node_speed_bounded};
use crate::model::{
    enstrophy, kinetic_energy, laplacian, node_speed, peak, residual, row_energy, row_enstrophy,
    row_residual, row_speed, speed_squared, total, velocity_u, velocity_v, Flow, Model,
};
use crate::scalar::{magnitude, nil, ordered};
use vstd::prelude::*;

verus! {

proof fn lemma_peak(init: real, row: spec_fn(int) -> real, j: int, hi: int)
    requires
        1 <= j < hi,
    ensures
        row(j) <= peak(init, row, hi),
    decreases hi,
{
    if j < hi - 1 {
        lemma_peak(init, row, j, hi - 1);
    }
}

/// Comparison orders the real numbers.
pub proof fn law_exact_ordered()
    ensures
        ordered::<real>(),
{
    lemma_nil();
}

/// The largest speed bounds the speed of the lid and of every node off the walls.
pub proof fn law_max_speed_bounds(m: Model<real>, f: Flow<real>, i: int, j: int)
    requires
        interior(m.n, i, j),
    ensures
        m.u_lid <= m.max_speed(f),
        node_speed(f.psi, m.n, m.h, i, j) <= m.max_speed(f),
{
    law_exact_ordered();
    law_lid_speed_bounded(m, f);
    law_node_speed_bounded(m, f, i, j);
}

proof fn lemma_row_at_rest(m: Model<real>, f: Flow<real>, j: int, hi: int)
    requires
        m.h != 0real,
        1 <= j < m.n - 1,
        hi <= m.n - 1,
        forall|a: int, b: int|
            0 <= a < m.n && 0 <= b < m.n ==> #[trigger] at(f.psi, m.n, a, b) == 0real,
    ensures
        row_speed(f.psi, m.n, m.h, j, hi) == 0real,
    decreases hi,
{
    lemma_nil();
    if hi > 1 {
        lemma_row_at_rest(m, f, j, hi - 1);
        let i = hi - 1;
        lemma_whole(2);
        let d = 2real * m.h;
        assert(0real / d == 0real) by (nonlinear_arith)
            requires
                d != 0real,
        ;
        assert(at(f.psi, m.n, i, j + 1) == 0real && at(f.psi, m.n, i, j - 1) == 0real);
        assert(at(f.psi, m.n, i + 1, j) == 0real && at(f.psi, m.n, i - 1, j) == 0real);
        assert(velocity_u(f.psi, m.n, m.h, i, j) == 0real);
        assert(velocity_v(f.psi, m.n, m.h, i, j) == 0real);
        assert(0real * 0real == 0real);
        assert(speed_squared(f.psi, m.n, m.h, i, j) == 0real);
        assert(is_root(0real, 0real));
        let r = node_speed(f.psi, m.n, m.h, i, j);
        assert(is_root(0real, r));
        assert(r == 0real) by (nonlinear_arith)
            requires
                r * r == 0real,
        ;
    }
}

/// At rest the largest speed is that of the lid.
pub proof fn law_speed_at_rest(m: Model<real>, f: Flow<real>)
    requires
        m.h != 0real,
        0real <= m.u_lid,
        forall|a: int, b: int|
            0 <= a < m.n && 0 <= b < m.n ==> #[trigger] at(f.psi, m.n, a, b) == 0real,
    ensures
        m.max_speed(f) == m.u_lid,
{
    lemma_nil();
    let row = |j: int| row_speed(f.psi, m.n, m.h, j, m.n - 1);
    assert forall|j: int| 1 <= j < m.n - 1 implies #[trigger] row(j) == 0real by {
        lemma_row_at_rest(m, f, j, m.n - 1);
    }
    lemma_peak_zero(row, m.n - 1);
}

proof fn lemma_row_residual(
    psi: Seq<real>,
    omega: Seq<real>,
    n: int,
    h2: real,
    j: int,
    i: int,
    hi: int,
)
    requires
        1 <= i < hi,
    ensures
        magnitude(laplacian(psi, n, h2, i, j) + at(omega, n, i, j)) <= row_residual(
            psi,
            omega,
            n,
            h2,
            j,
            hi,
        ),
    decreases hi,
{
    if i < hi - 1 {
        lemma_row_residual(psi, omega, n, h2, j, i, hi - 1);
    }
}

/// A residual of zero means that the Poisson equation holds at every node off the walls.
pub proof fn law_residual_bounds(
    psi: Seq<real>,
    omega: Seq<real>,
    n: int,
    h2: real,
    i: int,
    j: int,
)
    requires
        interior(n, i, j),
    ensures
        magnitude(laplacian(psi, n, h2, i, j) + at(omega, n, i, j)) <= residual(psi, omega, n, h2),
        residual(psi, omega, n, h2) == 0real ==> laplacian(psi, n, h2, i, j) == -at(omega, n, i, j),
{
    lemma_nil();
    let row = |j: int| row_residual(psi, omega, n, h2, j, n - 1);
    lemma_row_residual(psi, omega, n, h2, j, i, n - 1);
    lemma_peak(nil::<real>(), row, j, n - 1);
}

proof fn lemma_row_energy(psi: Seq<real>, n: int, h: real, j: int, hi: int)
    ensures
        row_energy(psi, n, h, j, hi) >= 0real,
    decreases hi,
{
    lemma_nil();
    if hi > 1 {
        lemma_row_energy(psi, n, h, j, hi - 1);
        let (u, v) = (
            velocity_u(psi, n, h, hi - 1, j),
            velocity_v(psi, n, h, hi - 1, j),
        );
        let (uu, vv, hh) = (u * u, v * v, h * h);
        assert(uu >= 0real) by (nonlinear_arith)
            requires
                uu == u * u,
        ;
        assert(vv >= 0real) by (nonlinear_arith)
            requires
                vv == v * v,
        ;
        assert(hh >= 0real) by (nonlinear_arith)
            requires
                hh == h * h,
        ;
        let q = 1int as real / 2int as real;
        let e = q * (uu + vv);
        assert(e >= 0real) by (nonlinear_arith)
            requires
                e == q * (uu + vv),
                2real * q == 1real,
                uu >= 0real,
                vv >= 0real,
        ;
        assert(e * hh >= 0real) by (nonlinear_arith)
            requires
                e >= 0real,
                hh >= 0real,
        ;
    }
}

proof fn lemma_row_enstrophy(omega: Seq<real>, n: int, h: real, j: int, hi: int)
    ensures
        row_enstrophy(omega, n, h, j, hi) >= 0real,
    decreases hi,
{
    lemma_nil();
    if hi > 1 {
        lemma_row_enstrophy(omega, n, h, j, hi - 1);
        let w = at(omega, n, hi - 1, j);
        let hh = h * h;
        assert(hh >= 0real) by (nonlinear_arith)
            requires
                hh == h * h,
        ;
        let q = 1int as real / 2int as real;
        let e = q * w * w;
        assert(e >= 0real) by (nonlinear_arith)
            requires
                e == q * w * w,
                2real * q == 1real,
        ;
        assert(e * hh >= 0real) by (nonlinear_arith)
            requires
                e >= 0real,
                hh >= 0real,
        ;
    }
}

proof fn lemma_total(row: spec_fn(int) -> real, hi: int)
    requires
        forall|j: int| #[trigger] row(j) >= 0real,
    ensures
        total(nil::<real>(), row, hi) >= 0real,
    decreases hi,
{
    lemma_nil();
    if hi > 1 {
        lemma_total(row, hi - 1);
        assert(row(hi - 1) >= 0real);
    }
}

/// Kinetic energy and enstrophy are never negative.
pub proof fn law_energy_not_negative(f: Flow<real>, n: int, h: real)
    ensures
        kinetic_energy(f.psi, n, h) >= 0real,
        enstrophy(f.omega, n, h) >= 0real,
{
    let energy = |j: int| row_energy(f.psi, n, h, j, n - 1);
    let spin = |j: int| row_enstrophy(f.omega, n, h, j, n - 1);
    assert forall|j: int| #[trigger] energy(j) >= 0real by {
        lemma_row_energy(f.psi, n, h, j, n - 1);
    }
    assert forall|j: int| #[trigger] spin(j) >= 0real by {
        lemma_row_enstrophy(f.omega, n, h, j, n - 1);
    }
    lemma_total(energy, n - 1);
    lemma_total(spin, n - 1);
}

} // verus!
