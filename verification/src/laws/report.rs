//! Poisson solves in exact arithmetic.
use crate::channel_model::ChannelModel;
use crate::grid::{at, interior, lemma_is_tabulated, lemma_tabulate};
use crate::laws::balance::law_settled_where_solved;
use crate::laws::exact::lemma_nil;
use crate::laws::halting::{
    changes, fluid_changes, fluid_sizes, is_relative_change, law_channel_relative_change,
    law_relative_change,
};
use crate::laws::largest::{is_largest, size};
use crate::laws::street::law_channel_sweeps;
use crate::laws::totals::law_extremes_are_largest;
use crate::laws::walls::law_sweeps;
use crate::model::{
    change, closed_walls, grounded, grounded_cells, laplacian, sweep, sweep_cells, Flow, Model,
};
use vstd::prelude::*;

verus! {

/// What a solve reports: the direct solver the largest residual of the equation, the iterative
/// one the relative change of its last sweep with a number divisible by four, or zero where it
/// made none. Returns the largest change and the largest value of that sweep.
pub proof fn law_poisson_report(m: Model<real>, f: Flow<real>) -> (r: (real, real))
    requires
        0 <= m.max_it,
    ensures
        m.direct is Some ==> is_largest(
            0real,
            |i: int, j: int|
                Some(
                    size(
                        laplacian(m.poisson_psi(f), m.n, m.h * m.h, i, j) + at(f.omega, m.n, i, j),
                    ),
                ),
            m.n,
            m.n,
            m.poisson_report(f),
        ),
        m.direct is Some ==> m.poisson_iterations(f) == 1,
        m.direct is None ==> ({
            let start = grounded(f.psi, m.n);
            let k = m.poisson_iterations(f);
            let last = k - k % 4;
            &&& k == m.sweeps(start, f.omega, 0)
            &&& m.poisson_psi(f) == m.after(start, f.omega, k)
            &&& k < 4 ==> m.poisson_report(f) == 0real
            &&& k >= 4 ==> is_relative_change(
                m.after(start, f.omega, last - 1),
                m.after(start, f.omega, last),
                m.n,
                m.poisson_report(f),
                r.0,
                r.1,
            )
        }),
{
    lemma_nil();
    law_extremes_are_largest(m.poisson_psi(f), f.omega, m.n, m.h, m.h * m.h);
    let start = grounded(f.psi, m.n);
    law_sweeps(m, start, f.omega, 0);
    let k = m.poisson_iterations(f);
    if m.direct is None && k >= 4 {
        let old = m.after(start, f.omega, k - k % 4 - 1);
        law_relative_change(m, old, f.omega)
    } else {
        (0real, 0real)
    }
}

/// The relaxations of a solve start from the streamfunction as it is off the walls, with zeros
/// on the walls, and each goes on from the one before.
pub proof fn law_warm_start(m: Model<real>, f: Flow<real>, i: int, j: int, k: int)
    requires
        0 <= i < m.n,
        0 <= j < m.n,
        0 <= k,
    ensures
        ({
            let start = m.after(grounded(f.psi, m.n), f.omega, 0);
            let inside = 1 <= i < m.n - 1 && 1 <= j < m.n - 1;
            &&& inside ==> at(start, m.n, i, j) == at(f.psi, m.n, i, j)
            &&& !inside ==> at(start, m.n, i, j) == 0real
            &&& m.after(start, f.omega, k + 1) == m.relax(m.after(start, f.omega, k), f.omega)
        }),
{
    lemma_nil();
    lemma_tabulate(m.n, grounded_cells(f.psi, m.n), i, j);
}

proof fn lemma_sweep_stays(m: Model<real>, f: Flow<real>, color: int)
    requires
        m.n >= 2,
        f.psi.len() == m.n * m.n,
        m.h != 0real,
        forall|i: int, j: int|
            #[trigger] interior(m.n, i, j) ==> laplacian(f.psi, m.n, m.h * m.h, i, j) == -at(
                f.omega,
                m.n,
                i,
                j,
            ),
    ensures
        sweep(f.psi, f.omega, m.n, m.h2(), m.sor, color) == f.psi,
{
    let (n, h2, w) = (m.n, m.h2(), m.sor);
    assert(h2 != 0real) by (nonlinear_arith)
        requires
            h2 == m.h * m.h,
            m.h != 0real,
    ;
    let cells = sweep_cells(f.psi, f.omega, n, h2, w, color);
    assert forall|i: int, j: int| 0 <= i < n && 0 <= j < n implies #[trigger] at(f.psi, n, i, j)
        == cells(i, j) by {
        if interior(n, i, j) {
            if w != 0real {
                law_settled_where_solved(f.psi, f.omega, n, h2, w, i, j);
            } else {
                let d = change(f.psi, f.omega, n, h2, 1real, i, j);
                law_settled_where_solved(f.psi, f.omega, n, h2, 1real, i, j);
                assert(0real * d == 0real) by (nonlinear_arith);
                assert(1real * d == d);
            }
        }
    }
    lemma_is_tabulated(f.psi, n, cells);
}

proof fn lemma_after_stays(m: Model<real>, f: Flow<real>, k: int)
    requires
        sweep(f.psi, f.omega, m.n, m.h2(), m.sor, 0) == f.psi,
        sweep(f.psi, f.omega, m.n, m.h2(), m.sor, 1) == f.psi,
    ensures
        m.after(f.psi, f.omega, k) == f.psi,
    decreases k,
{
    if k > 0 {
        lemma_after_stays(m, f, k - 1);
    }
}

/// A streamfunction that solves the equation is left as it is by the iterative solver, which
/// finds so at its first test, after four sweeps.
pub proof fn law_solution_stays(m: Model<real>, f: Flow<real>)
    requires
        m.direct is None,
        m.n >= 2,
        f.psi.len() == m.n * m.n,
        closed_walls(f.psi, m.n),
        m.h != 0real,
        4 <= m.max_it,
        0real < m.tol,
        forall|i: int, j: int|
            #[trigger] interior(m.n, i, j) ==> laplacian(f.psi, m.n, m.h * m.h, i, j) == -at(
                f.omega,
                m.n,
                i,
                j,
            ),
    ensures
        m.poisson_psi(f) == f.psi,
        m.poisson_iterations(f) == 4,
        m.poisson_report(f) == 0real,
{
    lemma_nil();
    lemma_sweep_stays(m, f, 0);
    lemma_sweep_stays(m, f, 1);
    let n = m.n;
    assert forall|i: int, j: int| 0 <= i < n && 0 <= j < n implies #[trigger] at(f.psi, n, i, j)
        == grounded_cells(f.psi, n)(i, j) by {}
    lemma_is_tabulated(f.psi, n, grounded_cells(f.psi, n));
    assert(grounded(f.psi, n) == f.psi);
    lemma_after_stays(m, f, 3);
    lemma_after_stays(m, f, 4);
    let r = law_relative_change(m, f.psi, f.omega);
    let rel = m.relative_change(f.psi, f.omega);
    assert(r.0 == 0real) by {
        if r.0 != 0real {
            let (i, j) = choose|i: int, j: int|
                1 <= i < n - 1 && 1 <= j < n - 1 && #[trigger] changes(f.psi, f.psi, n)(i, j)
                    == Some(r.0);
            assert(changes(f.psi, f.psi, n)(i, j) == Some(0real));
        }
    }
    let scale = r.1;
    assert(rel == 0real) by (nonlinear_arith)
        requires
            rel * scale == 0real,
            0real < scale,
    ;
    assert(m.converged(f.psi, f.omega, 4));
    assert(!m.converged(f.psi, f.omega, 1) && !m.converged(f.psi, f.omega, 2) && !m.converged(
        f.psi,
        f.omega,
        3,
    ));
    reveal_with_fuel(Model::sweeps, 5);
    assert(m.sweeps(f.psi, f.omega, 3) == 4);
    assert(m.sweeps(f.psi, f.omega, 2) == 4);
    assert(m.sweeps(f.psi, f.omega, 1) == 4);
    assert(m.sweeps(f.psi, f.omega, 0) == 4);
}

/// A solve in the channel relaxes from the bounded streamfunction until it has settled, each
/// relaxation going on from the one before, and reports the relative change of its last sweep
/// with a number divisible by four, or zero where it made none. Returns the largest change and
/// the largest value of that sweep.
pub proof fn law_channel_poisson_report(m: ChannelModel<real>, f: Flow<real>) -> (r: (real, real))
    requires
        0 <= m.max_it,
    ensures
        ({
            let start = m.bounded(f.psi);
            let k = m.poisson_iterations(f);
            let last = k - k % 4;
            let (old, new) = (m.after(start, f.omega, last - 1), m.after(start, f.omega, last));
            &&& k == m.sweeps(start, f.omega, 0)
            &&& m.after(start, f.omega, 0) == start
            &&& m.after(start, f.omega, k + 1) == m.relax(m.after(start, f.omega, k), f.omega)
            &&& m.poisson_psi(f) == m.after(start, f.omega, k)
            &&& k < 4 ==> m.poisson_report(f) == 0real
            &&& k >= 4 ==> is_largest(0real, fluid_changes(m, old, new), m.nx, m.ny, r.0)
            &&& k >= 4 ==> is_largest(
                <real as crate::scalar::Arith>::tiny(),
                fluid_sizes(m, new),
                m.nx,
                m.ny,
                r.1,
            )
            &&& k >= 4 ==> 0real < r.1 && m.poisson_report(f) * r.1 == r.0
        }),
{
    lemma_nil();
    let start = m.bounded(f.psi);
    law_channel_sweeps(m, start, f.omega, 0);
    let k = m.poisson_iterations(f);
    if k >= 4 {
        law_channel_relative_change(m, m.after(start, f.omega, k - k % 4 - 1), f.omega)
    } else {
        (0real, 0real)
    }
}

} // verus!
