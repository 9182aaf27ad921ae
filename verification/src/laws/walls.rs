//! The streamfunction on the walls.
use crate::grid::{at, interior, lemma_same_table, lemma_tabulate, tabulate};
use crate::model::{
    blend_cells, closed_walls, grounded, grounded_cells, lid_vorticity, sweep, sweep_cells,
    wall_vorticity, walled_cells, Flow, Model,
};
use crate::poisson::{inner, with_inner_cells, Spectral};
use crate::scalar::{nil, Arith};
use vstd::prelude::*;

verus! {

proof fn lemma_sweep_keeps_walls<A: Arith>(
    psi: Seq<A>,
    omega: Seq<A>,
    n: int,
    h2: A,
    w: A,
    color: int,
)
    requires
        closed_walls(psi, n),
    ensures
        closed_walls(sweep(psi, omega, n, h2, w, color), n),
{
    let cells = sweep_cells(psi, omega, n, h2, w, color);
    assert forall|i: int, j: int|
        0 <= i < n && 0 <= j < n && !interior(n, i, j) implies #[trigger] at(
        tabulate(n, cells),
        n,
        i,
        j,
    ) == nil::<A>() by {
        lemma_tabulate(n, cells, i, j);
        assert(at(psi, n, i, j) == nil::<A>());
    }
}

proof fn lemma_after_keeps_walls<A: Arith>(m: Model<A>, psi: Seq<A>, omega: Seq<A>, k: int)
    requires
        closed_walls(psi, m.n),
    ensures
        closed_walls(m.after(psi, omega, k), m.n),
    decreases k,
{
    if k > 0 {
        lemma_after_keeps_walls(m, psi, omega, k - 1);
        let now = m.after(psi, omega, k - 1);
        lemma_sweep_keeps_walls(now, omega, m.n, m.h2(), m.sor, 0);
        let red = sweep(now, omega, m.n, m.h2(), m.sor, 0);
        lemma_sweep_keeps_walls(red, omega, m.n, m.h2(), m.sor, 1);
    }
}

/// The direct solver leaves the walls as they are.
pub proof fn lemma_solved_walls<A: Arith>(s: Spectral<A>, omega: Seq<A>, psi: Seq<A>)
    ensures
        forall|i: int, j: int|
            0 <= i < s.n && 0 <= j < s.n && !interior(s.n, i, j) ==> #[trigger] at(
                s.solved(omega, psi),
                s.n,
                i,
                j,
            ) == at(psi, s.n, i, j),
        closed_walls(psi, s.n) ==> closed_walls(s.solved(omega, psi), s.n),
{
    let n = s.n;
    let a = s.solved_inner(inner(omega, n));
    assert forall|i: int, j: int|
        0 <= i < n && 0 <= j < n && !interior(n, i, j) implies #[trigger] at(
        s.solved(omega, psi),
        n,
        i,
        j,
    ) == at(psi, n, i, j) by {
        lemma_tabulate(n, with_inner_cells(psi, a, n), i, j);
    }
    if closed_walls(psi, n) {
        assert forall|i: int, j: int|
            0 <= i < n && 0 <= j < n && !interior(n, i, j) implies #[trigger] at(
            s.solved(omega, psi),
            n,
            i,
            j,
        ) == nil::<A>() by {
            assert(at(s.solved(omega, psi), n, i, j) == at(psi, n, i, j));
        }
    }
}

/// The iterative solver leaves the streamfunction zero on the walls, whatever it was
/// before; the direct solver leaves the walls as they are.
pub proof fn law_poisson_walls<A: Arith>(m: Model<A>, f: Flow<A>)
    requires
        m.direct matches Some(s) ==> s.n == m.n,
    ensures
        m.direct is None ==> closed_walls(m.poisson_psi(f), m.n),
        m.direct is Some ==> forall|i: int, j: int|
            0 <= i < m.n && 0 <= j < m.n && !interior(m.n, i, j) ==> #[trigger] at(
                m.poisson_psi(f),
                m.n,
                i,
                j,
            ) == at(f.psi, m.n, i, j),
{
    let n = m.n;
    match m.direct {
        Some(s) => {
            lemma_solved_walls(s, f.omega, f.psi);
        },
        None => {
            let start = grounded(f.psi, n);
            assert forall|i: int, j: int|
                0 <= i < n && 0 <= j < n && !interior(n, i, j) implies #[trigger] at(start, n, i, j)
                == nil::<A>() by {
                lemma_tabulate(n, grounded_cells(f.psi, n), i, j);
            }
            lemma_after_keeps_walls(m, start, f.omega, m.poisson_iterations(f));
        },
    }
}

/// No flow ever passes through a wall: a step keeps the streamfunction zero there.
pub proof fn law_step_keeps_walls<A: Arith>(m: Model<A>, f: Flow<A>, dt: A)
    requires
        m.direct matches Some(s) ==> s.n == m.n,
        closed_walls(f.psi, m.n),
    ensures
        closed_walls(m.poisson_psi(f), m.n),
        closed_walls(m.step(f, dt).psi, m.n),
{
    lemma_prepared_walls(m, f);
    lemma_prepared_walls(m, m.after1(f, dt));
    lemma_prepared_walls(m, m.after2(f, dt));
}

proof fn lemma_prepared_walls<A: Arith>(m: Model<A>, f: Flow<A>)
    requires
        m.direct matches Some(s) ==> s.n == m.n,
        closed_walls(f.psi, m.n),
    ensures
        closed_walls(m.poisson_psi(f), m.n),
        closed_walls(m.prepared(f).psi, m.n),
{
    law_poisson_walls(m, f);
    match m.direct {
        Some(s) => {
            lemma_solved_walls(s, f.omega, f.psi);
        },
        None => {},
    }
}

/// Each wall node off the corners takes its vorticity from the node next to it inside, by
/// the formula of its wall, and a corner from the node next to it on its row. The nodes off
/// the walls and the streamfunction are left alone.
pub proof fn law_walls_take_from_next_node<A: Arith>(m: Model<A>, f: Flow<A>, k: int, l: int)
    requires
        1 <= k < m.n - 1,
        1 <= l < m.n - 1,
    ensures
        ({
            let n = m.n;
            let w = m.with_walls(f);
            &&& w.psi == f.psi
            &&& w.omega.len() == n * n
            &&& at(w.omega, n, k, 0) == wall_vorticity(at(f.psi, n, k, 1), m.h)
            &&& at(w.omega, n, k, n - 1) == lid_vorticity(at(f.psi, n, k, n - 2), m.h, m.u_lid)
            &&& at(w.omega, n, 0, k) == wall_vorticity(at(f.psi, n, 1, k), m.h)
            &&& at(w.omega, n, n - 1, k) == wall_vorticity(at(f.psi, n, n - 2, k), m.h)
            &&& at(w.omega, n, 0, 0) == wall_vorticity(at(f.psi, n, 1, 0), m.h)
            &&& at(w.omega, n, 0, n - 1) == wall_vorticity(at(f.psi, n, 1, n - 1), m.h)
            &&& at(w.omega, n, n - 1, 0) == wall_vorticity(at(f.psi, n, n - 2, 0), m.h)
            &&& at(w.omega, n, n - 1, n - 1) == wall_vorticity(at(f.psi, n, n - 2, n - 1), m.h)
            &&& at(w.omega, n, k, l) == at(f.omega, n, k, l)
        }),
{
    let n = m.n;
    let cells = walled_cells(f.psi, f.omega, n, m.h, m.u_lid);
    lemma_tabulate(n, cells, k, 0);
    lemma_tabulate(n, cells, k, n - 1);
    lemma_tabulate(n, cells, 0, k);
    lemma_tabulate(n, cells, n - 1, k);
    lemma_tabulate(n, cells, 0, 0);
    lemma_tabulate(n, cells, 0, n - 1);
    lemma_tabulate(n, cells, n - 1, 0);
    lemma_tabulate(n, cells, n - 1, n - 1);
    lemma_tabulate(n, cells, k, l);
}

/// Setting the walls twice is setting them once.
pub proof fn law_walls_set_once<A: Arith>(m: Model<A>, f: Flow<A>)
    requires
        m.n >= 2,
    ensures
        m.with_walls(m.with_walls(f)) == m.with_walls(f),
{
    let once = walled_cells(f.psi, f.omega, m.n, m.h, m.u_lid);
    let omega = m.with_walls(f).omega;
    let twice = walled_cells(f.psi, omega, m.n, m.h, m.u_lid);
    assert forall|i: int, j: int| 0 <= i < m.n && 0 <= j < m.n implies #[trigger] twice(i, j)
        == once(i, j) by {
        lemma_tabulate(m.n, once, i, j);
    }
    lemma_same_table(m.n, twice, once);
}

/// A step leaves the walls set: their vorticity fits the streamfunction that it ends with.
pub proof fn law_step_sets_walls<A: Arith>(m: Model<A>, f: Flow<A>, dt: A)
    requires
        m.n >= 2,
    ensures
        m.with_walls(m.step(f, dt)) == m.step(f, dt),
{
    let p = m.with_poisson(m.after2(f, dt));
    let last = m.with_walls(p);
    let walls = walled_cells(p.psi, p.omega, m.n, m.h, m.u_lid);
    let end = m.step(f, dt);
    let blend = blend_cells(
        A::ratio(1, 3),
        m.prepared(f).omega,
        A::ratio(2, 3),
        last.omega,
        m.rate(last),
        m.n,
        dt,
    );
    let again = walled_cells(end.psi, end.omega, m.n, m.h, m.u_lid);
    assert forall|i: int, j: int| 0 <= i < m.n && 0 <= j < m.n implies #[trigger] again(i, j)
        == blend(i, j) by {
        lemma_tabulate(m.n, walls, i, j);
        lemma_tabulate(m.n, blend, i, j);
    }
    lemma_same_table(m.n, again, blend);
}

/// The number of sweeps of the iterative solver: none is made after a successful test,
/// only every fourth is tested, and there are at most `max_it`.
pub proof fn law_sweeps<A: Arith>(m: Model<A>, psi: Seq<A>, omega: Seq<A>, k: int)
    requires
        0 <= k <= m.max_it,
    ensures
        k <= m.sweeps(psi, omega, k) <= m.max_it,
        forall|i: int|
            k < i < m.sweeps(psi, omega, k) ==> !#[trigger] m.converged(psi, omega, i),
        m.sweeps(psi, omega, k) < m.max_it ==> m.converged(
            psi,
            omega,
            m.sweeps(psi, omega, k),
        ),
    decreases m.max_it - k,
{
    if k < m.max_it && !m.converged(psi, omega, k + 1) {
        law_sweeps(m, psi, omega, k + 1);
    }
}

} // verus!
