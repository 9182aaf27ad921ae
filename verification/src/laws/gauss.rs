//! What a relaxation of both colours does, in exact arithmetic.
use crate::channel_model::ChannelModel;
use crate::grid::{at, lemma_tabulate};
use crate::model::{change, neighbours, sweep, sweep_cells, Model};
use crate::plane::lemma_table;
use vstd::prelude::*;

verus! {

/// The sum of the four values next to a node.
pub open spec fn around(f: Seq<real>, n: int, i: int, j: int) -> real {
    at(f, n, i - 1, j) + at(f, n, i + 1, j) + at(f, n, i, j - 1) + at(f, n, i, j + 1)
}

proof fn lemma_change(
    psi: Seq<real>,
    omega: Seq<real>,
    n: int,
    h2: real,
    w: real,
    i: int,
    j: int,
)
    ensures
        4real * change(psi, omega, n, h2, w, i, j) == w * (around(psi, n, i, j) + h2 * at(
            omega,
            n,
            i,
            j,
        ) - 4real * at(psi, n, i, j)),
{
    let q = 1int as real / 4int as real;
    let (s, c) = (neighbours(psi, n, i, j) + h2 * at(omega, n, i, j), at(psi, n, i, j));
    let d = s * q - c;
    assert(4real * d == s - 4real * c) by (nonlinear_arith)
        requires
            d == s * q - c,
            4real * q == 1real,
    ;
    assert(4real * (w * d) == w * (4real * d)) by (nonlinear_arith);
}

/// A relaxation moves each node off the walls by `sor` times the way to the value that solves
/// the Poisson equation there: first the nodes with odd `i + j` among the old values, then the
/// others among the new ones. The walls stay.
pub proof fn law_relaxation(m: Model<real>, psi: Seq<real>, omega: Seq<real>, i: int, j: int)
    requires
        0 <= i < m.n,
        0 <= j < m.n,
    ensures
        ({
            let n = m.n;
            let new = m.relax(psi, omega);
            let moved = at(new, n, i, j) - at(psi, n, i, j);
            let source = m.h * m.h * at(omega, n, i, j) - 4real * at(psi, n, i, j);
            let inside = 1 <= i < n - 1 && 1 <= j < n - 1;
            &&& !inside ==> moved == 0real
            &&& inside && (i + j) % 2 == 1 ==> 4real * moved == m.sor * (around(psi, n, i, j)
                + source)
            &&& inside && (i + j) % 2 == 0 ==> 4real * moved == m.sor * (around(new, n, i, j)
                + source)
        }),
{
    let (n, h2, w) = (m.n, m.h2(), m.sor);
    let red = sweep(psi, omega, n, h2, w, 0);
    let (first, second) = (
        sweep_cells(psi, omega, n, h2, w, 0),
        sweep_cells(red, omega, n, h2, w, 1),
    );
    lemma_tabulate(n, first, i, j);
    lemma_tabulate(n, second, i, j);
    if 1 <= i < n - 1 && 1 <= j < n - 1 {
        lemma_tabulate(n, second, i + 1, j);
        lemma_tabulate(n, second, i - 1, j);
        lemma_tabulate(n, second, i, j + 1);
        lemma_tabulate(n, second, i, j - 1);
        lemma_change(psi, omega, n, h2, w, i, j);
        lemma_change(red, omega, n, h2, w, i, j);
    }
}

/// The channel relaxes its fluid nodes in the same way; the walls, the inflow and the body
/// stay, and the outflow takes the column before it.
pub proof fn law_channel_relaxation(
    m: ChannelModel<real>,
    psi: Seq<real>,
    omega: Seq<real>,
    i: int,
    j: int,
)
    requires
        m.nx >= 3,
        0 <= i < m.nx,
        0 <= j < m.ny,
    ensures
        ({
            let n = m.nx;
            let new = m.relax(psi, omega);
            let moved = at(new, n, i, j) - at(psi, n, i, j);
            let source = m.h * m.h * at(omega, n, i, j) - 4real * at(psi, n, i, j);
            let fluid = 1 <= i < n - 1 && 1 <= j < m.ny - 1 && !at(m.mask, n, i, j);
            &&& !fluid && i < n - 1 ==> moved == 0real
            &&& i == n - 1 ==> at(new, n, i, j) == at(new, n, n - 2, j)
            &&& fluid && (i + j) % 2 == 1 ==> 4real * moved == m.sor * (around(psi, n, i, j)
                + source)
            &&& fluid && (i + j) % 2 == 0 && i < n - 2 ==> 4real * moved == m.sor * (around(
                new,
                n,
                i,
                j,
            ) + source)
            &&& fluid && (i + j) % 2 == 0 && i == n - 2 ==> 4real * moved == m.sor * (at(
                new,
                n,
                i - 1,
                j,
            ) + at(psi, n, i + 1, j) + at(new, n, i, j - 1) + at(new, n, i, j + 1) + source)
        }),
{
    let (nx, ny) = (m.nx, m.ny);
    let red = m.sweep(psi, omega, 0);
    let black = m.sweep(red, omega, 1);
    let first = m.sweep_cells(psi, omega, 0);
    let second = m.sweep_cells(red, omega, 1);
    let out = m.outflow_cells(black);
    lemma_table(nx, ny, first, i, j);
    lemma_table(nx, ny, second, i, j);
    lemma_table(nx, ny, out, i, j);
    lemma_table(nx, ny, out, nx - 2, j);
    if 1 <= i < nx - 1 && 1 <= j < ny - 1 {
        lemma_table(nx, ny, second, i + 1, j);
        lemma_table(nx, ny, second, i - 1, j);
        lemma_table(nx, ny, second, i, j + 1);
        lemma_table(nx, ny, second, i, j - 1);
        lemma_table(nx, ny, first, i + 1, j);
        lemma_table(nx, ny, out, i + 1, j);
        lemma_table(nx, ny, out, i - 1, j);
        lemma_table(nx, ny, out, i, j + 1);
        lemma_table(nx, ny, out, i, j - 1);
        lemma_change(psi, omega, nx, m.h2(), m.sor, i, j);
        lemma_change(red, omega, nx, m.h2(), m.sor, i, j);
    }
}

} // verus!
