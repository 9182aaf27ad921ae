//! The Runge-Kutta step in exact arithmetic.
use crate::channel_model::ChannelModel;
use crate::grid::{at, interior, lemma_tabulate};
use crate::laws::walls::{law_walls_set_once, law_walls_take_from_next_node};
use crate::model::{blend_cells, blended, euler_cells, tendency, Flow, Model};
use crate::plane::lemma_table;
use crate::scalar::nil;
use vstd::prelude::*;

verus! {

/// The three stages with the rates `r0`, `r1` and `r2` from the value `w`: the weights of the
/// rates in the second stage are a quarter each, in the whole step a sixth, a sixth and two
/// thirds.
proof fn lemma_weights(w: real, dt: real, r0: real, r1: real, r2: real)
    ensures
        ({
            let w1 = w + dt * r0;
            let w2 = blended(
                <real as crate::scalar::Arith>::ratio(3, 4),
                w,
                <real as crate::scalar::Arith>::ratio(1, 4),
                w1,
                dt,
                r1,
            );
            let w3 = blended(
                <real as crate::scalar::Arith>::ratio(1, 3),
                w,
                <real as crate::scalar::Arith>::ratio(2, 3),
                w2,
                dt,
                r2,
            );
            &&& 4real * w2 == 4real * w + dt * (r0 + r1)
            &&& 6real * w3 == 6real * w + dt * (r0 + r1 + 4real * r2)
        }),
{
    let (a, b) = (3int as real / 4int as real, 1int as real / 4int as real);
    let (c, d) = (1int as real / 3int as real, 2int as real / 3int as real);
    let (x, y, z) = (dt * r0, dt * r1, dt * r2);
    let w1 = w + x;
    let w2 = a * w + b * (w1 + y);
    assert(dt * (r0 + r1) == x + y) by (nonlinear_arith)
        requires
            x == dt * r0,
            y == dt * r1,
    ;
    assert(dt * (r0 + r1 + 4real * r2) == x + y + 4real * z) by (nonlinear_arith)
        requires
            x == dt * r0,
            y == dt * r1,
            z == dt * r2,
    ;
    assert(4real * w2 == 4real * w + x + y) by (nonlinear_arith)
        requires
            w2 == a * w + b * (w + x + y),
            4real * a == 3real,
            4real * b == 1real,
    ;
    let w3 = c * w + d * (w2 + z);
    assert(3real * w3 == w + 2real * (w2 + z)) by (nonlinear_arith)
        requires
            w3 == c * w + d * (w2 + z),
            3real * c == 1real,
            3real * d == 2real,
    ;
}

/// What a stage starts from: the streamfunction of a Poisson solve, the vorticity as it was
/// off the walls, and on the walls what fits the new streamfunction.
pub proof fn law_stage_starts_prepared(m: Model<real>, f: Flow<real>, i: int, j: int)
    requires
        1 <= i < m.n - 1,
        1 <= j < m.n - 1,
    ensures
        m.prepared(f).psi == m.poisson_psi(f),
        at(m.prepared(f).omega, m.n, i, j) == at(f.omega, m.n, i, j),
        m.with_walls(m.prepared(f)) == m.prepared(f),
{
    law_walls_take_from_next_node(m, m.with_poisson(f), i, j);
    law_walls_set_once(m, m.with_poisson(f));
}

proof fn lemma_rate(m: Model<real>, p: Flow<real>, i: int, j: int)
    requires
        1 <= i < m.n - 1,
        1 <= j < m.n - 1,
    ensures
        at(m.rate(p), m.n, i, j) == tendency(p.psi, p.omega, m.n, m.h, m.nu, i, j),
{
    let cells = |i: int, j: int|
        if interior(m.n, i, j) {
            tendency(p.psi, p.omega, m.n, m.h, m.nu, i, j)
        } else {
            nil::<real>()
        };
    lemma_tabulate(m.n, cells, i, j);
}

/// A step is the third-order Runge-Kutta step of the rates of change at its three prepared
/// flows: the vorticity off the walls moves by the first rate to the second flow, by the mean
/// of the first two over half the step to the third, and in all by a sixth of the first two
/// and two thirds of the last.
pub proof fn law_step_is_runge_kutta(m: Model<real>, f: Flow<real>, dt: real, i: int, j: int)
    requires
        1 <= i < m.n - 1,
        1 <= j < m.n - 1,
    ensures
        ({
            let n = m.n;
            let (f1, f2) = (m.after1(f, dt), m.after2(f, dt));
            let (p0, p1, p2) = (m.prepared(f), m.prepared(f1), m.prepared(f2));
            let r0 = tendency(p0.psi, p0.omega, n, m.h, m.nu, i, j);
            let r1 = tendency(p1.psi, p1.omega, n, m.h, m.nu, i, j);
            let r2 = tendency(p2.psi, p2.omega, n, m.h, m.nu, i, j);
            let w = at(f.omega, n, i, j);
            &&& f1.psi == p0.psi
            &&& f2.psi == p1.psi
            &&& m.step(f, dt).psi == p2.psi
            &&& at(f1.omega, n, i, j) == w + dt * r0
            &&& 4real * at(f2.omega, n, i, j) == 4real * w + dt * (r0 + r1)
            &&& 6real * at(m.step(f, dt).omega, n, i, j) == 6real * w + dt * (r0 + r1 + 4real * r2)
            &&& m.step_iterations(f, dt) == m.poisson_iterations(f) + m.poisson_iterations(f1)
                + m.poisson_iterations(f2)
            &&& m.step_report(f, dt) == m.poisson_report(f2)
        }),
{
    let n = m.n;
    let (f1, f2) = (m.after1(f, dt), m.after2(f, dt));
    let (p0, p1, p2) = (m.prepared(f), m.prepared(f1), m.prepared(f2));
    law_stage_starts_prepared(m, f, i, j);
    law_stage_starts_prepared(m, f1, i, j);
    law_stage_starts_prepared(m, f2, i, j);
    lemma_rate(m, p0, i, j);
    lemma_rate(m, p1, i, j);
    lemma_rate(m, p2, i, j);
    lemma_tabulate(n, euler_cells(p0.omega, m.rate(p0), n, dt), i, j);
    lemma_tabulate(
        n,
        blend_cells(
            <real as crate::scalar::Arith>::ratio(3, 4),
            p0.omega,
            <real as crate::scalar::Arith>::ratio(1, 4),
            p1.omega,
            m.rate(p1),
            n,
            dt,
        ),
        i,
        j,
    );
    lemma_tabulate(
        n,
        blend_cells(
            <real as crate::scalar::Arith>::ratio(1, 3),
            p0.omega,
            <real as crate::scalar::Arith>::ratio(2, 3),
            p2.omega,
            m.rate(p2),
            n,
            dt,
        ),
        i,
        j,
    );
    lemma_weights(
        at(f.omega, n, i, j),
        dt,
        tendency(p0.psi, p0.omega, n, m.h, m.nu, i, j),
        tendency(p1.psi, p1.omega, n, m.h, m.nu, i, j),
        tendency(p2.psi, p2.omega, n, m.h, m.nu, i, j),
    );
}

/// The channel takes the same step at its fluid nodes.
pub proof fn law_channel_step_is_runge_kutta(
    m: ChannelModel<real>,
    f: Flow<real>,
    dt: real,
    i: int,
    j: int,
)
    requires
        1 <= i < m.nx - 1,
        1 <= j < m.ny - 1,
        !at(m.mask, m.nx, i, j),
    ensures
        ({
            let n = m.nx;
            let (f1, f2) = (m.after1(f, dt), m.after2(f, dt));
            let (p0, p1, p2) = (m.prepared(f), m.prepared(f1), m.prepared(f2));
            let r0 = tendency(p0.psi, p0.omega, n, m.h, m.nu, i, j);
            let r1 = tendency(p1.psi, p1.omega, n, m.h, m.nu, i, j);
            let r2 = tendency(p2.psi, p2.omega, n, m.h, m.nu, i, j);
            let w = at(f.omega, n, i, j);
            &&& p0.psi == m.poisson_psi(f)
            &&& p1.psi == m.poisson_psi(f1)
            &&& p2.psi == m.poisson_psi(f2)
            &&& f1.psi == p0.psi
            &&& f2.psi == p1.psi
            &&& m.step(f, dt).psi == p2.psi
            &&& at(p0.omega, n, i, j) == w
            &&& at(f1.omega, n, i, j) == w + dt * r0
            &&& 4real * at(f2.omega, n, i, j) == 4real * w + dt * (r0 + r1)
            &&& 6real * at(m.step(f, dt).omega, n, i, j) == 6real * w + dt * (r0 + r1 + 4real * r2)
            &&& m.step_iterations(f, dt) == m.poisson_iterations(f) + m.poisson_iterations(f1)
                + m.poisson_iterations(f2)
            &&& m.step_report(f, dt) == m.poisson_report(f2)
        }),
{
    let (nx, ny) = (m.nx, m.ny);
    let (f1, f2) = (m.after1(f, dt), m.after2(f, dt));
    let (p0, p1, p2) = (m.prepared(f), m.prepared(f1), m.prepared(f2));
    lemma_table(nx, ny, m.walled_cells(p0.psi, f.omega), i, j);
    lemma_table(nx, ny, m.walled_cells(p1.psi, f1.omega), i, j);
    lemma_table(nx, ny, m.walled_cells(p2.psi, f2.omega), i, j);
    lemma_table(nx, ny, m.euler_cells(p0, dt), i, j);
    lemma_table(
        nx,
        ny,
        m.blend_cells(
            <real as crate::scalar::Arith>::ratio(3, 4),
            p0.omega,
            <real as crate::scalar::Arith>::ratio(1, 4),
            p1,
            dt,
        ),
        i,
        j,
    );
    lemma_table(
        nx,
        ny,
        m.blend_cells(
            <real as crate::scalar::Arith>::ratio(1, 3),
            p0.omega,
            <real as crate::scalar::Arith>::ratio(2, 3),
            p2,
            dt,
        ),
        i,
        j,
    );
    lemma_weights(
        at(f.omega, nx, i, j),
        dt,
        tendency(p0.psi, p0.omega, nx, m.h, m.nu, i, j),
        tendency(p1.psi, p1.omega, nx, m.h, m.nu, i, j),
        tendency(p2.psi, p2.omega, nx, m.h, m.nu, i, j),
    );
}

} // verus!
