//! The channel as a whole.
use crate::channel::channel_frame;
use crate::channel_model::ChannelModel;
use crate::grid::at;
use crate::laws::output::lemma_bytes;
use crate::model::Flow;
use crate::plane::{is_plane, lemma_is_table, lemma_place, lemma_table, table};
use crate::scalar::{le_bytes, Arith, Scalar};
use crate::solver::bytes_of;
use vstd::prelude::*;

verus! {

/// The inflow carries the uniform stream, the walls and the body are streamlines, and at
/// the outflow nothing changes along the stream.
pub open spec fn guided<A: Arith>(m: ChannelModel<A>, psi: Seq<A>) -> bool {
    forall|i: int, j: int|
        0 <= i < m.nx && 0 <= j < m.ny ==> {
            let here = #[trigger] at(psi, m.nx, i, j);
            &&& i == 0 || j == 0 || j == m.ny - 1 ==> here == m.stream(j)
            &&& m.inside(i, j) && m.solid(i, j) ==> here == m.psi_body
            &&& i == m.nx - 1 ==> here == at(psi, m.nx, m.nx - 2, j)
        }
}

proof fn lemma_bounded_guides<A: Arith>(m: ChannelModel<A>, psi: Seq<A>)
    requires
        m.nx >= 3,
        m.ny >= 2,
    ensures
        guided(m, m.bounded(psi)),
{
    let cells = m.bounded_cells(psi);
    assert forall|i: int, j: int| 0 <= i < m.nx && 0 <= j < m.ny implies {
        let here = #[trigger] at(m.bounded(psi), m.nx, i, j);
        &&& i == 0 || j == 0 || j == m.ny - 1 ==> here == m.stream(j)
        &&& m.inside(i, j) && m.solid(i, j) ==> here == m.psi_body
        &&& i == m.nx - 1 ==> here == at(m.bounded(psi), m.nx, m.nx - 2, j)
    } by {
        lemma_table(m.nx, m.ny, cells, i, j);
        lemma_table(m.nx, m.ny, cells, m.nx - 2, j);
    }
}

proof fn lemma_relax_guides<A: Arith>(m: ChannelModel<A>, psi: Seq<A>, omega: Seq<A>)
    requires
        m.nx >= 3,
        m.ny >= 2,
        guided(m, psi),
    ensures
        guided(m, m.relax(psi, omega)),
{
    let red = m.sweep(psi, omega, 0);
    let black = m.sweep(red, omega, 1);
    let out = m.outflow(black);
    assert forall|i: int, j: int| 0 <= i < m.nx && 0 <= j < m.ny implies {
        let here = #[trigger] at(out, m.nx, i, j);
        &&& i == 0 || j == 0 || j == m.ny - 1 ==> here == m.stream(j)
        &&& m.inside(i, j) && m.solid(i, j) ==> here == m.psi_body
        &&& i == m.nx - 1 ==> here == at(out, m.nx, m.nx - 2, j)
    } by {
        lemma_table(m.nx, m.ny, m.outflow_cells(black), i, j);
        lemma_table(m.nx, m.ny, m.outflow_cells(black), m.nx - 2, j);
        lemma_table(m.nx, m.ny, m.sweep_cells(red, omega, 1), i, j);
        lemma_table(m.nx, m.ny, m.sweep_cells(red, omega, 1), m.nx - 2, j);
        lemma_table(m.nx, m.ny, m.sweep_cells(psi, omega, 0), i, j);
        lemma_table(m.nx, m.ny, m.sweep_cells(psi, omega, 0), m.nx - 2, j);
    }
}

proof fn lemma_after_guides<A: Arith>(m: ChannelModel<A>, psi: Seq<A>, omega: Seq<A>, k: int)
    requires
        m.nx >= 3,
        m.ny >= 2,
        guided(m, psi),
    ensures
        guided(m, m.after(psi, omega, k)),
    decreases k,
{
    if k > 0 {
        lemma_after_guides(m, psi, omega, k - 1);
        lemma_relax_guides(m, m.after(psi, omega, k - 1), omega);
    }
}

/// Whatever the streamfunction was before: after a Poisson solve and after a step the
/// inflow is the uniform stream, no fluid crosses the walls or the body, and nothing
/// changes across the outflow.
pub proof fn law_channel_is_guided<A: Arith>(m: ChannelModel<A>, f: Flow<A>, dt: A)
    requires
        m.nx >= 3,
        m.ny >= 2,
    ensures
        guided(m, m.poisson_psi(f)),
        guided(m, m.step(f, dt).psi),
{
    lemma_bounded_guides(m, f.psi);
    lemma_after_guides(m, m.bounded(f.psi), f.omega, m.poisson_iterations(f));
    let g = m.after2(f, dt);
    lemma_bounded_guides(m, g.psi);
    lemma_after_guides(m, m.bounded(g.psi), g.omega, m.poisson_iterations(g));
}

/// Setting the boundary vorticity of a channel twice is setting it once.
pub proof fn law_channel_walls_set_once<A: Arith>(m: ChannelModel<A>, f: Flow<A>)
    requires
        m.nx >= 3,
        m.ny >= 2,
    ensures
        m.with_walls(m.with_walls(f)) == m.with_walls(f),
{
    let once = m.walled_cells(f.psi, f.omega);
    let omega = m.with_walls(f).omega;
    let twice = m.walled_cells(f.psi, omega);
    assert forall|i: int, j: int| 0 <= i < m.nx && 0 <= j < m.ny implies #[trigger] at(
        omega,
        m.nx,
        i,
        j,
    ) == twice(i, j) by {
        lemma_table(m.nx, m.ny, once, i, j);
        lemma_table(m.nx, m.ny, once, m.nx - 2, j);
    }
    lemma_table(m.nx, m.ny, once, 0, 0);
    lemma_is_table(omega, m.nx, m.ny, twice);
}

/// The number of sweeps: none is made after a successful test, only every fourth is tested,
/// and there are at most `max_it`.
pub proof fn law_channel_sweeps<A: Arith>(
    m: ChannelModel<A>,
    psi: Seq<A>,
    omega: Seq<A>,
    k: int,
)
    requires
        0 <= k <= m.max_it,
    ensures
        k <= m.sweeps(psi, omega, k) <= m.max_it,
        forall|i: int| k < i < m.sweeps(psi, omega, k) ==> !#[trigger] m.converged(psi, omega, i),
        m.sweeps(psi, omega, k) < m.max_it ==> m.converged(psi, omega, m.sweeps(psi, omega, k)),
    decreases m.max_it - k,
{
    if k < m.max_it && !m.converged(psi, omega, k + 1) {
        law_channel_sweeps(m, psi, omega, k + 1);
    }
}

/// A frame of the channel holds four blocks of `nx * ny` numbers of eight bytes: vorticity,
/// streamfunction and the two velocities, each row by row.
pub proof fn law_channel_frame_layout<T: Scalar>(m: ChannelModel<T>, f: Flow<T>, i: int, j: int)
    requires
        is_plane(f.omega, m.nx, m.ny),
        is_plane(f.psi, m.nx, m.ny),
        0 <= i < m.nx,
        0 <= j < m.ny,
    ensures
        ({
            let bytes = channel_frame(m, f);
            let size = m.nx * m.ny;
            let k = j * m.nx + i;
            &&& bytes.len() == 32 * size
            &&& bytes.subrange(8 * k, 8 * k + 8) == le_bytes(at(f.omega, m.nx, i, j))
            &&& bytes.subrange(8 * (size + k), 8 * (size + k) + 8) == le_bytes(
                at(f.psi, m.nx, i, j),
            )
            &&& bytes.subrange(8 * (2 * size + k), 8 * (2 * size + k) + 8) == le_bytes(
                m.u_cells(f.psi)(i, j),
            )
            &&& bytes.subrange(8 * (3 * size + k), 8 * (3 * size + k) + 8) == le_bytes(
                m.v_cells(f.psi)(i, j),
            )
        }),
{
    let size = m.nx * m.ny;
    let k = j * m.nx + i;
    lemma_place(m.nx, m.ny, i, j);
    let u = table(m.nx, m.ny, m.u_cells(f.psi));
    let v = table(m.nx, m.ny, m.v_cells(f.psi));
    lemma_table(m.nx, m.ny, m.u_cells(f.psi), i, j);
    lemma_table(m.nx, m.ny, m.v_cells(f.psi), i, j);
    lemma_bytes(f.omega, k);
    lemma_bytes(f.psi, k);
    lemma_bytes(u, k);
    lemma_bytes(v, k);
    let (b0, b1, b2, b3) = (bytes_of(f.omega), bytes_of(f.psi), bytes_of(u), bytes_of(v));
    let all = channel_frame(m, f);
    assert(all.subrange(8 * k, 8 * k + 8) =~= b0.subrange(8 * k, 8 * k + 8));
    assert(all.subrange(8 * (size + k), 8 * (size + k) + 8) =~= b1.subrange(8 * k, 8 * k + 8));
    assert(all.subrange(8 * (2 * size + k), 8 * (2 * size + k) + 8) =~= b2.subrange(
        8 * k,
        8 * k + 8,
    ));
    assert(all.subrange(8 * (3 * size + k), 8 * (3 * size + k) + 8) =~= b3.subrange(
        8 * k,
        8 * k + 8,
    ));
}

} // verus!
