//! The boundary values of the channel, in exact arithmetic.
use crate::channel_model::ChannelModel;
use crate::grid::at;
use crate::laws::algebra::lemma_quotient;
use crate::laws::exact::{lemma_nil, lemma_whole};
use crate::laws::noslip::lemma_thom;
use crate::model::{velocity_u, velocity_v, wall_vorticity, Flow};
use crate::plane::lemma_table;
use vstd::prelude::*;

verus! {

/// Whether a node lies off the rim and off the body.
pub open spec fn is_fluid(m: ChannelModel<real>, i: int, j: int) -> bool {
    1 <= i < m.nx - 1 && 1 <= j < m.ny - 1 && !at(m.mask, m.nx, i, j)
}

/// How far the streamfunction of a neighbour lies above that of the body, if it is fluid.
pub open spec fn rise(m: ChannelModel<real>, psi: Seq<real>, i: int, j: int) -> real {
    if is_fluid(m, i, j) {
        at(psi, m.nx, i, j) - m.psi_body
    } else {
        0real
    }
}

/// One for a fluid neighbour.
pub open spec fn one(m: ChannelModel<real>, i: int, j: int) -> real {
    if is_fluid(m, i, j) {
        1real
    } else {
        0real
    }
}

/// The streamfunction that a solve starts from: the uniform stream `u y` at the inflow and on
/// the walls, the value of the body on the body, the old value in the fluid, and at the outflow
/// the column before it.
pub proof fn law_channel_bounds(m: ChannelModel<real>, psi: Seq<real>, i: int, j: int)
    requires
        m.nx >= 3,
        m.ny >= 2,
        0 <= i < m.nx,
        0 <= j < m.ny,
    ensures
        ({
            let b = m.bounded(psi);
            let here = at(b, m.nx, i, j);
            let y = j as real * m.h;
            &&& i == 0 || j == 0 || j == m.ny - 1 ==> here == m.u_in * y
            &&& 1 <= i < m.nx - 1 && 1 <= j < m.ny - 1 && at(m.mask, m.nx, i, j) ==> here
                == m.psi_body
            &&& is_fluid(m, i, j) ==> here == at(psi, m.nx, i, j)
            &&& i == m.nx - 1 ==> here == at(b, m.nx, m.nx - 2, j)
        }),
{
    lemma_whole(j);
    lemma_table(m.nx, m.ny, m.bounded_cells(psi), i, j);
    lemma_table(m.nx, m.ny, m.bounded_cells(psi), m.nx - 2, j);
}

/// The boundary vorticity: none at the inflow and on the walls, at the outflow that of the
/// column before it, in the fluid what it was. A node of the body has the mean of Thom's
/// formula over its fluid neighbours, and none where it has no such neighbour.
pub proof fn law_channel_walls(m: ChannelModel<real>, f: Flow<real>, i: int, j: int)
    requires
        m.nx >= 3,
        m.ny >= 2,
        m.h != 0real,
        0 <= i < m.nx,
        0 <= j < m.ny,
    ensures
        ({
            let w = m.with_walls(f).omega;
            let here = at(w, m.nx, i, j);
            let body = 1 <= i < m.nx - 1 && 1 <= j < m.ny - 1 && at(m.mask, m.nx, i, j);
            let count = one(m, i + 1, j) + one(m, i - 1, j) + one(m, i, j + 1) + one(m, i, j - 1);
            let rises = rise(m, f.psi, i + 1, j) + rise(m, f.psi, i - 1, j) + rise(
                m,
                f.psi,
                i,
                j + 1,
            ) + rise(m, f.psi, i, j - 1);
            &&& m.with_walls(f).psi == f.psi
            &&& i == 0 || j == 0 || j == m.ny - 1 ==> here == 0real
            &&& is_fluid(m, i, j) ==> here == at(f.omega, m.nx, i, j)
            &&& i == m.nx - 1 ==> here == at(w, m.nx, m.nx - 2, j)
            &&& body && count == 0real ==> here == 0real
            &&& body && count != 0real ==> (here * count) * (m.h * m.h) == -(2real * rises)
        }),
{
    lemma_nil();
    let cells = m.walled_cells(f.psi, f.omega);
    lemma_table(m.nx, m.ny, cells, i, j);
    lemma_table(m.nx, m.ny, cells, m.nx - 2, j);
    if 1 <= i < m.nx - 1 && 1 <= j < m.ny - 1 && at(m.mask, m.nx, i, j) {
        let k = m.exposure(i, j);
        let count = one(m, i + 1, j) + one(m, i - 1, j) + one(m, i, j + 1) + one(m, i, j - 1);
        let rises = rise(m, f.psi, i + 1, j) + rise(m, f.psi, i - 1, j) + rise(m, f.psi, i, j + 1)
            + rise(m, f.psi, i, j - 1);
        lemma_whole(k);
        assert(count == k as real);
        if k != 0 {
            lemma_thom(rises, m.h, 0real);
            lemma_quotient(wall_vorticity(rises, m.h), count);
        }
    }
}

/// The velocities of a frame of the channel: the speed of the inflow at the inflow, one-sided
/// differences along the walls, none in the body, central differences in the fluid, and at the
/// outflow the horizontal velocity of the column before it. There is no vertical velocity on
/// the rim and in the body.
pub proof fn law_channel_velocities(m: ChannelModel<real>, psi: Seq<real>, i: int, j: int)
    requires
        m.nx >= 3,
        m.ny >= 2,
        m.h != 0real,
        0 <= i < m.nx,
        0 <= j < m.ny,
    ensures
        ({
            let (u, v) = (m.u_cells(psi)(i, j), m.v_cells(psi)(i, j));
            let n = m.nx;
            let top = m.ny - 1;
            let along = 1 <= i < n - 1;
            &&& i == 0 ==> u == m.u_in
            &&& i == n - 1 ==> u == m.u_cells(psi)(n - 2, j)
            &&& along && j == 0 ==> u * m.h == at(psi, n, i, 1) - at(psi, n, i, 0)
            &&& along && j == top ==> u * m.h == at(psi, n, i, top) - at(psi, n, i, top - 1)
            &&& along && 1 <= j < top && at(m.mask, n, i, j) ==> u == 0real
            &&& is_fluid(m, i, j) ==> u == velocity_u(psi, n, m.h, i, j)
            &&& is_fluid(m, i, j) ==> v == velocity_v(psi, n, m.h, i, j)
            &&& !is_fluid(m, i, j) ==> v == 0real
        }),
{
    lemma_nil();
    let (n, top) = (m.nx, m.ny - 1);
    lemma_quotient(at(psi, n, i, 1) - at(psi, n, i, 0), m.h);
    lemma_quotient(at(psi, n, i, top) - at(psi, n, i, top - 1), m.h);
}

} // verus!
