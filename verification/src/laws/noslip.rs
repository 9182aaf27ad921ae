//! Thom's formula on the walls of the cavity, in exact arithmetic.
use crate::grid::at;
use crate::laws::exact::{lemma_nil, lemma_whole};
use crate::laws::walls::law_walls_take_from_next_node;
use crate::model::{lid_vorticity, wall_vorticity, Flow, Model};
use vstd::prelude::*;

verus! {

/// The formulas multiplied out.
pub proof fn lemma_thom(psi_in: real, h: real, u: real)
    requires
        h != 0real,
    ensures
        wall_vorticity(psi_in, h) * (h * h) == -(2real * psi_in),
        lid_vorticity(psi_in, h, u) * (h * h) == -(2real * psi_in) - 2real * u * h,
{
    lemma_whole(2);
    let h2 = h * h;
    assert(h2 != 0real) by (nonlinear_arith)
        requires
            h2 == h * h,
            h != 0real,
    ;
    let (a, b) = ((-2real) * psi_in, 2real * u);
    let (x, y) = (a / h2, b / h);
    assert(x * h2 == a) by (nonlinear_arith)
        requires
            x == a / h2,
            h2 != 0real,
    ;
    assert(y * h2 == b * h) by (nonlinear_arith)
        requires
            y == b / h,
            h2 == h * h,
            h != 0real,
    ;
    assert((x - y) * h2 == x * h2 - y * h2) by (nonlinear_arith);
}

/// A wall at rest has minus twice the streamfunction one node inside, over the square of
/// the distance; the lid has twice its speed over the distance less than that. With no flow
/// through the walls the corners have none.
pub proof fn law_wall_vorticity(m: Model<real>, f: Flow<real>, k: int)
    requires
        1 <= k < m.n - 1,
        m.h != 0real,
    ensures
        ({
            let (n, h2) = (m.n, m.h * m.h);
            let w = m.with_walls(f).omega;
            &&& at(w, n, k, 0) * h2 == -(2real * at(f.psi, n, k, 1))
            &&& at(w, n, 0, k) * h2 == -(2real * at(f.psi, n, 1, k))
            &&& at(w, n, n - 1, k) * h2 == -(2real * at(f.psi, n, n - 2, k))
            &&& at(w, n, k, n - 1) * h2 == -(2real * at(f.psi, n, k, n - 2)) - 2real * m.u_lid * m.h
            &&& at(f.psi, n, 1, 0) == 0real ==> at(w, n, 0, 0) == 0real
            &&& at(f.psi, n, n - 2, 0) == 0real ==> at(w, n, n - 1, 0) == 0real
            &&& at(f.psi, n, 1, n - 1) == 0real ==> at(w, n, 0, n - 1) == 0real
            &&& at(f.psi, n, n - 2, n - 1) == 0real ==> at(w, n, n - 1, n - 1) == 0real
        }),
{
    let n = m.n;
    law_walls_take_from_next_node(m, f, k, k);
    lemma_thom(at(f.psi, n, k, 1), m.h, m.u_lid);
    lemma_thom(at(f.psi, n, 1, k), m.h, m.u_lid);
    lemma_thom(at(f.psi, n, n - 2, k), m.h, m.u_lid);
    lemma_thom(at(f.psi, n, k, n - 2), m.h, m.u_lid);
    lemma_thom(0real, m.h, m.u_lid);
    let (z, h2) = (wall_vorticity(0real, m.h), m.h * m.h);
    lemma_nil();
    assert(z == 0real) by (nonlinear_arith)
        requires
            z * h2 == 0real,
            h2 == m.h * m.h,
            m.h != 0real,
    ;
}

} // verus!
