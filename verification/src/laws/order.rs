//! The largest of many numbers.
use crate::channel_model::ChannelModel;
use crate::grid::interior;
use crate::model::{node_speed, peak, row_speed, top_speed, Flow, Model};
use crate::plane::{largest, row_largest};
use crate::scalar::{larger, nil, ordered, proper, Arith};
use vstd::prelude::*;

verus! {

proof fn lemma_larger<A: Arith>(a: A, b: A)
    requires
        ordered::<A>(),
        proper(a),
    ensures
        proper(larger(a, b)),
        a <= larger(a, b),
        proper(b) ==> b <= larger(a, b),
{
    assert(a.spec_lt(b) ==> proper(b));
}

/// What is at most the first of two numbers is at most the larger.
proof fn lemma_still_below<A: Arith>(x: A, a: A, b: A)
    requires
        ordered::<A>(),
        proper(a),
        x <= a,
    ensures
        x <= larger(a, b),
{
    lemma_larger(a, b);
    assert(x.spec_le(a) && a.spec_le(larger(a, b)));
}

proof fn lemma_row_speed<A: Arith>(psi: Seq<A>, n: int, h: A, j: int, i: int, hi: int)
    requires
        ordered::<A>(),
    ensures
        proper(row_speed(psi, n, h, j, hi)),
        1 <= i < hi && proper(node_speed(psi, n, h, i, j)) ==> node_speed(psi, n, h, i, j)
            <= row_speed(psi, n, h, j, hi),
    decreases hi,
{
    if hi > 1 {
        lemma_row_speed(psi, n, h, j, i, hi - 1);
        let rest = row_speed(psi, n, h, j, hi - 1);
        let last = node_speed(psi, n, h, hi - 1, j);
        lemma_larger(rest, last);
        if 1 <= i < hi - 1 && proper(node_speed(psi, n, h, i, j)) {
            lemma_still_below(node_speed(psi, n, h, i, j), rest, last);
        }
    }
}

proof fn lemma_peak<A: Arith>(init: A, row: spec_fn(int) -> A, j: int, hi: int)
    requires
        ordered::<A>(),
        proper(init),
        forall|k: int| proper(#[trigger] row(k)),
    ensures
        proper(peak(init, row, hi)),
        1 <= j < hi ==> row(j) <= peak(init, row, hi),
    decreases hi,
{
    if hi > 1 {
        lemma_peak(init, row, j, hi - 1);
        let rest = peak(init, row, hi - 1);
        assert(proper(row(hi - 1)));
        lemma_larger(rest, row(hi - 1));
        if 1 <= j < hi - 1 {
            lemma_still_below(row(j), rest, row(hi - 1));
        }
    }
}

proof fn lemma_top_speed<A: Arith>(psi: Seq<A>, n: int, h: A, i: int, j: int)
    requires
        ordered::<A>(),
    ensures
        proper(top_speed(psi, n, h)),
        interior(n, i, j) && proper(node_speed(psi, n, h, i, j)) ==> node_speed(psi, n, h, i, j)
            <= top_speed(psi, n, h),
{
    let row = |j: int| row_speed(psi, n, h, j, n - 1);
    assert forall|k: int| proper(#[trigger] row(k)) by {
        lemma_row_speed(psi, n, h, k, i, n - 1);
    }
    lemma_peak(nil::<A>(), row, j, n - 1);
    lemma_row_speed(psi, n, h, j, i, n - 1);
    if interior(n, i, j) && proper(node_speed(psi, n, h, i, j)) {
        assert(node_speed(psi, n, h, i, j).spec_le(row(j)) && row(j).spec_le(top_speed(psi, n, h)));
    }
}

/// The largest speed is at least that of the lid.
pub proof fn law_lid_speed_bounded<A: Arith>(m: Model<A>, f: Flow<A>)
    requires
        ordered::<A>(),
    ensures
        proper(m.u_lid) ==> m.u_lid <= m.max_speed(f),
{
    lemma_top_speed(f.psi, m.n, m.h, 0, 0);
    lemma_larger(top_speed(f.psi, m.n, m.h), m.u_lid);
}

/// The largest speed is at least that of every node off the walls.
pub proof fn law_node_speed_bounded<A: Arith>(m: Model<A>, f: Flow<A>, i: int, j: int)
    requires
        ordered::<A>(),
        interior(m.n, i, j),
    ensures
        proper(node_speed(f.psi, m.n, m.h, i, j)) ==> node_speed(f.psi, m.n, m.h, i, j)
            <= m.max_speed(f),
{
    lemma_top_speed(f.psi, m.n, m.h, i, j);
    if proper(node_speed(f.psi, m.n, m.h, i, j)) {
        lemma_still_below(
            node_speed(f.psi, m.n, m.h, i, j),
            top_speed(f.psi, m.n, m.h),
            m.u_lid,
        );
    }
}

proof fn lemma_row_largest<A: Arith>(
    init: A,
    value: spec_fn(int, int) -> Option<A>,
    j: int,
    i: int,
    hi: int,
)
    requires
        ordered::<A>(),
        proper(init),
    ensures
        proper(row_largest(init, value, j, hi)),
        1 <= i < hi && value(i, j) is Some && proper(value(i, j)->0) ==> value(i, j)->0
            <= row_largest(init, value, j, hi),
    decreases hi,
{
    if hi > 1 {
        lemma_row_largest(init, value, j, i, hi - 1);
        let rest = row_largest(init, value, j, hi - 1);
        match value(hi - 1, j) {
            Some(v) => {
                lemma_larger(rest, v);
                if 1 <= i < hi - 1 && value(i, j) is Some && proper(value(i, j)->0) {
                    lemma_still_below(value(i, j)->0, rest, v);
                }
            },
            None => {},
        }
    }
}

proof fn lemma_largest<A: Arith>(
    init: A,
    value: spec_fn(int, int) -> Option<A>,
    nx: int,
    ny: int,
    i: int,
    j: int,
)
    requires
        ordered::<A>(),
        proper(init),
    ensures
        proper(largest(init, value, nx, ny)),
        1 <= i < nx - 1 && 1 <= j < ny - 1 && value(i, j) is Some && proper(value(i, j)->0)
            ==> value(i, j)->0 <= largest(init, value, nx, ny),
{
    let row = |j: int| row_largest(init, value, j, nx - 1);
    assert forall|k: int| proper(#[trigger] row(k)) by {
        lemma_row_largest(init, value, k, i, nx - 1);
    }
    lemma_peak(init, row, j, ny - 1);
    lemma_row_largest(init, value, j, i, nx - 1);
    if 1 <= i < nx - 1 && 1 <= j < ny - 1 && value(i, j) is Some && proper(value(i, j)->0) {
        assert((value(i, j)->0).spec_le(row(j)) && row(j).spec_le(largest(init, value, nx, ny)));
    }
}

/// In a channel the largest speed is at least that of the inflow and of every fluid node.
pub proof fn law_channel_speed_bounded<A: Arith>(
    m: ChannelModel<A>,
    f: Flow<A>,
    i: int,
    j: int,
)
    requires
        ordered::<A>(),
    ensures
        proper(m.u_in) ==> m.u_in <= m.max_speed(f),
        m.fluid(i, j) && proper(node_speed(f.psi, m.nx, m.h, i, j)) ==> node_speed(
            f.psi,
            m.nx,
            m.h,
            i,
            j,
        ) <= m.max_speed(f),
{
    let value = m.speed_value(f.psi);
    lemma_largest(nil::<A>(), value, m.nx, m.ny, i, j);
    lemma_larger(m.top_speed(f), m.u_in);
    if m.fluid(i, j) && proper(node_speed(f.psi, m.nx, m.h, i, j)) {
        lemma_still_below(node_speed(f.psi, m.nx, m.h, i, j), m.top_speed(f), m.u_in);
    }
}

} // verus!
