//! The uniform stream in exact arithmetic.
use crate::channel::stream_cells;
use crate::channel_model::ChannelModel;
use crate::grid::at;
use crate::laws::algebra::{lemma_times_minus, lemma_times_plus};
use crate::laws::exact::{lemma_nil, lemma_whole};
use crate::model::{arakawa, change, laplacian, neighbours, relaxed, tendency, Flow};
use crate::plane::{lemma_is_table, lemma_table, table};
use vstd::prelude::*;

verus! {

/// A channel without an obstacle, and the uniform stream in it.
pub open spec fn is_free_stream(m: ChannelModel<real>, f: Flow<real>) -> bool {
    &&& m.nx >= 3
    &&& m.ny >= 2
    &&& m.h != 0real
    &&& forall|i: int, j: int| 0 <= i < m.nx && 0 <= j < m.ny ==> !#[trigger] m.solid(i, j)
    &&& f.psi == table(m.nx, m.ny, stream_cells(m))
    &&& f.omega == table(m.nx, m.ny, |i: int, j: int| 0real)
}

proof fn lemma_fields(m: ChannelModel<real>, f: Flow<real>, i: int, j: int)
    requires
        is_free_stream(m, f),
        0 <= i < m.nx,
        0 <= j < m.ny,
    ensures
        at(f.psi, m.nx, i, j) == m.stream(j),
        at(f.omega, m.nx, i, j) == 0real,
        f.psi.len() == m.nx * m.ny,
        f.omega.len() == m.nx * m.ny,
{
    lemma_table(m.nx, m.ny, stream_cells(m), i, j);
    lemma_table(m.nx, m.ny, |i: int, j: int| 0real, i, j);
}

/// The stream is linear across the channel.
proof fn lemma_linear(m: ChannelModel<real>, j: int)
    ensures
        m.stream(j + 1) + m.stream(j - 1) == 2real * m.stream(j),
{
    lemma_whole(j);
    lemma_whole(j + 1);
    lemma_whole(j - 1);
    let (u, h, y) = (m.u_in, m.h, j as real);
    assert((y + 1real) * h == y * h + h) by (nonlinear_arith);
    assert((y - 1real) * h == y * h - h) by (nonlinear_arith);
    lemma_times_plus(u, y * h, h);
    lemma_times_minus(u, y * h, h);
}

/// At a node of the stream there is nothing to relax and nothing to advect or diffuse.
proof fn lemma_at_rest(m: ChannelModel<real>, f: Flow<real>, i: int, j: int)
    requires
        is_free_stream(m, f),
        m.inside(i, j),
    ensures
        relaxed(f.psi, f.omega, m.nx, m.h2(), m.sor, i, j) == m.stream(j),
        tendency(f.psi, f.omega, m.nx, m.h, m.nu, i, j) == 0real,
{
    lemma_nil();
    lemma_whole(4);
    lemma_fields(m, f, i, j);
    lemma_fields(m, f, i + 1, j);
    lemma_fields(m, f, i - 1, j);
    lemma_fields(m, f, i, j + 1);
    lemma_fields(m, f, i, j - 1);
    lemma_fields(m, f, i + 1, j + 1);
    lemma_fields(m, f, i + 1, j - 1);
    lemma_fields(m, f, i - 1, j + 1);
    lemma_fields(m, f, i - 1, j - 1);
    lemma_linear(m, j);
    let c = m.stream(j);
    let (h2, w) = (m.h2(), m.sor);
    let quarter = 1int as real / 4int as real;
    assert(neighbours(f.psi, m.nx, i, j) == 4real * c);
    assert(h2 * 0real == 0real) by (nonlinear_arith);
    assert((4real * c + 0real) * quarter - c == 0real) by (nonlinear_arith)
        requires
            4real * quarter == 1real,
    ;
    assert(w * 0real == 0real) by (nonlinear_arith);
    assert(change(f.psi, f.omega, m.nx, h2, w, i, j) == 0real);
    let (up, down) = (m.stream(j + 1), m.stream(j - 1));
    let d = up - down;
    lemma_zero(c);
    lemma_zero(c - c);
    lemma_zero(d);
    lemma_zero(up);
    lemma_zero(down);
    lemma_zero(up - up);
    assert(arakawa(f.psi, f.omega, m.nx, i, j) == 0real);
    assert(h2 != 0real) by (nonlinear_arith)
        requires
            h2 == m.h * m.h,
            m.h != 0real,
    ;
    assert(0real / h2 == 0real) by (nonlinear_arith)
        requires
            h2 != 0real,
    ;
    assert(laplacian(f.omega, m.nx, h2, i, j) == 0real);
    let (q, nu) = (1int as real / 1int as real / (12int as real / 1int as real * h2), m.nu);
    lemma_zero(q);
    lemma_zero(nu);
}

proof fn lemma_zero(x: real)
    ensures
        x * 0real == 0real,
        0real * x == 0real,
{
    assert(x * 0real == 0real) by (nonlinear_arith);
    assert(0real * x == 0real) by (nonlinear_arith);
}

proof fn lemma_after(m: ChannelModel<real>, f: Flow<real>, k: int)
    requires
        is_free_stream(m, f),
    ensures
        m.after(f.psi, f.omega, k) == f.psi,
    decreases k,
{
    if k > 0 {
        lemma_after(m, f, k - 1);
        lemma_sweep(m, f, 0);
        lemma_sweep(m, f, 1);
        assert forall|i: int, j: int| 0 <= i < m.nx && 0 <= j < m.ny implies #[trigger] at(
            f.psi,
            m.nx,
            i,
            j,
        ) == m.outflow_cells(f.psi)(i, j) by {
            lemma_fields(m, f, i, j);
            lemma_fields(m, f, m.nx - 2, j);
        }
        lemma_fields(m, f, 0, 0);
        lemma_is_table(f.psi, m.nx, m.ny, m.outflow_cells(f.psi));
    }
}

proof fn lemma_sweep(m: ChannelModel<real>, f: Flow<real>, color: int)
    requires
        is_free_stream(m, f),
    ensures
        m.sweep(f.psi, f.omega, color) == f.psi,
{
    assert forall|i: int, j: int| 0 <= i < m.nx && 0 <= j < m.ny implies #[trigger] at(
        f.psi,
        m.nx,
        i,
        j,
    ) == m.sweep_cells(f.psi, f.omega, color)(i, j) by {
        lemma_fields(m, f, i, j);
        if m.inside(i, j) {
            lemma_at_rest(m, f, i, j);
        }
    }
    lemma_fields(m, f, 0, 0);
    lemma_is_table(f.psi, m.nx, m.ny, m.sweep_cells(f.psi, f.omega, color));
}

proof fn lemma_prepared(m: ChannelModel<real>, f: Flow<real>)
    requires
        is_free_stream(m, f),
    ensures
        m.prepared(f) == f,
{
    lemma_nil();
    lemma_fields(m, f, 0, 0);
    assert forall|i: int, j: int| 0 <= i < m.nx && 0 <= j < m.ny implies #[trigger] at(
        f.psi,
        m.nx,
        i,
        j,
    ) == m.bounded_cells(f.psi)(i, j) by {
        lemma_fields(m, f, i, j);
        lemma_fields(m, f, m.nx - 2, j);
        assert(!m.solid(i, j) && !m.solid(m.nx - 2, j));
    }
    lemma_is_table(f.psi, m.nx, m.ny, m.bounded_cells(f.psi));
    lemma_after(m, f, m.poisson_iterations(f));
    assert forall|i: int, j: int| 0 <= i < m.nx && 0 <= j < m.ny implies #[trigger] at(
        f.omega,
        m.nx,
        i,
        j,
    ) == m.walled_cells(f.psi, f.omega)(i, j) by {
        lemma_fields(m, f, i, j);
        lemma_fields(m, f, m.nx - 2, j);
        assert(!m.solid(i, j) && !m.solid(m.nx - 2, j));
    }
    lemma_is_table(f.omega, m.nx, m.ny, m.walled_cells(f.psi, f.omega));
}

proof fn lemma_stage(m: ChannelModel<real>, f: Flow<real>, a: real, b: real, dt: real)
    requires
        is_free_stream(m, f),
    ensures
        m.stage(a, f.omega, b, f, dt) == f,
        table(m.nx, m.ny, m.euler_cells(f, dt)) == f.omega,
{
    lemma_fields(m, f, 0, 0);
    assert forall|i: int, j: int| 0 <= i < m.nx && 0 <= j < m.ny implies at(f.omega, m.nx, i, j)
        == m.blend_cells(a, f.omega, b, f, dt)(i, j) && #[trigger] at(f.omega, m.nx, i, j)
        == m.euler_cells(f, dt)(i, j) by {
        lemma_fields(m, f, i, j);
        if m.inside(i, j) {
            lemma_at_rest(m, f, i, j);
            lemma_zero(dt);
            lemma_zero(a);
            lemma_zero(b);
        }
    }
    lemma_is_table(f.omega, m.nx, m.ny, m.blend_cells(a, f.omega, b, f, dt));
    lemma_is_table(f.omega, m.nx, m.ny, m.euler_cells(f, dt));
}

/// Without an obstacle the uniform stream flows on unchanged: inflow, walls and outflow do
/// not disturb it.
pub proof fn law_free_stream_stays(m: ChannelModel<real>, f: Flow<real>, dt: real)
    requires
        is_free_stream(m, f),
    ensures
        m.step(f, dt) == f,
{
    lemma_prepared(m, f);
    lemma_stage(m, f, 3int as real / 4int as real, 1int as real / 4int as real, dt);
    lemma_stage(m, f, 1int as real / 3int as real, 2int as real / 3int as real, dt);
    assert(m.after1(f, dt) == f);
    assert(m.after2(f, dt) == f);
}

} // verus!
