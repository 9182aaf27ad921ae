//! The diagnostics in exact arithmetic: sums and largest values over the nodes.
use crate::channel_model::ChannelModel;
use crate::grid::at;
use crate::laws::exact::{is_root, lemma_nil};
use crate::laws::largest::{is_largest, lemma_largest, lemma_same_peak, size};
use crate::laws::sums::{lemma_sigma_same, sigma, sum_inside};
use crate::model::{
    circulation, enstrophy, kinetic_energy, laplacian, node_speed, residual, row_circulation,
    row_energy, row_enstrophy, row_residual, row_speed, top_speed, total, velocity_u, velocity_v,
    Flow, Model,
};
use crate::plane::{grand_total, row_largest, row_sum};
use crate::scalar::nil;
use vstd::prelude::*;

verus! {

/// The kinetic energy of a cell.
pub open spec fn cell_energy(psi: Seq<real>, n: int, h: real, i: int, j: int) -> real {
    let (u, v) = (velocity_u(psi, n, h, i, j), velocity_v(psi, n, h, i, j));
    (u * u + v * v) / 2real * (h * h)
}

/// The enstrophy of a cell.
pub open spec fn cell_enstrophy(omega: Seq<real>, n: int, h: real, i: int, j: int) -> real {
    at(omega, n, i, j) * at(omega, n, i, j) / 2real * (h * h)
}

/// The circulation of a cell.
pub open spec fn cell_circulation(omega: Seq<real>, n: int, h: real, i: int, j: int) -> real {
    at(omega, n, i, j) * (h * h)
}

proof fn lemma_half(x: real, y: real)
    ensures
        (1int as real / 2int as real) * x == x / 2real,
        (1int as real / 2int as real) * y * y == y * y / 2real,
{
    let q = 1int as real / 2int as real;
    assert(q * x == x / 2real) by (nonlinear_arith)
        requires
            2real * q == 1real,
    ;
    assert(q * y * y == y * y / 2real) by (nonlinear_arith)
        requires
            2real * q == 1real,
    ;
}

proof fn lemma_total(row: spec_fn(int) -> real, hi: int)
    ensures
        total(nil::<real>(), row, hi) == sigma(row, 1, hi),
    decreases hi,
{
    lemma_nil();
    if hi > 1 {
        lemma_total(row, hi - 1);
    }
}

proof fn lemma_rows(psi: Seq<real>, omega: Seq<real>, n: int, h: real, j: int, hi: int)
    ensures
        row_energy(psi, n, h, j, hi) == sigma(|i: int| cell_energy(psi, n, h, i, j), 1, hi),
        row_enstrophy(omega, n, h, j, hi) == sigma(
            |i: int| cell_enstrophy(omega, n, h, i, j),
            1,
            hi,
        ),
        row_circulation(omega, n, h, j, hi) == sigma(
            |i: int| cell_circulation(omega, n, h, i, j),
            1,
            hi,
        ),
    decreases hi,
{
    lemma_nil();
    if hi > 1 {
        lemma_rows(psi, omega, n, h, j, hi - 1);
        let (u, v) = (velocity_u(psi, n, h, hi - 1, j), velocity_v(psi, n, h, hi - 1, j));
        lemma_half(u * u + v * v, at(omega, n, hi - 1, j));
    }
}

/// The diagnostics of the cavity are the sums of the kinetic energy, the enstrophy and the
/// circulation of the cells off the walls.
pub proof fn law_diagnostics_are_sums(f: Flow<real>, n: int, h: real)
    ensures
        kinetic_energy(f.psi, n, h) == sum_inside(
            n,
            |i: int, j: int| cell_energy(f.psi, n, h, i, j),
        ),
        enstrophy(f.omega, n, h) == sum_inside(
            n,
            |i: int, j: int| cell_enstrophy(f.omega, n, h, i, j),
        ),
        circulation(f.omega, n, h) == sum_inside(
            n,
            |i: int, j: int| cell_circulation(f.omega, n, h, i, j),
        ),
{
    let e = |i: int, j: int| cell_energy(f.psi, n, h, i, j);
    let s = |i: int, j: int| cell_enstrophy(f.omega, n, h, i, j);
    let c = |i: int, j: int| cell_circulation(f.omega, n, h, i, j);
    let e1 = |j: int| row_energy(f.psi, n, h, j, n - 1);
    let s1 = |j: int| row_enstrophy(f.omega, n, h, j, n - 1);
    let c1 = |j: int| row_circulation(f.omega, n, h, j, n - 1);
    let e2 = |j: int| sigma(|i: int| e(i, j), 1, n - 1);
    let s2 = |j: int| sigma(|i: int| s(i, j), 1, n - 1);
    let c2 = |j: int| sigma(|i: int| c(i, j), 1, n - 1);
    lemma_total(e1, n - 1);
    lemma_total(s1, n - 1);
    lemma_total(c1, n - 1);
    assert forall|j: int| 1 <= j < n - 1 implies #[trigger] e1(j) == e2(j) by {
        lemma_rows(f.psi, f.omega, n, h, j, n - 1);
        lemma_sigma_same(
            |i: int| cell_energy(f.psi, n, h, i, j),
            |i: int| e(i, j),
            1,
            n - 1,
        );
    }
    assert forall|j: int| 1 <= j < n - 1 implies #[trigger] s1(j) == s2(j) by {
        lemma_rows(f.psi, f.omega, n, h, j, n - 1);
        lemma_sigma_same(
            |i: int| cell_enstrophy(f.omega, n, h, i, j),
            |i: int| s(i, j),
            1,
            n - 1,
        );
    }
    assert forall|j: int| 1 <= j < n - 1 implies #[trigger] c1(j) == c2(j) by {
        lemma_rows(f.psi, f.omega, n, h, j, n - 1);
        lemma_sigma_same(
            |i: int| cell_circulation(f.omega, n, h, i, j),
            |i: int| c(i, j),
            1,
            n - 1,
        );
    }
    lemma_sigma_same(e1, e2, 1, n - 1);
    lemma_sigma_same(s1, s2, 1, n - 1);
    lemma_sigma_same(c1, c2, 1, n - 1);
}

/// The speed at a node is the length of the velocity, where that length is a number.
pub proof fn law_speed_is_length(psi: Seq<real>, n: int, h: real, i: int, j: int, s: real)
    requires
        0real <= s,
        s * s == velocity_u(psi, n, h, i, j) * velocity_u(psi, n, h, i, j) + velocity_v(
            psi,
            n,
            h,
            i,
            j,
        ) * velocity_v(psi, n, h, i, j),
    ensures
        node_speed(psi, n, h, i, j) == s,
{
    let (u, v) = (velocity_u(psi, n, h, i, j), velocity_v(psi, n, h, i, j));
    let x = u * u + v * v;
    assert(is_root(x, s));
    let r = node_speed(psi, n, h, i, j);
    assert(is_root(x, r));
    assert(r == s) by (nonlinear_arith)
        requires
            r * r == s * s,
            0real <= r,
            0real <= s,
    ;
}

proof fn lemma_row_speed(psi: Seq<real>, n: int, h: real, j: int, hi: int)
    ensures
        row_speed(psi, n, h, j, hi) == row_largest(
            nil::<real>(),
            |i: int, j: int| Some(node_speed(psi, n, h, i, j)),
            j,
            hi,
        ),
    decreases hi,
{
    if hi > 1 {
        lemma_row_speed(psi, n, h, j, hi - 1);
    }
}

proof fn lemma_row_residual(
    psi: Seq<real>,
    omega: Seq<real>,
    n: int,
    h2: real,
    j: int,
    hi: int,
)
    ensures
        row_residual(psi, omega, n, h2, j, hi) == row_largest(
            nil::<real>(),
            |i: int, j: int| Some(size(laplacian(psi, n, h2, i, j) + at(omega, n, i, j))),
            j,
            hi,
        ),
    decreases hi,
{
    lemma_nil();
    if hi > 1 {
        lemma_row_residual(psi, omega, n, h2, j, hi - 1);
    }
}

/// The largest speed and the residual of the Poisson equation are the largest speed and the
/// largest residual of a node off the walls.
pub proof fn law_extremes_are_largest(
    psi: Seq<real>,
    omega: Seq<real>,
    n: int,
    h: real,
    h2: real,
)
    ensures
        is_largest(
            0real,
            |i: int, j: int| Some(node_speed(psi, n, h, i, j)),
            n,
            n,
            top_speed(psi, n, h),
        ),
        is_largest(
            0real,
            |i: int, j: int| Some(size(laplacian(psi, n, h2, i, j) + at(omega, n, i, j))),
            n,
            n,
            residual(psi, omega, n, h2),
        ),
{
    lemma_nil();
    let speed = |i: int, j: int| Some(node_speed(psi, n, h, i, j));
    let rest = |i: int, j: int| Some(size(laplacian(psi, n, h2, i, j) + at(omega, n, i, j)));
    let a = |j: int| row_speed(psi, n, h, j, n - 1);
    let b = |j: int| row_largest(nil::<real>(), speed, j, n - 1);
    let c = |j: int| row_residual(psi, omega, n, h2, j, n - 1);
    let d = |j: int| row_largest(nil::<real>(), rest, j, n - 1);
    assert forall|j: int| 1 <= j < n - 1 implies #[trigger] a(j) == b(j) by {
        lemma_row_speed(psi, n, h, j, n - 1);
    }
    assert forall|j: int| 1 <= j < n - 1 implies #[trigger] c(j) == d(j) by {
        lemma_row_residual(psi, omega, n, h2, j, n - 1);
    }
    lemma_same_peak(nil::<real>(), a, b, n - 1);
    lemma_same_peak(nil::<real>(), c, d, n - 1);
    lemma_largest(nil::<real>(), speed, n, n);
    lemma_largest(nil::<real>(), rest, n, n);
}

/// The largest speed of the cavity is that of the lid or that of the fastest node, whichever is
/// greater.
pub proof fn law_max_speed_attained(m: Model<real>, f: Flow<real>)
    ensures
        is_largest(
            if 0real < m.u_lid {
                m.u_lid
            } else {
                0real
            },
            |i: int, j: int| Some(node_speed(f.psi, m.n, m.h, i, j)),
            m.n,
            m.n,
            m.max_speed(f),
        ),
{
    lemma_nil();
    law_extremes_are_largest(f.psi, f.omega, m.n, m.h, 1real);
    let speed = |i: int, j: int| Some(node_speed(f.psi, m.n, m.h, i, j));
    let (top, all) = (top_speed(f.psi, m.n, m.h), m.max_speed(f));
    if top != 0real && all == top {
        let (i, j) = choose|i: int, j: int|
            1 <= i < m.n - 1 && 1 <= j < m.n - 1 && #[trigger] speed(i, j) == Some(top);
        assert(speed(i, j) == Some(all));
    }
}

/// The sum of `f(i, j)` over the fluid nodes off the rim of a channel.
pub open spec fn sum_fluid(m: ChannelModel<real>, f: spec_fn(int, int) -> real) -> real {
    sigma(
        |j: int|
            sigma(
                |i: int|
                    if at(m.mask, m.nx, i, j) {
                        0real
                    } else {
                        f(i, j)
                    },
                1,
                m.nx - 1,
            ),
        1,
        m.ny - 1,
    )
}

proof fn lemma_row_sum(
    m: ChannelModel<real>,
    value: spec_fn(int, int) -> Option<real>,
    f: spec_fn(int, int) -> real,
    j: int,
    hi: int,
)
    requires
        hi <= m.nx - 1,
        forall|i: int|
            1 <= i < hi ==> #[trigger] value(i, j) == if at(m.mask, m.nx, i, j) {
                None
            } else {
                Some(f(i, j))
            },
    ensures
        row_sum(value, j, hi) == sigma(
            |i: int|
                if at(m.mask, m.nx, i, j) {
                    0real
                } else {
                    f(i, j)
                },
            1,
            hi,
        ),
    decreases hi,
{
    lemma_nil();
    if hi > 1 {
        lemma_row_sum(m, value, f, j, hi - 1);
        assert(value(hi - 1, j) == if at(m.mask, m.nx, hi - 1, j) {
            None
        } else {
            Some(f(hi - 1, j))
        });
    }
}

proof fn lemma_grand_total(
    m: ChannelModel<real>,
    value: spec_fn(int, int) -> Option<real>,
    f: spec_fn(int, int) -> real,
)
    requires
        forall|i: int, j: int|
            1 <= i < m.nx - 1 && 1 <= j < m.ny - 1 ==> #[trigger] value(i, j) == if at(
                m.mask,
                m.nx,
                i,
                j,
            ) {
                None
            } else {
                Some(f(i, j))
            },
    ensures
        grand_total(value, m.nx, m.ny) == sum_fluid(m, f),
{
    let a = |j: int| row_sum(value, j, m.nx - 1);
    let b = |j: int|
        sigma(
            |i: int|
                if at(m.mask, m.nx, i, j) {
                    0real
                } else {
                    f(i, j)
                },
            1,
            m.nx - 1,
        );
    lemma_total(a, m.ny - 1);
    assert forall|j: int| 1 <= j < m.ny - 1 implies #[trigger] a(j) == b(j) by {
        lemma_row_sum(m, value, f, j, m.nx - 1);
    }
    lemma_sigma_same(a, b, 1, m.ny - 1);
}

/// The diagnostics of the channel are the sums over its fluid cells, and its largest speed is
/// the largest speed of a fluid node.
pub proof fn law_channel_diagnostics(m: ChannelModel<real>, f: Flow<real>)
    ensures
        m.kinetic_energy(f) == sum_fluid(
            m,
            |i: int, j: int| cell_energy(f.psi, m.nx, m.h, i, j),
        ),
        m.enstrophy(f) == sum_fluid(
            m,
            |i: int, j: int| cell_enstrophy(f.omega, m.nx, m.h, i, j),
        ),
        m.circulation(f) == sum_fluid(
            m,
            |i: int, j: int| cell_circulation(f.omega, m.nx, m.h, i, j),
        ),
        is_largest(
            0real,
            |i: int, j: int|
                if at(m.mask, m.nx, i, j) {
                    None
                } else {
                    Some(node_speed(f.psi, m.nx, m.h, i, j))
                },
            m.nx,
            m.ny,
            m.top_speed(f),
        ),
        m.max_speed(f) == if m.top_speed(f) < m.u_in {
            m.u_in
        } else {
            m.top_speed(f)
        },
{
    lemma_nil();
    let (n, h) = (m.nx, m.h);
    let e = |i: int, j: int| cell_energy(f.psi, n, h, i, j);
    let s = |i: int, j: int| cell_enstrophy(f.omega, n, h, i, j);
    let c = |i: int, j: int| cell_circulation(f.omega, n, h, i, j);
    assert forall|i: int, j: int|
        1 <= i < m.nx - 1 && 1 <= j < m.ny - 1 implies #[trigger] m.energy_value(f.psi)(i, j)
        == if at(m.mask, m.nx, i, j) {
        None
    } else {
        Some(e(i, j))
    } by {
        let (u, v) = (velocity_u(f.psi, n, h, i, j), velocity_v(f.psi, n, h, i, j));
        lemma_half(u * u + v * v, 0real);
    }
    assert forall|i: int, j: int|
        1 <= i < m.nx - 1 && 1 <= j < m.ny - 1 implies #[trigger] m.enstrophy_value(f.omega)(i, j)
        == if at(m.mask, m.nx, i, j) {
        None
    } else {
        Some(s(i, j))
    } by {
        lemma_half(0real, at(f.omega, n, i, j));
    }
    lemma_grand_total(m, m.energy_value(f.psi), e);
    lemma_grand_total(m, m.enstrophy_value(f.omega), s);
    lemma_grand_total(m, m.circulation_value(f.omega), c);
    let value = m.speed_value(f.psi);
    let plain = |i: int, j: int|
        if at(m.mask, m.nx, i, j) {
            None
        } else {
            Some(node_speed(f.psi, m.nx, m.h, i, j))
        };
    lemma_largest(nil::<real>(), value, m.nx, m.ny);
    let top = m.top_speed(f);
    assert forall|i: int, j: int|
        1 <= i < m.nx - 1 && 1 <= j < m.ny - 1 && #[trigger] plain(i, j) is Some implies plain(
        i,
        j,
    )->0 <= top by {
        assert(value(i, j) == plain(i, j));
    }
    if top != 0real {
        let (i, j) = choose|i: int, j: int|
            1 <= i < m.nx - 1 && 1 <= j < m.ny - 1 && #[trigger] value(i, j) == Some(top);
        assert(plain(i, j) == Some(top));
    }
}

} // verus!
