//! When relaxation has settled, in exact arithmetic.
use crate::channel_model::ChannelModel;
use crate::grid::{at, lemma_tabulate};
use crate::laws::exact::lemma_nil;
use crate::laws::largest::{is_largest, lemma_both, lemma_largest, lemma_same_peak, size};
use crate::laws::street::law_channel_sweeps;
use crate::laws::walls::law_sweeps;
use crate::model::{
    change, coloured, colour_change, colour_size, relaxed, row_change, row_size, sweep,
    sweep_cells, Model,
};
use crate::plane::{largest, lemma_table, row_largest};
use crate::scalar::{magnitude, nil};
use vstd::prelude::*;

verus! {

/// What a relaxation changed at the nodes off the walls.
pub open spec fn changes(old: Seq<real>, new: Seq<real>, n: int) -> spec_fn(int, int) -> Option<
    real,
> {
    |i: int, j: int| Some(size(at(new, n, i, j) - at(old, n, i, j)))
}

/// How large the values at the nodes off the walls are.
pub open spec fn sizes(new: Seq<real>, n: int) -> spec_fn(int, int) -> Option<real> {
    |i: int, j: int| Some(size(at(new, n, i, j)))
}

/// `rel` is the largest change from `old` to `new` over the largest value of `new`, which
/// counts as a negligible number if it is less than that.
pub open spec fn is_relative_change(
    old: Seq<real>,
    new: Seq<real>,
    n: int,
    rel: real,
    most: real,
    scale: real,
) -> bool {
    &&& is_largest(0real, changes(old, new, n), n, n, most)
    &&& is_largest(<real as crate::scalar::Arith>::tiny(), sizes(new, n), n, n, scale)
    &&& 0real < scale
    &&& rel * scale == most
}

spec fn change_value(
    psi: Seq<real>,
    omega: Seq<real>,
    n: int,
    h2: real,
    w: real,
    color: int,
) -> spec_fn(int, int) -> Option<real> {
    |i: int, j: int|
        if coloured(n, color, i, j) {
            Some(magnitude(change(psi, omega, n, h2, w, i, j)))
        } else {
            None
        }
}

spec fn size_value(
    psi: Seq<real>,
    omega: Seq<real>,
    n: int,
    h2: real,
    w: real,
    color: int,
) -> spec_fn(int, int) -> Option<real> {
    |i: int, j: int|
        if coloured(n, color, i, j) {
            Some(magnitude(relaxed(psi, omega, n, h2, w, i, j)))
        } else {
            None
        }
}

proof fn lemma_rows(
    psi: Seq<real>,
    omega: Seq<real>,
    n: int,
    h2: real,
    w: real,
    color: int,
    j: int,
    hi: int,
)
    ensures
        row_change(psi, omega, n, h2, w, color, j, hi) == row_largest(
            nil::<real>(),
            change_value(psi, omega, n, h2, w, color),
            j,
            hi,
        ),
        row_size(psi, omega, n, h2, w, color, j, hi) == row_largest(
            <real as crate::scalar::Arith>::tiny(),
            size_value(psi, omega, n, h2, w, color),
            j,
            hi,
        ),
    decreases hi,
{
    if hi > 1 {
        lemma_rows(psi, omega, n, h2, w, color, j, hi - 1);
    }
}

proof fn lemma_colour(
    psi: Seq<real>,
    omega: Seq<real>,
    n: int,
    h2: real,
    w: real,
    color: int,
)
    ensures
        is_largest(
            0real,
            change_value(psi, omega, n, h2, w, color),
            n,
            n,
            colour_change(psi, omega, n, h2, w, color),
        ),
        is_largest(
            <real as crate::scalar::Arith>::tiny(),
            size_value(psi, omega, n, h2, w, color),
            n,
            n,
            colour_size(psi, omega, n, h2, w, color),
        ),
{
    lemma_nil();
    let tiny = <real as crate::scalar::Arith>::tiny();
    let cv = change_value(psi, omega, n, h2, w, color);
    let sv = size_value(psi, omega, n, h2, w, color);
    let a = |j: int| row_change(psi, omega, n, h2, w, color, j, n - 1);
    let b = |j: int| row_largest(nil::<real>(), cv, j, n - 1);
    let c = |j: int| row_size(psi, omega, n, h2, w, color, j, n - 1);
    let d = |j: int| row_largest(tiny, sv, j, n - 1);
    assert forall|j: int| 1 <= j < n - 1 implies #[trigger] a(j) == b(j) by {
        lemma_rows(psi, omega, n, h2, w, color, j, n - 1);
    }
    assert forall|j: int| 1 <= j < n - 1 implies #[trigger] c(j) == d(j) by {
        lemma_rows(psi, omega, n, h2, w, color, j, n - 1);
    }
    lemma_same_peak(nil::<real>(), a, b, n - 1);
    lemma_same_peak(tiny, c, d, n - 1);
    lemma_largest(nil::<real>(), cv, n, n);
    lemma_largest(tiny, sv, n, n);
}

proof fn lemma_tiny()
    ensures
        0real < <real as crate::scalar::Arith>::tiny(),
{
    let (t, d) = (
        <real as crate::scalar::Arith>::tiny(),
        1000000000000000000000000000000real,
    );
    assert(0real < t) by (nonlinear_arith)
        requires
            t == 1real / d,
            0real < d,
    ;
}

proof fn lemma_quotient(a: real, b: real)
    requires
        0real < b,
    ensures
        a / b * b == a,
{
    assert(a / b * b == a) by (nonlinear_arith)
        requires
            0real < b,
    ;
}

/// The relative change of a relaxation is the largest change over the largest value, both
/// over all nodes off the walls. Returns the two.
pub proof fn law_relative_change(m: Model<real>, psi: Seq<real>, omega: Seq<real>) -> (r: (
    real,
    real,
))
    ensures
        is_relative_change(
            psi,
            m.relax(psi, omega),
            m.n,
            m.relative_change(psi, omega),
            r.0,
            r.1,
        ),
{
    lemma_nil();
    lemma_tiny();
    let (n, h2, w) = (m.n, m.h2(), m.sor);
    let red = sweep(psi, omega, n, h2, w, 0);
    let new = sweep(red, omega, n, h2, w, 1);
    let tiny = <real as crate::scalar::Arith>::tiny();
    lemma_colour(psi, omega, n, h2, w, 0);
    lemma_colour(red, omega, n, h2, w, 1);
    let (c0, c1) = (
        change_value(psi, omega, n, h2, w, 0),
        change_value(red, omega, n, h2, w, 1),
    );
    let (s0, s1) = (size_value(psi, omega, n, h2, w, 0), size_value(red, omega, n, h2, w, 1));
    let (x, y) = (
        colour_change(psi, omega, n, h2, w, 0),
        colour_change(red, omega, n, h2, w, 1),
    );
    let (p, q) = (colour_size(psi, omega, n, h2, w, 0), colour_size(red, omega, n, h2, w, 1));
    assert forall|i: int, j: int| 1 <= i < n - 1 && 1 <= j < n - 1 implies #[trigger] changes(
        psi,
        new,
        n,
    )(i, j) == if c0(i, j) is Some {
        c0(i, j)
    } else {
        c1(i, j)
    } by {
        lemma_tabulate(n, sweep_cells(psi, omega, n, h2, w, 0), i, j);
        lemma_tabulate(n, sweep_cells(red, omega, n, h2, w, 1), i, j);
    }
    assert forall|i: int, j: int| 1 <= i < n - 1 && 1 <= j < n - 1 implies #[trigger] sizes(
        new,
        n,
    )(i, j) == if s0(i, j) is Some {
        s0(i, j)
    } else {
        s1(i, j)
    } by {
        lemma_tabulate(n, sweep_cells(psi, omega, n, h2, w, 0), i, j);
        lemma_tabulate(n, sweep_cells(red, omega, n, h2, w, 1), i, j);
    }
    lemma_both(0real, c0, c1, changes(psi, new, n), n, n, x, y);
    lemma_both(tiny, s0, s1, sizes(new, n), n, n, p, q);
    let most = if x < y {
        y
    } else {
        x
    };
    let scale = if p < q {
        q
    } else {
        p
    };
    lemma_quotient(most, scale);
    (most, scale)
}

/// A solve that stops before its last sweep has settled: the last relaxation changed every
/// node by less than the tolerance times the largest value `scale` of the field. It stops at
/// the first sweep with a number divisible by four of which this holds.
pub proof fn law_stops_when_settled(
    m: Model<real>,
    psi: Seq<real>,
    omega: Seq<real>,
    i: int,
    j: int,
) -> (scale: real)
    requires
        0 <= m.max_it,
        1 <= i < m.n - 1,
        1 <= j < m.n - 1,
    ensures
        ({
            let k = m.sweeps(psi, omega, 0);
            let (old, new) = (m.after(psi, omega, k - 1), m.after(psi, omega, k));
            &&& 0 <= k <= m.max_it
            &&& is_largest(<real as crate::scalar::Arith>::tiny(), sizes(new, m.n), m.n, m.n, scale)
                || k == m.max_it
            &&& k < m.max_it ==> k % 4 == 0 && size(at(new, m.n, i, j) - at(old, m.n, i, j))
                < m.tol * scale
        }),
{
    law_sweeps(m, psi, omega, 0);
    let k = m.sweeps(psi, omega, 0);
    if k < m.max_it {
        if k == 0 {
            assert(m.max_it > 0);
            assert(false) by {
                lemma_at_least_one(m, psi, omega);
            }
        }
        let old = m.after(psi, omega, k - 1);
        let r = law_relative_change(m, old, omega);
        assert(m.after(psi, omega, k) == m.relax(old, omega));
        assert(changes(old, m.relax(old, omega), m.n)(i, j) is Some);
        let (rel, tol, most, scale) = (m.relative_change(old, omega), m.tol, r.0, r.1);
        assert(rel < tol);
        assert(most < tol * scale) by (nonlinear_arith)
            requires
                rel * scale == most,
                rel < tol,
                0real < scale,
        ;
        r.1
    } else {
        0real
    }
}

proof fn lemma_at_least_one(m: Model<real>, psi: Seq<real>, omega: Seq<real>)
    requires
        m.max_it > 0,
    ensures
        m.sweeps(psi, omega, 0) > 0,
{
    law_sweeps(m, psi, omega, 1);
}

/// No sweep is made in vain: every earlier sweep with a number divisible by four left a
/// relative change that is not below the tolerance.
pub proof fn law_goes_on_until_settled(
    m: Model<real>,
    psi: Seq<real>,
    omega: Seq<real>,
    k: int,
) -> (r: (real, real))
    requires
        0 < k < m.sweeps(psi, omega, 0),
        k % 4 == 0,
        0 <= m.max_it,
    ensures
        is_largest(
            0real,
            changes(m.after(psi, omega, k - 1), m.after(psi, omega, k), m.n),
            m.n,
            m.n,
            r.0,
        ),
        is_largest(
            <real as crate::scalar::Arith>::tiny(),
            sizes(m.after(psi, omega, k), m.n),
            m.n,
            m.n,
            r.1,
        ),
        r.0 >= m.tol * r.1,
{
    law_sweeps(m, psi, omega, 0);
    assert(!m.converged(psi, omega, k));
    let old = m.after(psi, omega, k - 1);
    let r = law_relative_change(m, old, omega);
    let (rel, tol, most, scale) = (m.relative_change(old, omega), m.tol, r.0, r.1);
    assert(most >= tol * scale) by (nonlinear_arith)
        requires
            rel * scale == most,
            rel >= tol,
            0real < scale,
    ;
    r
}

/// What a relaxation of the channel changed at the fluid nodes.
pub open spec fn fluid_changes(
    m: ChannelModel<real>,
    old: Seq<real>,
    new: Seq<real>,
) -> spec_fn(int, int) -> Option<real> {
    |i: int, j: int|
        if at(m.mask, m.nx, i, j) {
            None
        } else {
            Some(size(at(new, m.nx, i, j) - at(old, m.nx, i, j)))
        }
}

/// How large the values at the fluid nodes of the channel are.
pub open spec fn fluid_sizes(m: ChannelModel<real>, new: Seq<real>) -> spec_fn(
    int,
    int,
) -> Option<real> {
    |i: int, j: int|
        if at(m.mask, m.nx, i, j) {
            None
        } else {
            Some(size(at(new, m.nx, i, j)))
        }
}

/// In the channel the relative change of a relaxation is the largest change over the largest
/// value, both over all fluid nodes off the rim. Returns the two.
pub proof fn law_channel_relative_change(
    m: ChannelModel<real>,
    psi: Seq<real>,
    omega: Seq<real>,
) -> (r: (real, real))
    ensures
        is_largest(0real, fluid_changes(m, psi, m.relax(psi, omega)), m.nx, m.ny, r.0),
        is_largest(
            <real as crate::scalar::Arith>::tiny(),
            fluid_sizes(m, m.relax(psi, omega)),
            m.nx,
            m.ny,
            r.1,
        ),
        0real < r.1,
        m.relative_change(psi, omega) * r.1 == r.0,
{
    lemma_nil();
    lemma_tiny();
    let (nx, ny) = (m.nx, m.ny);
    let tiny = <real as crate::scalar::Arith>::tiny();
    let red = m.sweep(psi, omega, 0);
    let black = m.sweep(red, omega, 1);
    let new = m.relax(psi, omega);
    let (c0, c1) = (m.change_value(psi, omega, 0), m.change_value(red, omega, 1));
    let (s0, s1) = (m.size_value(psi, omega, 0), m.size_value(red, omega, 1));
    lemma_largest(nil::<real>(), c0, nx, ny);
    lemma_largest(nil::<real>(), c1, nx, ny);
    lemma_largest(tiny, s0, nx, ny);
    lemma_largest(tiny, s1, nx, ny);
    let (x, y) = (largest(nil::<real>(), c0, nx, ny), largest(nil::<real>(), c1, nx, ny));
    let (p, q) = (largest(tiny, s0, nx, ny), largest(tiny, s1, nx, ny));
    assert forall|i: int, j: int| 1 <= i < nx - 1 && 1 <= j < ny - 1 implies at(new, nx, i, j)
        == #[trigger] at(black, nx, i, j) by {
        lemma_table(nx, ny, m.outflow_cells(black), i, j);
    }
    assert forall|i: int, j: int|
        1 <= i < nx - 1 && 1 <= j < ny - 1 implies #[trigger] fluid_changes(m, psi, new)(i, j)
        == if c0(i, j) is Some {
        c0(i, j)
    } else {
        c1(i, j)
    } by {
        lemma_table(nx, ny, m.sweep_cells(psi, omega, 0), i, j);
        lemma_table(nx, ny, m.sweep_cells(red, omega, 1), i, j);
        assert(at(new, nx, i, j) == at(black, nx, i, j));
    }
    assert forall|i: int, j: int|
        1 <= i < nx - 1 && 1 <= j < ny - 1 implies #[trigger] fluid_sizes(m, new)(i, j) == if s0(
        i,
        j,
    ) is Some {
        s0(i, j)
    } else {
        s1(i, j)
    } by {
        lemma_table(nx, ny, m.sweep_cells(psi, omega, 0), i, j);
        lemma_table(nx, ny, m.sweep_cells(red, omega, 1), i, j);
        assert(at(new, nx, i, j) == at(black, nx, i, j));
    }
    lemma_both(0real, c0, c1, fluid_changes(m, psi, new), nx, ny, x, y);
    lemma_both(tiny, s0, s1, fluid_sizes(m, new), nx, ny, p, q);
    let most = if x < y {
        y
    } else {
        x
    };
    let scale = if p < q {
        q
    } else {
        p
    };
    lemma_quotient(most, scale);
    (most, scale)
}

/// A solve in the channel stops at the first sweep with a number divisible by four whose
/// largest change is below the tolerance times the largest value; `r` holds the two of sweep
/// `k`.
pub proof fn law_channel_stops_when_settled(
    m: ChannelModel<real>,
    psi: Seq<real>,
    omega: Seq<real>,
    k: int,
) -> (r: (real, real))
    requires
        0 < k <= m.sweeps(psi, omega, 0),
        k % 4 == 0,
        0 <= m.max_it,
    ensures
        is_largest(
            0real,
            fluid_changes(m, m.after(psi, omega, k - 1), m.after(psi, omega, k)),
            m.nx,
            m.ny,
            r.0,
        ),
        is_largest(
            <real as crate::scalar::Arith>::tiny(),
            fluid_sizes(m, m.after(psi, omega, k)),
            m.nx,
            m.ny,
            r.1,
        ),
        k < m.sweeps(psi, omega, 0) ==> r.0 >= m.tol * r.1,
        k == m.sweeps(psi, omega, 0) < m.max_it ==> r.0 < m.tol * r.1,
        m.sweeps(psi, omega, 0) < m.max_it ==> m.sweeps(psi, omega, 0) % 4 == 0,
{
    law_channel_sweeps(m, psi, omega, 0);
    let s = m.sweeps(psi, omega, 0);
    let old = m.after(psi, omega, k - 1);
    let r = law_channel_relative_change(m, old, omega);
    let (rel, tol, most, scale) = (m.relative_change(old, omega), m.tol, r.0, r.1);
    if k < s {
        assert(!m.converged(psi, omega, k));
        assert(most >= tol * scale) by (nonlinear_arith)
            requires
                rel * scale == most,
                rel >= tol,
                0real < scale,
        ;
    }
    if k == s && s < m.max_it {
        assert(most < tol * scale) by (nonlinear_arith)
            requires
                rel * scale == most,
                rel < tol,
                0real < scale,
        ;
    }
    r
}

} // verus!
