//! The Poisson equation, relaxation and the Runge-Kutta stages in exact arithmetic.
use crate::grid::{at, interior, is_field, lemma_is_tabulated, lemma_tabulate, tabulate};
use crate::laws::algebra::{lemma_commute, lemma_minus_times, lemma_times_plus};
use crate::laws::exact::lemma_whole;
use crate::model::{
    blend_cells, blended, change, euler_cells, laplacian, lid_vorticity, neighbours, tendency,
    velocity_u, velocity_v, wall_vorticity, Flow, Model,
};
use crate::scalar::nil;
use vstd::prelude::*;

verus! {

/// Relaxation leaves a node alone exactly where the Poisson equation holds at the node:
/// the fields that it settles at are the solutions.
pub proof fn law_settled_where_solved(
    psi: Seq<real>,
    omega: Seq<real>,
    n: int,
    h2: real,
    w: real,
    i: int,
    j: int,
)
    requires
        h2 != 0real,
        w != 0real,
    ensures
        change(psi, omega, n, h2, w, i, j) == 0real <==> laplacian(psi, n, h2, i, j) == -at(
            omega,
            n,
            i,
            j,
        ),
{
    let nb = neighbours(psi, n, i, j);
    let c = at(psi, n, i, j);
    let om = at(omega, n, i, j);
    let quarter = 1int as real / 4int as real;
    let four = 4int as real / 1int as real;
    assert(4real * quarter == 1real && four == 4real);
    assert(change(psi, omega, n, h2, w, i, j) == w * ((nb + h2 * om) * quarter - c));
    assert(laplacian(psi, n, h2, i, j) == (nb - four * c) / h2);
    let d = (nb + h2 * om) * quarter - c;
    assert(w * d == 0real <==> d == 0real) by (nonlinear_arith)
        requires
            w != 0real,
    ;
    let q = (nb - four * c) / h2;
    assert(q * h2 == nb - four * c) by (nonlinear_arith)
        requires
            h2 != 0real,
            q == (nb - four * c) / h2,
    ;
    assert(4real * d == q * h2 + h2 * om) by (nonlinear_arith)
        requires
            d == (nb + h2 * om) * quarter - c,
            4real * quarter == 1real,
            four == 4real,
            q * h2 == nb - four * c,
    ;
    assert(q * h2 + h2 * om == 0real <==> q == -om) by (nonlinear_arith)
        requires
            h2 != 0real,
    ;
}

/// The later stages of a step are weighted means: what holds of the start and of the
/// Euler step as a range holds of the stage. Strong stability of the Euler step thus
/// carries over to the whole step.
pub proof fn law_stage_is_a_mean(
    start: real,
    now: real,
    dt: real,
    rate: real,
    lo: real,
    hi: real,
)
    requires
        lo <= start <= hi,
        lo <= now + dt * rate <= hi,
    ensures
        lo <= blended(
            <real as crate::scalar::Arith>::ratio(3, 4),
            start,
            <real as crate::scalar::Arith>::ratio(1, 4),
            now,
            dt,
            rate,
        ) <= hi,
        lo <= blended(
            <real as crate::scalar::Arith>::ratio(1, 3),
            start,
            <real as crate::scalar::Arith>::ratio(2, 3),
            now,
            dt,
            rate,
        ) <= hi,
{
    let e = now + dt * rate;
    let (a, b) = (3int as real / 4int as real, 1int as real / 4int as real);
    let (c, d) = (1int as real / 3int as real, 2int as real / 3int as real);
    assert(lo <= a * start + b * e <= hi && lo <= c * start + d * e <= hi) by (nonlinear_arith)
        requires
            lo <= start <= hi,
            lo <= e <= hi,
            4real * a == 3real,
            4real * b == 1real,
            3real * c == 1real,
            3real * d == 2real,
    ;
}

/// The flow is incompressible: what the central differences of the velocities at the
/// neighbours of a node add up to is zero.
pub proof fn law_incompressible(psi: Seq<real>, n: int, h: real, i: int, j: int)
    requires
        h != 0real,
    ensures
        (velocity_u(psi, n, h, i + 1, j) - velocity_u(psi, n, h, i - 1, j)) + (velocity_v(
            psi,
            n,
            h,
            i,
            j + 1,
        ) - velocity_v(psi, n, h, i, j - 1)) == 0real,
{
    lemma_whole(2);
    let d = 2real * h;
    let (ne, nw, se, sw) = (
        at(psi, n, i + 1, j + 1),
        at(psi, n, i - 1, j + 1),
        at(psi, n, i + 1, j - 1),
        at(psi, n, i - 1, j - 1),
    );
    let (a, b, c, e) = (ne - se, nw - sw, -(ne - nw), -(se - sw));
    let (qa, qb, qc, qe) = (a / d, b / d, c / d, e / d);
    assert(d != 0real);
    lemma_quotient(a, d);
    lemma_quotient(b, d);
    lemma_quotient(c, d);
    lemma_quotient(e, d);
    let s = (qa - qb) + (qc - qe);
    lemma_minus_times(qa, qb, d);
    lemma_minus_times(qc, qe, d);
    lemma_commute(s, d);
    lemma_times_plus(d, qa - qb, qc - qe);
    lemma_commute(d, qa - qb);
    lemma_commute(d, qc - qe);
    assert(s * d == 0real);
    assert(s == 0real) by (nonlinear_arith)
        requires
            s * d == 0real,
            d != 0real,
    ;
}

proof fn lemma_quotient(a: real, d: real)
    requires
        d != 0real,
    ensures
        (a / d) * d == a,
{
    assert((a / d) * d == a) by (nonlinear_arith)
        requires
            d != 0real,
    ;
}

/// The wall vorticity is that of a fluid which moves with the wall: continued past the
/// wall by the value `outside`, at which the central difference across the wall is the
/// speed `u` of the wall, the streamfunction has the Laplacian minus the vorticity. A wall
/// at rest is one of speed zero.
pub proof fn law_walls_do_not_slip(psi_in: real, outside: real, h: real, u: real)
    requires
        h != 0real,
        (outside - psi_in) / (2real * h) == u,
    ensures
        (outside + psi_in) / (h * h) == -lid_vorticity(psi_in, h, u),
        u == 0real ==> (outside + psi_in) / (h * h) == -wall_vorticity(psi_in, h),
{
    lemma_whole(2);
    let h2 = h * h;
    let w = 2real * h;
    let d = outside - psi_in;
    assert(h2 != 0real) by (nonlinear_arith)
        requires
            h2 == h * h,
            h != 0real,
    ;
    lemma_quotient(d, w);
    // outside + psi_in == 2 psi_in + 2 h u
    let (a, b) = ((-2real) * psi_in, 2real * u);
    let (x, y) = (a / h2, b / h);
    lemma_quotient(a, h2);
    lemma_quotient(b, h);
    lemma_quotient(outside + psi_in, h2);
    let z = (outside + psi_in) / h2;
    // y * h2 == b * h
    assert(y * h2 == b * h) by (nonlinear_arith)
        requires
            y * h == b,
            h2 == h * h,
    ;
    assert(b * h == u * w) by (nonlinear_arith)
        requires
            b == 2real * u,
            w == 2real * h,
    ;
    let s = z - (y - x);
    lemma_minus_times(y, x, h2);
    lemma_minus_times(z, y - x, h2);
    assert(s * h2 == 0real);
    assert(s == 0real) by (nonlinear_arith)
        requires
            s * h2 == 0real,
            h2 != 0real,
    ;
    if u == 0real {
        assert(y == 0real) by (nonlinear_arith)
            requires
                y * h == b,
                b == 0real,
                h != 0real,
        ;
    }
}

/// A stage with no change keeps the vorticity.
proof fn lemma_still(omega: Seq<real>, rate: Seq<real>, n: int, dt: real)
    requires
        is_field(omega, n),
        forall|i: int, j: int| #[trigger] interior(n, i, j) ==> at(rate, n, i, j) == 0real,
    ensures
        tabulate(n, euler_cells(omega, rate, n, dt)) == omega,
        tabulate(
            n,
            blend_cells(
                <real as crate::scalar::Arith>::ratio(3, 4),
                omega,
                <real as crate::scalar::Arith>::ratio(1, 4),
                omega,
                rate,
                n,
                dt,
            ),
        ) == omega,
        tabulate(
            n,
            blend_cells(
                <real as crate::scalar::Arith>::ratio(1, 3),
                omega,
                <real as crate::scalar::Arith>::ratio(2, 3),
                omega,
                rate,
                n,
                dt,
            ),
        ) == omega,
{
    let (a, b) = (3int as real / 4int as real, 1int as real / 4int as real);
    let (c, d) = (1int as real / 3int as real, 2int as real / 3int as real);
    let euler = euler_cells(omega, rate, n, dt);
    let second = blend_cells(a, omega, b, omega, rate, n, dt);
    let third = blend_cells(c, omega, d, omega, rate, n, dt);
    assert forall|i: int, j: int| 0 <= i < n && 0 <= j < n implies euler(i, j) == at(omega, n, i, j)
        && second(i, j) == at(omega, n, i, j) && third(i, j) == #[trigger] at(omega, n, i, j) by {
        if interior(n, i, j) {
            let w = at(omega, n, i, j);
            assert(dt * 0real == 0real) by (nonlinear_arith);
            assert(a * w + b * w == w) by (nonlinear_arith)
                requires
                    4real * a == 3real,
                    4real * b == 1real,
            ;
            assert(c * w + d * w == w) by (nonlinear_arith)
                requires
                    3real * c == 1real,
                    3real * d == 2real,
            ;
        }
    }
    lemma_is_tabulated(omega, n, euler);
    lemma_is_tabulated(omega, n, second);
    lemma_is_tabulated(omega, n, third);
}

/// A steady flow stays as it is: where solving for the streamfunction and setting the
/// walls change nothing, and the vorticity has no rate of change, a step of any length
/// changes nothing.
pub proof fn law_steady_flow_stays(m: Model<real>, f: Flow<real>, dt: real)
    requires
        is_field(f.omega, m.n),
        m.prepared(f) == f,
        forall|i: int, j: int|
            #[trigger] interior(m.n, i, j) ==> tendency(f.psi, f.omega, m.n, m.h, m.nu, i, j)
                == 0real,
    ensures
        m.step(f, dt) == f,
{
    let n = m.n;
    let rate = m.rate(f);
    let cells = |i: int, j: int|
        if interior(n, i, j) {
            tendency(f.psi, f.omega, n, m.h, m.nu, i, j)
        } else {
            nil::<real>()
        };
    assert forall|i: int, j: int| #[trigger] interior(n, i, j) implies at(rate, n, i, j)
        == 0real by {
        lemma_tabulate(n, cells, i, j);
    }
    lemma_still(f.omega, rate, n, dt);
    assert(m.after1(f, dt) == f);
    assert(m.after2(f, dt) == f);
}

} // verus!
