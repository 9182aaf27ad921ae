//! What the Arakawa Jacobian conserves.
use crate::grid::at;
use crate::laws::algebra::{
    lemma_associate, lemma_commute, lemma_minus_times, lemma_opposite, lemma_times_four,
    lemma_times_minus, lemma_times_plus,
};
use crate::laws::exact::lemma_nil;
use crate::laws::sums::{lemma_no_flux, lemma_sigma_scaled, sigma, sum_inside};
use crate::model::{arakawa, closed_walls, laplacian, tendency};
use vstd::prelude::*;

verus! {

/// The flux between a node and its eastern neighbour.
pub open spec fn east_flux(p: Seq<real>, z: Seq<real>, n: int, i: int, j: int) -> real {
    at(p, n, i, j) * at(p, n, i + 1, j) * (at(z, n, i, j + 1) - at(z, n, i, j - 1) + at(
        z,
        n,
        i + 1,
        j + 1,
    ) - at(z, n, i + 1, j - 1))
}

/// The flux between a node and its northern neighbour.
pub open spec fn north_flux(p: Seq<real>, z: Seq<real>, n: int, i: int, j: int) -> real {
    at(p, n, i, j) * at(p, n, i, j + 1) * (at(z, n, i + 1, j) - at(z, n, i - 1, j) + at(
        z,
        n,
        i + 1,
        j + 1,
    ) - at(z, n, i - 1, j + 1))
}

/// The flux between a node and its north-eastern neighbour.
pub open spec fn rising_flux(p: Seq<real>, z: Seq<real>, n: int, i: int, j: int) -> real {
    at(p, n, i, j) * at(p, n, i + 1, j + 1) * (at(z, n, i, j + 1) - at(z, n, i + 1, j))
}

/// The flux between a node and its north-western neighbour.
pub open spec fn falling_flux(p: Seq<real>, z: Seq<real>, n: int, i: int, j: int) -> real {
    at(p, n, i, j) * at(p, n, i - 1, j + 1) * (at(z, n, i - 1, j) - at(z, n, i, j + 1))
}

/// One neighbour with two factors.
proof fn lemma_pair(p: real, q: real, x: real, y: real)
    ensures
        p * (q * x) + p * (q * y) == p * q * (x + y),
        p * -(q * x) + p * -(q * y) == -(p * q * (x + y)),
{
    lemma_associate(p, q, x);
    lemma_associate(p, q, y);
    lemma_times_plus(p * q, x, y);
}

/// One neighbour with the difference of two factors.
proof fn lemma_gap(p: real, q: real, x: real, y: real)
    ensures
        p * (q * x - q * y) == p * q * (x - y),
{
    lemma_times_minus(q, x, y);
    lemma_associate(p, q, x - y);
}

/// The Jacobian times its first argument, as products of neighbours.
proof fn lemma_eight_fluxes(
    p: real,
    pe: real,
    pw: real,
    pn: real,
    ps: real,
    pne: real,
    pnw: real,
    pse: real,
    psw: real,
    ze: real,
    zw: real,
    zn: real,
    zs: real,
    zne: real,
    znw: real,
    zse: real,
    zsw: real,
)
    ensures
        p * (((pe - pw) * (zn - zs) - (pn - ps) * (ze - zw)) + (pe * (zne - zse) - pw * (znw - zsw)
            - pn * (zne - znw) + ps * (zse - zsw)) + (zn * (pne - pnw) - zs * (pse - psw) - ze * (
        pne - pse) + zw * (pnw - psw))) == p * pe * (zn - zs + zne - zse) - pw * p * (znw - zsw + zn
            - zs) - p * pn * (ze - zw + zne - znw) + ps * p * (zse - zsw + ze - zw) + p * pne * (zn
            - ze) - psw * p * (zw - zs) + p * pnw * (zw - zn) - pse * p * (zs - ze),
{
    let (ex, ey) = (ze - zw, zn - zs);
    let (fe, fw, fn_, fs) = (zne - zse, znw - zsw, zne - znw, zse - zsw);
    lemma_minus_times(pe, pw, ey);
    lemma_minus_times(pn, ps, ex);
    lemma_times_minus(zn, pne, pnw);
    lemma_times_minus(zs, pse, psw);
    lemma_times_minus(ze, pne, pse);
    lemma_times_minus(zw, pnw, psw);
    let a = pe * ey - pw * ey - (pn * ex - ps * ex);
    let b = pe * fe - pw * fw - pn * fn_ + ps * fs;
    let c = pne * zn - pne * ze + psw * zs - psw * zw + pnw * zw - pnw * zn + pse * ze - pse * zs;
    lemma_commute(zn, pne);
    lemma_commute(zn, pnw);
    lemma_commute(zs, pse);
    lemma_commute(zs, psw);
    lemma_commute(ze, pne);
    lemma_commute(ze, pse);
    lemma_commute(zw, pnw);
    lemma_commute(zw, psw);
    lemma_times_plus(p, a, b);
    lemma_times_plus(p, a + b, c);
    lemma_times_four(p, pe * ey, -(pw * ey), -(pn * ex), ps * ex);
    lemma_times_four(p, pe * fe, -(pw * fw), -(pn * fn_), ps * fs);
    lemma_times_four(
        p,
        pne * zn - pne * ze,
        psw * zs - psw * zw,
        pnw * zw - pnw * zn,
        pse * ze - pse * zs,
    );
    lemma_pair(p, pe, ey, fe);
    lemma_pair(p, pw, ey, fw);
    lemma_pair(p, pn, ex, fn_);
    lemma_pair(p, ps, ex, fs);
    lemma_gap(p, pne, zn, ze);
    lemma_gap(p, psw, zs, zw);
    lemma_gap(p, pnw, zw, zn);
    lemma_gap(p, pse, ze, zs);
    lemma_commute(pw, p);
    lemma_commute(ps, p);
    lemma_commute(psw, p);
    lemma_commute(pse, p);
    lemma_opposite(psw * p, zw, zs);
    lemma_opposite(pse * p, zs, ze);
}

/// The Jacobian is the divergence of fluxes between neighbours, times the first argument.
proof fn lemma_divergence(p: Seq<real>, z: Seq<real>, n: int, i: int, j: int)
    ensures
        at(p, n, i, j) * arakawa(p, z, n, i, j) == (east_flux(p, z, n, i, j) - east_flux(
            p,
            z,
            n,
            i - 1,
            j,
        )) - (north_flux(p, z, n, i, j) - north_flux(p, z, n, i, j - 1)) + (rising_flux(
            p,
            z,
            n,
            i,
            j,
        ) - rising_flux(p, z, n, i - 1, j - 1)) + (falling_flux(p, z, n, i, j) - falling_flux(
            p,
            z,
            n,
            i + 1,
            j - 1,
        )),
{
    lemma_eight_fluxes(
        at(p, n, i, j),
        at(p, n, i + 1, j),
        at(p, n, i - 1, j),
        at(p, n, i, j + 1),
        at(p, n, i, j - 1),
        at(p, n, i + 1, j + 1),
        at(p, n, i - 1, j + 1),
        at(p, n, i + 1, j - 1),
        at(p, n, i - 1, j - 1),
        at(z, n, i + 1, j),
        at(z, n, i - 1, j),
        at(z, n, i, j + 1),
        at(z, n, i, j - 1),
        at(z, n, i + 1, j + 1),
        at(z, n, i - 1, j + 1),
        at(z, n, i + 1, j - 1),
        at(z, n, i - 1, j - 1),
    );
    assert(i - 1 + 1 == i && i + 1 - 1 == i && j - 1 + 1 == j);
}

/// A flux with one end on a wall is zero.
proof fn lemma_flux_at_wall(p: Seq<real>, z: Seq<real>, n: int, i: int, j: int)
    requires
        n >= 2,
        closed_walls(p, n),
        0 <= i < n,
        0 <= j < n,
    ensures
        (i == 0 || i == n - 2) && j < n - 1 ==> east_flux(p, z, n, i, j) == 0real,
        (i == 0 || i == n - 2 || j == 0 || j == n - 2) && i < n - 1 && j < n - 1 ==> rising_flux(
            p,
            z,
            n,
            i,
            j,
        ) == 0real,
        (i == 1 || i == n - 1 || j == 0 || j == n - 2) && i > 0 && j < n - 1 ==> falling_flux(
            p,
            z,
            n,
            i,
            j,
        ) == 0real,
        (j == 0 || j == n - 2) && i < n - 1 ==> north_flux(p, z, n, i, j) == 0real,
{
    lemma_nil();
    let c = at(p, n, i, j);
    let e = at(p, n, i + 1, j);
    let nn = at(p, n, i, j + 1);
    let ne = at(p, n, i + 1, j + 1);
    let nw = at(p, n, i - 1, j + 1);
    let ce = at(z, n, i, j + 1) - at(z, n, i, j - 1) + at(z, n, i + 1, j + 1) - at(
        z,
        n,
        i + 1,
        j - 1,
    );
    let cn = at(z, n, i + 1, j) - at(z, n, i - 1, j) + at(z, n, i + 1, j + 1) - at(
        z,
        n,
        i - 1,
        j + 1,
    );
    let cr = at(z, n, i, j + 1) - at(z, n, i + 1, j);
    let cf = at(z, n, i - 1, j) - at(z, n, i, j + 1);
    assert(c == 0real || e == 0real ==> c * e * ce == 0real) by (nonlinear_arith);
    assert(c == 0real || nn == 0real ==> c * nn * cn == 0real) by (nonlinear_arith);
    assert(c == 0real || ne == 0real ==> c * ne * cr == 0real) by (nonlinear_arith);
    assert(c == 0real || nw == 0real ==> c * nw * cf == 0real) by (nonlinear_arith);
}

/// The weighted sum of the Jacobian over the nodes off the walls.
pub open spec fn transfer(w: Seq<real>, p: Seq<real>, z: Seq<real>, n: int) -> real {
    sum_inside(n, |i: int, j: int| at(w, n, i, j) * arakawa(p, z, n, i, j))
}

/// The Jacobian changes its sign when its arguments change places.
pub proof fn law_jacobian_antisymmetric(p: Seq<real>, z: Seq<real>, n: int, i: int, j: int)
    ensures
        arakawa(p, z, n, i, j) == -arakawa(z, p, n, i, j),
{
    let (pe, pw, pn, ps) = (
        at(p, n, i + 1, j),
        at(p, n, i - 1, j),
        at(p, n, i, j + 1),
        at(p, n, i, j - 1),
    );
    let (ze, zw, zn, zs) = (
        at(z, n, i + 1, j),
        at(z, n, i - 1, j),
        at(z, n, i, j + 1),
        at(z, n, i, j - 1),
    );
    let (dx, dy, ex, ey) = (pe - pw, pn - ps, ze - zw, zn - zs);
    assert(dx * ey - dy * ex == -(ex * dy - ey * dx)) by (nonlinear_arith);
}

/// Advection neither makes nor destroys kinetic energy: with the streamfunction zero
/// on the walls, the Jacobian of streamfunction and vorticity, weighted with the
/// streamfunction, adds up to zero.
pub proof fn law_energy_conserved(psi: Seq<real>, omega: Seq<real>, n: int)
    requires
        n >= 2,
        closed_walls(psi, n),
    ensures
        transfer(psi, psi, omega, n) == 0real,
{
    let f = |i: int, j: int| at(psi, n, i, j) * arakawa(psi, omega, n, i, j);
    let x = |i: int, j: int|
        east_flux(psi, omega, n, i, j) + rising_flux(psi, omega, n, i, j) - falling_flux(
            psi,
            omega,
            n,
            i + 1,
            j,
        );
    let y = |i: int, j: int|
        -north_flux(psi, omega, n, i, j) + rising_flux(psi, omega, n, i - 1, j) + falling_flux(
            psi,
            omega,
            n,
            i + 1,
            j,
        );
    assert forall|i: int, j: int| 1 <= i < n - 1 && 1 <= j < n - 1 implies #[trigger] f(i, j) == (x(
        i,
        j,
    ) - x(i - 1, j)) + (y(i, j) - y(i, j - 1)) by {
        lemma_divergence(psi, omega, n, i, j);
        assert(i - 1 + 1 == i);
    }
    assert forall|j: int| 1 <= j < n - 1 implies #[trigger] x(0, j) == 0real by {
        lemma_flux_at_wall(psi, omega, n, 0, j);
        lemma_flux_at_wall(psi, omega, n, 1, j);
    }
    assert forall|j: int| 1 <= j < n - 1 implies #[trigger] x(n - 2, j) == 0real by {
        lemma_flux_at_wall(psi, omega, n, n - 2, j);
        lemma_flux_at_wall(psi, omega, n, n - 1, j);
    }
    assert forall|i: int| 1 <= i < n - 1 implies #[trigger] y(i, 0) == 0real by {
        lemma_flux_at_wall(psi, omega, n, i, 0);
        lemma_flux_at_wall(psi, omega, n, i - 1, 0);
        lemma_flux_at_wall(psi, omega, n, i + 1, 0);
    }
    assert forall|i: int| 1 <= i < n - 1 implies #[trigger] y(i, n - 2) == 0real by {
        lemma_flux_at_wall(psi, omega, n, i, n - 2);
        lemma_flux_at_wall(psi, omega, n, i - 1, n - 2);
        lemma_flux_at_wall(psi, omega, n, i + 1, n - 2);
    }
    lemma_no_flux(n, f, x, y);
}

/// Advection neither makes nor destroys enstrophy: with the vorticity zero on the
/// walls, the Jacobian of streamfunction and vorticity, weighted with the vorticity,
/// adds up to zero.
pub proof fn law_enstrophy_conserved(psi: Seq<real>, omega: Seq<real>, n: int)
    requires
        n >= 2,
        closed_walls(omega, n),
    ensures
        transfer(omega, psi, omega, n) == 0real,
{
    law_energy_conserved(omega, psi, n);
    let f = |i: int, j: int| at(omega, n, i, j) * arakawa(psi, omega, n, i, j);
    let g = |i: int, j: int| at(omega, n, i, j) * arakawa(omega, psi, n, i, j);
    let rows = |j: int| sigma(|i: int| f(i, j), 1, n - 1);
    let turned = |j: int| sigma(|i: int| g(i, j), 1, n - 1);
    assert forall|j: int| 1 <= j < n - 1 implies #[trigger] rows(j) == -1real * turned(j) by {
        let fj = |i: int| f(i, j);
        let gj = |i: int| g(i, j);
        assert forall|i: int| 1 <= i < n - 1 implies #[trigger] fj(i) == -1real * gj(i) by {
            law_jacobian_antisymmetric(psi, omega, n, i, j);
            let (w, a, b) = (
                at(omega, n, i, j),
                arakawa(psi, omega, n, i, j),
                arakawa(omega, psi, n, i, j),
            );
            assert(w * a == -1real * (w * b)) by (nonlinear_arith)
                requires
                    a == -b,
            ;
        }
        lemma_sigma_scaled(fj, -1real, gj, 1, n - 1);
    }
    lemma_sigma_scaled(rows, -1real, turned, 1, n - 1);
}

/// The rate of change of a flow without viscosity, weighted and added up over the
/// nodes off the walls.
pub open spec fn weighted_rate(
    w: Seq<real>,
    psi: Seq<real>,
    omega: Seq<real>,
    n: int,
    h: real,
) -> real {
    sum_inside(n, |i: int, j: int| at(w, n, i, j) * tendency(psi, omega, n, h, 0real, i, j))
}

proof fn lemma_rate_is_transfer(w: Seq<real>, psi: Seq<real>, omega: Seq<real>, n: int, h: real)
    requires
        transfer(w, psi, omega, n) == 0real,
    ensures
        weighted_rate(w, psi, omega, n, h) == 0real,
{
    let q = 1int as real / 1int as real / (12int as real / 1int as real * (h * h));
    let f = |i: int, j: int| at(w, n, i, j) * tendency(psi, omega, n, h, 0real, i, j);
    let g = |i: int, j: int| at(w, n, i, j) * arakawa(psi, omega, n, i, j);
    let rows = |j: int| sigma(|i: int| f(i, j), 1, n - 1);
    let plain = |j: int| sigma(|i: int| g(i, j), 1, n - 1);
    assert forall|j: int| 1 <= j < n - 1 implies #[trigger] rows(j) == q * plain(j) by {
        let fj = |i: int| f(i, j);
        let gj = |i: int| g(i, j);
        assert forall|i: int| 1 <= i < n - 1 implies #[trigger] fj(i) == q * gj(i) by {
            let (c, a, l) = (
                at(w, n, i, j),
                arakawa(psi, omega, n, i, j),
                laplacian(omega, n, h * h, i, j),
            );
            assert(tendency(psi, omega, n, h, 0real, i, j) == a * q + 0real * l);
            assert(0real * l == 0real) by (nonlinear_arith);
            lemma_associate(c, a, q);
            lemma_commute(c * a, q);
        }
        lemma_sigma_scaled(fj, q, gj, 1, n - 1);
    }
    lemma_sigma_scaled(rows, q, plain, 1, n - 1);
    assert(q * 0real == 0real) by (nonlinear_arith);
}

/// Without viscosity the rate of change of the vorticity keeps the kinetic energy: it
/// adds up to zero against the streamfunction, which is zero on the walls.
pub proof fn law_inviscid_energy(psi: Seq<real>, omega: Seq<real>, n: int, h: real)
    requires
        n >= 2,
        closed_walls(psi, n),
    ensures
        weighted_rate(psi, psi, omega, n, h) == 0real,
{
    law_energy_conserved(psi, omega, n);
    lemma_rate_is_transfer(psi, psi, omega, n, h);
}

/// Without viscosity the rate of change of a vorticity that is zero on the walls keeps
/// the enstrophy: it adds up to zero against the vorticity.
pub proof fn law_inviscid_enstrophy(psi: Seq<real>, omega: Seq<real>, n: int, h: real)
    requires
        n >= 2,
        closed_walls(omega, n),
    ensures
        weighted_rate(omega, psi, omega, n, h) == 0real,
{
    law_enstrophy_conserved(psi, omega, n);
    lemma_rate_is_transfer(omega, psi, omega, n, h);
}

} // verus!
