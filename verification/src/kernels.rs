//! The formulas of [`crate::model`] in machine arithmetic: what happens at one node
//! and in one row.
use crate::grid::{at, idx, interior, is_field, is_row};
use crate::model::{
    arakawa, blend_cells, blended, change, coloured, euler_cells, grounded_cells, laplacian,
    lid_vorticity, neighbours, relaxed, row_change, row_circulation, row_energy, row_enstrophy,
    row_residual, row_size, row_speed, speed_squared, sweep_cells, tendency, tendency_cells,
    u_cells, v_cells, velocity_u, velocity_v, wall_vorticity,
};
use crate::plane::{is_plane, node};
use crate::scalar::{abs_of, count, max_of, zero, Arith, Scalar};
use std::ops::Neg;
use vstd::prelude::*;

verus! {

/// The value at column `i` of row `j`.
pub fn get<T: Copy>(f: &Vec<T>, n: usize, i: usize, j: usize) -> (r: T)
    requires
        is_field(f@, n as int),
        i < n,
        j < n,
    ensures
        r == at(f@, n as int, i as int, j as int),
{
    f[idx(i, j, n)]
}

pub(crate) fn neighbours_of<T: Scalar>(
    f: &Vec<T>,
    nx: usize,
    ny: usize,
    i: usize,
    j: usize,
) -> (r: T)
    requires
        is_plane(f@, nx as int, ny as int),
        1 <= i < nx - 1,
        1 <= j < ny - 1,
    ensures
        r == neighbours(f@, nx as int, i as int, j as int),
{
    T::lawful();
    node(f, nx, ny, i + 1, j) + node(f, nx, ny, i - 1, j) + node(f, nx, ny, i, j + 1) + node(
        f,
        nx,
        ny,
        i,
        j - 1,
    )
}

pub(crate) fn laplacian_of<T: Scalar>(
    f: &Vec<T>,
    nx: usize,
    ny: usize,
    h2: T,
    i: usize,
    j: usize,
) -> (r: T)
    requires
        is_plane(f@, nx as int, ny as int),
        1 <= i < nx - 1,
        1 <= j < ny - 1,
    ensures
        r == laplacian(f@, nx as int, h2, i as int, j as int),
{
    T::lawful();
    (neighbours_of(f, nx, ny, i, j) - count::<T>(4) * node(f, nx, ny, i, j)) / h2
}

pub(crate) fn arakawa_of<T: Scalar>(
    p: &Vec<T>,
    z: &Vec<T>,
    nx: usize,
    ny: usize,
    i: usize,
    j: usize,
) -> (r: T)
    requires
        is_plane(p@, nx as int, ny as int),
        is_plane(z@, nx as int, ny as int),
        1 <= i < nx - 1,
        1 <= j < ny - 1,
    ensures
        r == arakawa(p@, z@, nx as int, i as int, j as int),
{
    T::lawful();
    let (p_e, p_w): (T, T) = (node(p, nx, ny, i + 1, j), node(p, nx, ny, i - 1, j));
    let (p_n, p_s): (T, T) = (node(p, nx, ny, i, j + 1), node(p, nx, ny, i, j - 1));
    let (p_ne, p_nw): (T, T) = (node(p, nx, ny, i + 1, j + 1), node(p, nx, ny, i - 1, j + 1));
    let (p_se, p_sw): (T, T) = (node(p, nx, ny, i + 1, j - 1), node(p, nx, ny, i - 1, j - 1));
    let (z_e, z_w): (T, T) = (node(z, nx, ny, i + 1, j), node(z, nx, ny, i - 1, j));
    let (z_n, z_s): (T, T) = (node(z, nx, ny, i, j + 1), node(z, nx, ny, i, j - 1));
    let (z_ne, z_nw): (T, T) = (node(z, nx, ny, i + 1, j + 1), node(z, nx, ny, i - 1, j + 1));
    let (z_se, z_sw): (T, T) = (node(z, nx, ny, i + 1, j - 1), node(z, nx, ny, i - 1, j - 1));
    let j1: T = (p_e - p_w) * (z_n - z_s) - (p_n - p_s) * (z_e - z_w);
    let j2: T = p_e * (z_ne - z_se) - p_w * (z_nw - z_sw) - p_n * (z_ne - z_nw) + p_s * (z_se
        - z_sw);
    let j3: T = z_n * (p_ne - p_nw) - z_s * (p_se - p_sw) - z_e * (p_ne - p_se) + z_w * (p_nw
        - p_sw);
    j1 + j2 + j3
}

pub(crate) fn tendency_of<T: Scalar>(
    psi: &Vec<T>,
    omega: &Vec<T>,
    nx: usize,
    ny: usize,
    h: T,
    nu: T,
    i: usize,
    j: usize,
) -> (r: T)
    requires
        is_plane(psi@, nx as int, ny as int),
        is_plane(omega@, nx as int, ny as int),
        1 <= i < nx - 1,
        1 <= j < ny - 1,
    ensures
        r == tendency(psi@, omega@, nx as int, h, nu, i as int, j as int),
{
    T::lawful();
    let h2: T = h * h;
    let inv12h2: T = count::<T>(1) / (count::<T>(12) * h2);
    arakawa_of(psi, omega, nx, ny, i, j) * inv12h2 + nu * laplacian_of(omega, nx, ny, h2, i, j)
}

pub(crate) fn change_of<T: Scalar>(
    psi: &Vec<T>,
    omega: &Vec<T>,
    nx: usize,
    ny: usize,
    h2: T,
    w: T,
    i: usize,
    j: usize,
) -> (r: T)
    requires
        is_plane(psi@, nx as int, ny as int),
        is_plane(omega@, nx as int, ny as int),
        1 <= i < nx - 1,
        1 <= j < ny - 1,
    ensures
        r == change(psi@, omega@, nx as int, h2, w, i as int, j as int),
{
    T::lawful();
    let pull: T = h2 * node(omega, nx, ny, i, j);
    let settled: T = (neighbours_of(psi, nx, ny, i, j) + pull) * T::from_ratio(1, 4);
    w * (settled - node(psi, nx, ny, i, j))
}

pub(crate) fn relaxed_of<T: Scalar>(
    psi: &Vec<T>,
    omega: &Vec<T>,
    nx: usize,
    ny: usize,
    h2: T,
    w: T,
    i: usize,
    j: usize,
) -> (r: T)
    requires
        is_plane(psi@, nx as int, ny as int),
        is_plane(omega@, nx as int, ny as int),
        1 <= i < nx - 1,
        1 <= j < ny - 1,
    ensures
        r == relaxed(psi@, omega@, nx as int, h2, w, i as int, j as int),
{
    T::lawful();
    node(psi, nx, ny, i, j) + change_of(psi, omega, nx, ny, h2, w, i, j)
}

pub(crate) fn velocity_u_of<T: Scalar>(
    psi: &Vec<T>,
    nx: usize,
    ny: usize,
    h: T,
    i: usize,
    j: usize,
) -> (r: T)
    requires
        is_plane(psi@, nx as int, ny as int),
        1 <= i < nx - 1,
        1 <= j < ny - 1,
    ensures
        r == velocity_u(psi@, nx as int, h, i as int, j as int),
{
    T::lawful();
    (node(psi, nx, ny, i, j + 1) - node(psi, nx, ny, i, j - 1)) / (count::<T>(2) * h)
}

pub(crate) fn velocity_v_of<T: Scalar>(
    psi: &Vec<T>,
    nx: usize,
    ny: usize,
    h: T,
    i: usize,
    j: usize,
) -> (r: T)
    requires
        is_plane(psi@, nx as int, ny as int),
        1 <= i < nx - 1,
        1 <= j < ny - 1,
    ensures
        r == velocity_v(psi@, nx as int, h, i as int, j as int),
{
    T::lawful();
    (node(psi, nx, ny, i + 1, j) - node(psi, nx, ny, i - 1, j)).neg() / (count::<T>(2) * h)
}

pub(crate) fn speed_squared_of<T: Scalar>(
    psi: &Vec<T>,
    nx: usize,
    ny: usize,
    h: T,
    i: usize,
    j: usize,
) -> (r: T)
    requires
        is_plane(psi@, nx as int, ny as int),
        1 <= i < nx - 1,
        1 <= j < ny - 1,
    ensures
        r == speed_squared(psi@, nx as int, h, i as int, j as int),
{
    T::lawful();
    let u: T = velocity_u_of(psi, nx, ny, h, i, j);
    let v: T = velocity_v_of(psi, nx, ny, h, i, j);
    u * u + v * v
}

pub(crate) fn wall_vorticity_of<T: Scalar>(psi_in: T, h: T) -> (r: T)
    ensures
        r == wall_vorticity(psi_in, h),
{
    T::lawful();
    count::<T>(2).neg() * psi_in / (h * h)
}

pub(crate) fn lid_vorticity_of<T: Scalar>(psi_in: T, h: T, u_lid: T) -> (r: T)
    ensures
        r == lid_vorticity(psi_in, h, u_lid),
{
    T::lawful();
    wall_vorticity_of(psi_in, h) - count::<T>(2) * u_lid / h
}

fn on_interior(n: usize, i: usize, j: usize) -> (r: bool)
    requires
        n >= 2,
    ensures
        r == interior(n as int, i as int, j as int),
{
    1 <= i && i < n - 1 && 1 <= j && j < n - 1
}

fn on_colour(n: usize, color: usize, i: usize, j: usize) -> (r: bool)
    requires
        n >= 2,
        i < n,
        j < n,
        color < 2,
    ensures
        r == coloured(n as int, color as int, i as int, j as int),
{
    on_interior(n, i, j) && (i % 2 + j % 2 + color) % 2 == 1
}

/// Row `j` of the rate of change.
pub(crate) fn tendency_row<T: Scalar>(
    psi: &Vec<T>,
    omega: &Vec<T>,
    rhs: &Vec<T>,
    n: usize,
    h: T,
    nu: T,
    j: usize,
) -> (row: Vec<T>)
    requires
        is_field(psi@, n as int),
        is_field(omega@, n as int),
        is_field(rhs@, n as int),
        j < n,
    ensures
        is_row(row@, n as int, j as int, tendency_cells(psi@, omega@, rhs@, n as int, h, nu)),
{
    let mut row: Vec<T> = Vec::with_capacity(n);
    let mut i: usize = 0;
    while i < n
        invariant
            is_field(psi@, n as int),
            is_field(omega@, n as int),
            is_field(rhs@, n as int),
            j < n,
            i <= n,
            row@.len() == i,
            forall|k: int|
                0 <= k < i ==> #[trigger] row@[k] == tendency_cells(
                    psi@,
                    omega@,
                    rhs@,
                    n as int,
                    h,
                    nu,
                )(k, j as int),
        decreases n - i,
    {
        if on_interior(n, i, j) {
            row.push(tendency_of(psi, omega, n, n, h, nu, i, j));
        } else {
            row.push(get(rhs, n, i, j));
        }
        i = i + 1;
    }
    row
}

/// Row `j` after one colour was relaxed.
pub(crate) fn sweep_row<T: Scalar>(
    psi: &Vec<T>,
    omega: &Vec<T>,
    n: usize,
    h2: T,
    w: T,
    color: usize,
    j: usize,
) -> (row: Vec<T>)
    requires
        is_field(psi@, n as int),
        is_field(omega@, n as int),
        color < 2,
        j < n,
    ensures
        is_row(row@, n as int, j as int, sweep_cells(psi@, omega@, n as int, h2, w, color as int)),
{
    let mut row: Vec<T> = Vec::with_capacity(n);
    let mut i: usize = 0;
    while i < n
        invariant
            is_field(psi@, n as int),
            is_field(omega@, n as int),
            color < 2,
            j < n,
            i <= n,
            row@.len() == i,
            forall|k: int|
                0 <= k < i ==> #[trigger] row@[k] == sweep_cells(
                    psi@,
                    omega@,
                    n as int,
                    h2,
                    w,
                    color as int,
                )(k, j as int),
        decreases n - i,
    {
        if on_colour(n, color, i, j) {
            row.push(relaxed_of(psi, omega, n, n, h2, w, i, j));
        } else {
            row.push(get(psi, n, i, j));
        }
        i = i + 1;
    }
    row
}

/// The largest change and the largest value that relaxing a colour leaves in row `j`.
pub(crate) fn row_peaks<T: Scalar>(
    psi: &Vec<T>,
    omega: &Vec<T>,
    n: usize,
    h2: T,
    w: T,
    color: usize,
    j: usize,
) -> (r: (T, T))
    requires
        is_field(psi@, n as int),
        is_field(omega@, n as int),
        color < 2,
        1 <= j < n - 1,
    ensures
        r.0 == row_change(psi@, omega@, n as int, h2, w, color as int, j as int, n - 1),
        r.1 == row_size(psi@, omega@, n as int, h2, w, color as int, j as int, n - 1),
{
    let mut largest_change: T = zero();
    let mut largest_value: T = T::smallest();
    let mut i: usize = 1;
    while i < n - 1
        invariant
            is_field(psi@, n as int),
            is_field(omega@, n as int),
            color < 2,
            1 <= j < n - 1,
            1 <= i <= n - 1,
            largest_change == row_change(
                psi@,
                omega@,
                n as int,
                h2,
                w,
                color as int,
                j as int,
                i as int,
            ),
            largest_value == row_size(
                psi@,
                omega@,
                n as int,
                h2,
                w,
                color as int,
                j as int,
                i as int,
            ),
        decreases n - i,
    {
        if on_colour(n, color, i, j) {
            largest_change = max_of(
                largest_change,
                abs_of(change_of(psi, omega, n, n, h2, w, i, j)),
            );
            largest_value = max_of(
                largest_value,
                abs_of(relaxed_of(psi, omega, n, n, h2, w, i, j)),
            );
        }
        i = i + 1;
    }
    (largest_change, largest_value)
}

/// Row `j` with zeros on the walls.
pub(crate) fn grounded_row<T: Scalar>(psi: &Vec<T>, n: usize, j: usize) -> (row: Vec<T>)
    requires
        is_field(psi@, n as int),
        j < n,
    ensures
        is_row(row@, n as int, j as int, grounded_cells(psi@, n as int)),
{
    let mut row: Vec<T> = Vec::with_capacity(n);
    let mut i: usize = 0;
    while i < n
        invariant
            is_field(psi@, n as int),
            j < n,
            i <= n,
            row@.len() == i,
            forall|k: int|
                0 <= k < i ==> #[trigger] row@[k] == grounded_cells(psi@, n as int)(k, j as int),
        decreases n - i,
    {
        if on_interior(n, i, j) {
            row.push(get(psi, n, i, j));
        } else {
            row.push(zero());
        }
        i = i + 1;
    }
    row
}

/// The largest residual in row `j`.
pub(crate) fn residual_row<T: Scalar>(
    psi: &Vec<T>,
    omega: &Vec<T>,
    n: usize,
    h2: T,
    j: usize,
) -> (r: T)
    requires
        is_field(psi@, n as int),
        is_field(omega@, n as int),
        1 <= j < n - 1,
    ensures
        r == row_residual(psi@, omega@, n as int, h2, j as int, n - 1),
{
    let mut worst: T = zero();
    let mut i: usize = 1;
    while i < n - 1
        invariant
            is_field(psi@, n as int),
            is_field(omega@, n as int),
            1 <= j < n - 1,
            1 <= i <= n - 1,
            worst == row_residual(psi@, omega@, n as int, h2, j as int, i as int),
        decreases n - i,
    {
        T::lawful();
        let r: T = laplacian_of(psi, n, n, h2, i, j) + get(omega, n, i, j);
        worst = max_of(worst, abs_of(r));
        i = i + 1;
    }
    worst
}

/// The largest speed in row `j`.
pub(crate) fn speed_row<T: Scalar>(psi: &Vec<T>, n: usize, h: T, j: usize) -> (r: T)
    requires
        is_field(psi@, n as int),
        1 <= j < n - 1,
    ensures
        r == row_speed(psi@, n as int, h, j as int, n - 1),
{
    let mut fastest: T = zero();
    let mut i: usize = 1;
    while i < n - 1
        invariant
            is_field(psi@, n as int),
            1 <= j < n - 1,
            1 <= i <= n - 1,
            fastest == row_speed(psi@, n as int, h, j as int, i as int),
        decreases n - i,
    {
        fastest = max_of(fastest, speed_squared_of(psi, n, n, h, i, j).sqrt());
        i = i + 1;
    }
    fastest
}

/// What row `j` adds to kinetic energy, enstrophy and circulation, and its largest
/// speed.
pub(crate) fn diagnostics_row<T: Scalar>(
    psi: &Vec<T>,
    omega: &Vec<T>,
    n: usize,
    h: T,
    j: usize,
) -> (r: (T, T, T, T))
    requires
        is_field(psi@, n as int),
        is_field(omega@, n as int),
        1 <= j < n - 1,
    ensures
        r.0 == row_energy(psi@, n as int, h, j as int, n - 1),
        r.1 == row_enstrophy(omega@, n as int, h, j as int, n - 1),
        r.2 == row_circulation(omega@, n as int, h, j as int, n - 1),
        r.3 == row_speed(psi@, n as int, h, j as int, n - 1),
{
    let mut ke: T = zero();
    let mut ens: T = zero();
    let mut circ: T = zero();
    let mut i: usize = 1;
    while i < n - 1
        invariant
            is_field(psi@, n as int),
            is_field(omega@, n as int),
            1 <= j < n - 1,
            1 <= i <= n - 1,
            ke == row_energy(psi@, n as int, h, j as int, i as int),
            ens == row_enstrophy(omega@, n as int, h, j as int, i as int),
            circ == row_circulation(omega@, n as int, h, j as int, i as int),
        decreases n - i,
    {
        T::lawful();
        let half: T = T::from_ratio(1, 2);
        let om: T = get(omega, n, i, j);
        ke = ke + half * speed_squared_of(psi, n, n, h, i, j) * (h * h);
        ens = ens + half * om * om * (h * h);
        circ = circ + om * (h * h);
        i = i + 1;
    }
    (ke, ens, circ, speed_row(psi, n, h, j))
}

/// Row `j` of the horizontal velocity.
pub(crate) fn u_row<T: Scalar>(psi: &Vec<T>, n: usize, h: T, u_lid: T, j: usize) -> (row: Vec<T>)
    requires
        is_field(psi@, n as int),
        j < n,
    ensures
        is_row(row@, n as int, j as int, u_cells(psi@, n as int, h, u_lid)),
{
    let mut row: Vec<T> = Vec::with_capacity(n);
    let mut i: usize = 0;
    while i < n
        invariant
            is_field(psi@, n as int),
            j < n,
            i <= n,
            row@.len() == i,
            forall|k: int|
                0 <= k < i ==> #[trigger] row@[k] == u_cells(psi@, n as int, h, u_lid)(
                    k,
                    j as int,
                ),
        decreases n - i,
    {
        if j == n - 1 {
            row.push(u_lid);
        } else if on_interior(n, i, j) {
            row.push(velocity_u_of(psi, n, n, h, i, j));
        } else {
            row.push(zero());
        }
        i = i + 1;
    }
    row
}

/// Row `j` of the vertical velocity.
pub(crate) fn v_row<T: Scalar>(psi: &Vec<T>, n: usize, h: T, j: usize) -> (row: Vec<T>)
    requires
        is_field(psi@, n as int),
        j < n,
    ensures
        is_row(row@, n as int, j as int, v_cells(psi@, n as int, h)),
{
    let mut row: Vec<T> = Vec::with_capacity(n);
    let mut i: usize = 0;
    while i < n
        invariant
            is_field(psi@, n as int),
            j < n,
            i <= n,
            row@.len() == i,
            forall|k: int|
                0 <= k < i ==> #[trigger] row@[k] == v_cells(psi@, n as int, h)(k, j as int),
        decreases n - i,
    {
        if on_interior(n, i, j) {
            row.push(velocity_v_of(psi, n, n, h, i, j));
        } else {
            row.push(zero());
        }
        i = i + 1;
    }
    row
}

/// Row `j` after the first Runge-Kutta stage.
pub(crate) fn euler_row<T: Scalar>(now: &Vec<T>, rate: &Vec<T>, n: usize, dt: T, j: usize) -> (row:
    Vec<T>)
    requires
        is_field(now@, n as int),
        is_field(rate@, n as int),
        j < n,
    ensures
        is_row(row@, n as int, j as int, euler_cells(now@, rate@, n as int, dt)),
{
    let mut row: Vec<T> = Vec::with_capacity(n);
    let mut i: usize = 0;
    while i < n
        invariant
            is_field(now@, n as int),
            is_field(rate@, n as int),
            j < n,
            i <= n,
            row@.len() == i,
            forall|k: int|
                0 <= k < i ==> #[trigger] row@[k] == euler_cells(now@, rate@, n as int, dt)(
                    k,
                    j as int,
                ),
        decreases n - i,
    {
        T::lawful();
        if on_interior(n, i, j) {
            row.push(get(now, n, i, j) + dt * get(rate, n, i, j));
        } else {
            row.push(get(now, n, i, j));
        }
        i = i + 1;
    }
    row
}

pub(crate) fn blended_of<T: Scalar>(a: T, start: T, b: T, now: T, dt: T, rate: T) -> (r: T)
    ensures
        r == blended(a, start, b, now, dt, rate),
{
    T::lawful();
    a * start + b * (now + dt * rate)
}

/// Row `j` after a later Runge-Kutta stage.
pub(crate) fn blend_row<T: Scalar>(
    a: T,
    start: &Vec<T>,
    b: T,
    now: &Vec<T>,
    rate: &Vec<T>,
    n: usize,
    dt: T,
    j: usize,
) -> (row: Vec<T>)
    requires
        is_field(start@, n as int),
        is_field(now@, n as int),
        is_field(rate@, n as int),
        j < n,
    ensures
        is_row(
            row@,
            n as int,
            j as int,
            blend_cells(a, start@, b, now@, rate@, n as int, dt),
        ),
{
    let mut row: Vec<T> = Vec::with_capacity(n);
    let mut i: usize = 0;
    while i < n
        invariant
            is_field(start@, n as int),
            is_field(now@, n as int),
            is_field(rate@, n as int),
            j < n,
            i <= n,
            row@.len() == i,
            forall|k: int|
                0 <= k < i ==> #[trigger] row@[k] == blend_cells(
                    a,
                    start@,
                    b,
                    now@,
                    rate@,
                    n as int,
                    dt,
                )(k, j as int),
        decreases n - i,
    {
        if on_interior(n, i, j) {
            row.push(
                blended_of(a, get(start, n, i, j), b, get(now, n, i, j), dt, get(rate, n, i, j)),
            );
        } else {
            row.push(get(now, n, i, j));
        }
        i = i + 1;
    }
    row
}

} // verus!
