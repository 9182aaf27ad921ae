//! The numerical scheme, as formulas.
//!
//! Governing equations: the vorticity `omega` is carried by the flow and diffuses,
//! the streamfunction `psi` solves the Poisson equation with right-hand side
//! `-omega`, and the velocity is `u = dpsi/dy`, `v = -dpsi/dx`.
//!
//! Everything here is generic over [`Arith`]: the executable code computes these
//! formulas in machine arithmetic, the laws read them in exact arithmetic.
use crate::grid::{at, interior, tabulate};
use crate::poisson::Spectral;
use crate::scalar::{larger, magnitude, nil, whole, Arith};
use vstd::prelude::*;

verus! {

/// The two fields of a flow.
#[verifier::ext_equal]
pub struct Flow<A> {
    pub psi: Seq<A>,
    pub omega: Seq<A>,
}

/// The parameters of a run.
pub struct Model<A> {
    /// Nodes per side.
    pub n: int,
    /// Distance between neighbouring nodes.
    pub h: A,
    /// Kinematic viscosity.
    pub nu: A,
    /// Speed of the lid.
    pub u_lid: A,
    /// Relative change at which the iteration stops.
    pub tol: A,
    /// Bound on the number of sweeps.
    pub max_it: int,
    /// Relaxation factor.
    pub sor: A,
    /// The direct solver, where one is in use.
    pub direct: Option<Spectral<A>>,
}

// ---------------------------------------------------------------------------
// Differences
// ---------------------------------------------------------------------------

/// The sum of the four neighbours: east, west, north, south.
pub open spec fn neighbours<A: Arith>(f: Seq<A>, n: int, i: int, j: int) -> A {
    at(f, n, i + 1, j) + at(f, n, i - 1, j) + at(f, n, i, j + 1) + at(f, n, i, j - 1)
}

/// The 5-point Laplacian; `h2` is the square of the grid distance.
pub open spec fn laplacian<A: Arith>(f: Seq<A>, n: int, h2: A, i: int, j: int) -> A {
    (neighbours(f, n, i, j) - whole::<A>(4) * at(f, n, i, j)) / h2
}

/// Twelve times the squared grid distance times the Arakawa Jacobian of `p` and `z`.
pub open spec fn arakawa<A: Arith>(p: Seq<A>, z: Seq<A>, n: int, i: int, j: int) -> A {
    let j1 = (at(p, n, i + 1, j) - at(p, n, i - 1, j)) * (at(z, n, i, j + 1) - at(z, n, i, j - 1))
        - (at(p, n, i, j + 1) - at(p, n, i, j - 1)) * (at(z, n, i + 1, j) - at(z, n, i - 1, j));
    let j2 = at(p, n, i + 1, j) * (at(z, n, i + 1, j + 1) - at(z, n, i + 1, j - 1)) - at(
        p,
        n,
        i - 1,
        j,
    ) * (at(z, n, i - 1, j + 1) - at(z, n, i - 1, j - 1)) - at(p, n, i, j + 1) * (at(
        z,
        n,
        i + 1,
        j + 1,
    ) - at(z, n, i - 1, j + 1)) + at(p, n, i, j - 1) * (at(z, n, i + 1, j - 1) - at(
        z,
        n,
        i - 1,
        j - 1,
    ));
    let j3 = at(z, n, i, j + 1) * (at(p, n, i + 1, j + 1) - at(p, n, i - 1, j + 1)) - at(
        z,
        n,
        i,
        j - 1,
    ) * (at(p, n, i + 1, j - 1) - at(p, n, i - 1, j - 1)) - at(z, n, i + 1, j) * (at(
        p,
        n,
        i + 1,
        j + 1,
    ) - at(p, n, i + 1, j - 1)) + at(z, n, i - 1, j) * (at(p, n, i - 1, j + 1) - at(
        p,
        n,
        i - 1,
        j - 1,
    ));
    j1 + j2 + j3
}

/// The rate of change of the vorticity at a node: advection plus diffusion.
pub open spec fn tendency<A: Arith>(
    psi: Seq<A>,
    omega: Seq<A>,
    n: int,
    h: A,
    nu: A,
    i: int,
    j: int,
) -> A {
    let h2 = h * h;
    arakawa(psi, omega, n, i, j) * (whole::<A>(1) / (whole::<A>(12) * h2)) + nu * laplacian(
        omega,
        n,
        h2,
        i,
        j,
    )
}

/// `rhs` with the rate of change written into the nodes off the walls.
pub open spec fn tendency_cells<A: Arith>(
    psi: Seq<A>,
    omega: Seq<A>,
    rhs: Seq<A>,
    n: int,
    h: A,
    nu: A,
) -> spec_fn(int, int) -> A {
    |i: int, j: int|
        if interior(n, i, j) {
            tendency(psi, omega, n, h, nu, i, j)
        } else {
            at(rhs, n, i, j)
        }
}

/// The horizontal velocity at a node off the walls.
pub open spec fn velocity_u<A: Arith>(psi: Seq<A>, n: int, h: A, i: int, j: int) -> A {
    (at(psi, n, i, j + 1) - at(psi, n, i, j - 1)) / (whole::<A>(2) * h)
}

/// The vertical velocity at a node off the walls.
pub open spec fn velocity_v<A: Arith>(psi: Seq<A>, n: int, h: A, i: int, j: int) -> A {
    (-(at(psi, n, i + 1, j) - at(psi, n, i - 1, j))) / (whole::<A>(2) * h)
}

/// The square of the speed at a node off the walls.
pub open spec fn speed_squared<A: Arith>(psi: Seq<A>, n: int, h: A, i: int, j: int) -> A {
    velocity_u(psi, n, h, i, j) * velocity_u(psi, n, h, i, j) + velocity_v(psi, n, h, i, j)
        * velocity_v(psi, n, h, i, j)
}

// ---------------------------------------------------------------------------
// Walls
// ---------------------------------------------------------------------------

/// Thom's formula for a wall at rest, from the streamfunction one node inside.
pub open spec fn wall_vorticity<A: Arith>(psi_in: A, h: A) -> A {
    (-whole::<A>(2)) * psi_in / (h * h)
}

/// Thom's formula for the moving lid.
pub open spec fn lid_vorticity<A: Arith>(psi_in: A, h: A, u_lid: A) -> A {
    wall_vorticity(psi_in, h) - whole::<A>(2) * u_lid / h
}

/// The field is zero on all walls.
pub open spec fn closed_walls<A: Arith>(psi: Seq<A>, n: int) -> bool {
    forall|i: int, j: int|
        0 <= i < n && 0 <= j < n && !interior(n, i, j) ==> #[trigger] at(psi, n, i, j) == nil::<A>()
}

/// The vorticity with the wall values set; the side walls own the corners.
pub open spec fn walled_cells<A: Arith>(
    psi: Seq<A>,
    omega: Seq<A>,
    n: int,
    h: A,
    u_lid: A,
) -> spec_fn(int, int) -> A {
    |i: int, j: int|
        if i == n - 1 {
            wall_vorticity(at(psi, n, n - 2, j), h)
        } else if i == 0 {
            wall_vorticity(at(psi, n, 1, j), h)
        } else if j == n - 1 {
            lid_vorticity(at(psi, n, i, n - 2), h, u_lid)
        } else if j == 0 {
            wall_vorticity(at(psi, n, i, 1), h)
        } else {
            at(omega, n, i, j)
        }
}

// ---------------------------------------------------------------------------
// Red-black relaxation
// ---------------------------------------------------------------------------

/// Whether a node belongs to a colour: the colours alternate like a chessboard.
pub open spec fn coloured(n: int, color: int, i: int, j: int) -> bool {
    interior(n, i, j) && (i + j + color) % 2 == 1
}

/// The change that over-relaxation makes at a node.
pub open spec fn change<A: Arith>(
    psi: Seq<A>,
    omega: Seq<A>,
    n: int,
    h2: A,
    w: A,
    i: int,
    j: int,
) -> A {
    w * ((neighbours(psi, n, i, j) + h2 * at(omega, n, i, j)) * A::ratio(1, 4) - at(psi, n, i, j))
}

/// The relaxed value of a node.
pub open spec fn relaxed<A: Arith>(
    psi: Seq<A>,
    omega: Seq<A>,
    n: int,
    h2: A,
    w: A,
    i: int,
    j: int,
) -> A {
    at(psi, n, i, j) + change(psi, omega, n, h2, w, i, j)
}

pub open spec fn sweep_cells<A: Arith>(
    psi: Seq<A>,
    omega: Seq<A>,
    n: int,
    h2: A,
    w: A,
    color: int,
) -> spec_fn(int, int) -> A {
    |i: int, j: int|
        if coloured(n, color, i, j) {
            relaxed(psi, omega, n, h2, w, i, j)
        } else {
            at(psi, n, i, j)
        }
}

/// One colour relaxed, all its nodes at once.
pub open spec fn sweep<A: Arith>(
    psi: Seq<A>,
    omega: Seq<A>,
    n: int,
    h2: A,
    w: A,
    color: int,
) -> Seq<A> {
    tabulate(n, sweep_cells(psi, omega, n, h2, w, color))
}

/// The largest change of a colour in row `j`, over the columns below `hi`.
pub open spec fn row_change<A: Arith>(
    psi: Seq<A>,
    omega: Seq<A>,
    n: int,
    h2: A,
    w: A,
    color: int,
    j: int,
    hi: int,
) -> A
    decreases hi,
{
    if hi <= 1 {
        nil()
    } else {
        let rest = row_change(psi, omega, n, h2, w, color, j, hi - 1);
        if coloured(n, color, hi - 1, j) {
            larger(rest, magnitude(change(psi, omega, n, h2, w, hi - 1, j)))
        } else {
            rest
        }
    }
}

/// The largest relaxed value of a colour in row `j`, over the columns below `hi`.
pub open spec fn row_size<A: Arith>(
    psi: Seq<A>,
    omega: Seq<A>,
    n: int,
    h2: A,
    w: A,
    color: int,
    j: int,
    hi: int,
) -> A
    decreases hi,
{
    if hi <= 1 {
        A::tiny()
    } else {
        let rest = row_size(psi, omega, n, h2, w, color, j, hi - 1);
        if coloured(n, color, hi - 1, j) {
            larger(rest, magnitude(relaxed(psi, omega, n, h2, w, hi - 1, j)))
        } else {
            rest
        }
    }
}

/// The larger of `init` and the values of the rows `1` to `hi - 1`, taken in order.
pub open spec fn peak<A: Arith>(init: A, row: spec_fn(int) -> A, hi: int) -> A
    decreases hi,
{
    if hi <= 1 {
        init
    } else {
        larger(peak(init, row, hi - 1), row(hi - 1))
    }
}

/// `init` plus the values of the rows `1` to `hi - 1`, added in order.
pub open spec fn total<A: Arith>(init: A, row: spec_fn(int) -> A, hi: int) -> A
    decreases hi,
{
    if hi <= 1 {
        init
    } else {
        total(init, row, hi - 1) + row(hi - 1)
    }
}

/// The largest change that relaxing a colour makes.
pub open spec fn colour_change<A: Arith>(
    psi: Seq<A>,
    omega: Seq<A>,
    n: int,
    h2: A,
    w: A,
    color: int,
) -> A {
    peak(nil(), |j: int| row_change(psi, omega, n, h2, w, color, j, n - 1), n - 1)
}

/// The largest value that relaxing a colour leaves on it.
pub open spec fn colour_size<A: Arith>(
    psi: Seq<A>,
    omega: Seq<A>,
    n: int,
    h2: A,
    w: A,
    color: int,
) -> A {
    peak(A::tiny(), |j: int| row_size(psi, omega, n, h2, w, color, j, n - 1), n - 1)
}

/// The field with zeros on the walls.
pub open spec fn grounded<A: Arith>(psi: Seq<A>, n: int) -> Seq<A> {
    tabulate(n, grounded_cells(psi, n))
}

pub open spec fn grounded_cells<A: Arith>(psi: Seq<A>, n: int) -> spec_fn(int, int) -> A {
    |i: int, j: int|
        if interior(n, i, j) {
            at(psi, n, i, j)
        } else {
            nil()
        }
}

// ---------------------------------------------------------------------------
// Diagnostics
// ---------------------------------------------------------------------------

/// The largest residual of the Poisson equation in row `j`, over the columns below `hi`.
pub open spec fn row_residual<A: Arith>(
    psi: Seq<A>,
    omega: Seq<A>,
    n: int,
    h2: A,
    j: int,
    hi: int,
) -> A
    decreases hi,
{
    if hi <= 1 {
        nil()
    } else {
        larger(
            row_residual(psi, omega, n, h2, j, hi - 1),
            magnitude(laplacian(psi, n, h2, hi - 1, j) + at(omega, n, hi - 1, j)),
        )
    }
}

/// The largest residual of the Poisson equation off the walls.
pub open spec fn residual<A: Arith>(psi: Seq<A>, omega: Seq<A>, n: int, h2: A) -> A {
    peak(nil(), |j: int| row_residual(psi, omega, n, h2, j, n - 1), n - 1)
}

/// The speed at a node.
pub open spec fn node_speed<A: Arith>(psi: Seq<A>, n: int, h: A, i: int, j: int) -> A {
    speed_squared(psi, n, h, i, j).root()
}

/// The largest speed in row `j`, over the columns below `hi`.
pub open spec fn row_speed<A: Arith>(psi: Seq<A>, n: int, h: A, j: int, hi: int) -> A
    decreases hi,
{
    if hi <= 1 {
        nil()
    } else {
        larger(row_speed(psi, n, h, j, hi - 1), node_speed(psi, n, h, hi - 1, j))
    }
}

/// The largest speed off the walls.
pub open spec fn top_speed<A: Arith>(psi: Seq<A>, n: int, h: A) -> A {
    peak(nil(), |j: int| row_speed(psi, n, h, j, n - 1), n - 1)
}

/// The kinetic energy of row `j`, over the columns below `hi`.
pub open spec fn row_energy<A: Arith>(psi: Seq<A>, n: int, h: A, j: int, hi: int) -> A
    decreases hi,
{
    if hi <= 1 {
        nil()
    } else {
        row_energy(psi, n, h, j, hi - 1) + A::ratio(1, 2) * speed_squared(psi, n, h, hi - 1, j) * (h
            * h)
    }
}

/// The enstrophy of row `j`, over the columns below `hi`.
pub open spec fn row_enstrophy<A: Arith>(omega: Seq<A>, n: int, h: A, j: int, hi: int) -> A
    decreases hi,
{
    if hi <= 1 {
        nil()
    } else {
        row_enstrophy(omega, n, h, j, hi - 1) + A::ratio(1, 2) * at(omega, n, hi - 1, j) * at(
            omega,
            n,
            hi - 1,
            j,
        ) * (h * h)
    }
}

/// The circulation of row `j`, over the columns below `hi`.
pub open spec fn row_circulation<A: Arith>(omega: Seq<A>, n: int, h: A, j: int, hi: int) -> A
    decreases hi,
{
    if hi <= 1 {
        nil()
    } else {
        row_circulation(omega, n, h, j, hi - 1) + at(omega, n, hi - 1, j) * (h * h)
    }
}

pub open spec fn kinetic_energy<A: Arith>(psi: Seq<A>, n: int, h: A) -> A {
    total(nil(), |j: int| row_energy(psi, n, h, j, n - 1), n - 1)
}

pub open spec fn enstrophy<A: Arith>(omega: Seq<A>, n: int, h: A) -> A {
    total(nil(), |j: int| row_enstrophy(omega, n, h, j, n - 1), n - 1)
}

pub open spec fn circulation<A: Arith>(omega: Seq<A>, n: int, h: A) -> A {
    total(nil(), |j: int| row_circulation(omega, n, h, j, n - 1), n - 1)
}

/// The horizontal velocity field; the top row moves with the lid.
pub open spec fn u_cells<A: Arith>(psi: Seq<A>, n: int, h: A, u_lid: A) -> spec_fn(int, int) -> A {
    |i: int, j: int|
        if j == n - 1 {
            u_lid
        } else if interior(n, i, j) {
            velocity_u(psi, n, h, i, j)
        } else {
            nil()
        }
}

/// The vertical velocity field, zero on the walls.
pub open spec fn v_cells<A: Arith>(psi: Seq<A>, n: int, h: A) -> spec_fn(int, int) -> A {
    |i: int, j: int|
        if interior(n, i, j) {
            velocity_v(psi, n, h, i, j)
        } else {
            nil()
        }
}

// ---------------------------------------------------------------------------
// Runge-Kutta stages
// ---------------------------------------------------------------------------

/// The weights of a stage: `a * start + b * (now + dt * rate)`.
pub open spec fn blended<A: Arith>(a: A, start: A, b: A, now: A, dt: A, rate: A) -> A {
    a * start + b * (now + dt * rate)
}

/// The first stage: an Euler step off the walls.
pub open spec fn euler_cells<A: Arith>(now: Seq<A>, rate: Seq<A>, n: int, dt: A) -> spec_fn(
    int,
    int,
) -> A {
    |i: int, j: int|
        if interior(n, i, j) {
            at(now, n, i, j) + dt * at(rate, n, i, j)
        } else {
            at(now, n, i, j)
        }
}

/// A later stage: a weighted mean of the start and an Euler step, off the walls.
pub open spec fn blend_cells<A: Arith>(
    a: A,
    start: Seq<A>,
    b: A,
    now: Seq<A>,
    rate: Seq<A>,
    n: int,
    dt: A,
) -> spec_fn(int, int) -> A {
    |i: int, j: int|
        if interior(n, i, j) {
            blended(a, at(start, n, i, j), b, at(now, n, i, j), dt, at(rate, n, i, j))
        } else {
            at(now, n, i, j)
        }
}

/// How many sweeps pass between two tests of convergence.
pub open spec fn check_interval() -> int {
    4
}

impl<A: Arith> Model<A> {
    pub open spec fn h2(self) -> A {
        self.h * self.h
    }

    /// Both colours relaxed, one after the other.
    pub open spec fn relax(self, psi: Seq<A>, omega: Seq<A>) -> Seq<A> {
        let red = sweep(psi, omega, self.n, self.h2(), self.sor, 0);
        sweep(red, omega, self.n, self.h2(), self.sor, 1)
    }

    /// The relative change that relaxing both colours makes: the largest change over
    /// the largest value.
    pub open spec fn relative_change(self, psi: Seq<A>, omega: Seq<A>) -> A {
        let red = sweep(psi, omega, self.n, self.h2(), self.sor, 0);
        larger(
            larger(nil(), colour_change(psi, omega, self.n, self.h2(), self.sor, 0)),
            colour_change(red, omega, self.n, self.h2(), self.sor, 1),
        ) / larger(
            larger(A::tiny(), colour_size(psi, omega, self.n, self.h2(), self.sor, 0)),
            colour_size(red, omega, self.n, self.h2(), self.sor, 1),
        )
    }

    /// The streamfunction after `k` relaxations.
    pub open spec fn after(self, psi: Seq<A>, omega: Seq<A>, k: int) -> Seq<A>
        decreases k,
    {
        if k <= 0 {
            psi
        } else {
            self.relax(self.after(psi, omega, k - 1), omega)
        }
    }

    /// The relative change that relaxation number `k` made, counted from one.
    pub open spec fn measured(self, psi: Seq<A>, omega: Seq<A>, k: int) -> A {
        self.relative_change(self.after(psi, omega, k - 1), omega)
    }

    /// Whether the test after relaxation `k` ends the iteration. Only every fourth
    /// relaxation is tested.
    pub open spec fn converged(self, psi: Seq<A>, omega: Seq<A>, k: int) -> bool {
        k % check_interval() == 0 && self.measured(psi, omega, k) < self.tol
    }

    /// The number of relaxations in all, where `k` were made already: up to the first
    /// test that succeeds, at most `max_it`.
    pub open spec fn sweeps(self, psi: Seq<A>, omega: Seq<A>, k: int) -> int
        decreases self.max_it - k,
    {
        if k >= self.max_it {
            k
        } else if self.converged(psi, omega, k + 1) {
            k + 1
        } else {
            self.sweeps(psi, omega, k + 1)
        }
    }

    /// The last relative change that was measured in `k` relaxations.
    pub open spec fn last_measured(self, psi: Seq<A>, omega: Seq<A>, k: int) -> A {
        if k < check_interval() {
            nil()
        } else {
            self.measured(psi, omega, k - k % check_interval())
        }
    }

    /// The iterations that a Poisson solve takes.
    pub open spec fn poisson_iterations(self, f: Flow<A>) -> int {
        match self.direct {
            Some(s) => 1,
            None => self.sweeps(grounded(f.psi, self.n), f.omega, 0),
        }
    }

    /// The streamfunction that a Poisson solve leaves.
    pub open spec fn poisson_psi(self, f: Flow<A>) -> Seq<A> {
        match self.direct {
            Some(s) => s.solved(f.omega, f.psi),
            None => self.after(grounded(f.psi, self.n), f.omega, self.poisson_iterations(f)),
        }
    }

    /// What a Poisson solve reports: the true residual of the direct solver, the last
    /// relative change of the iteration.
    pub open spec fn poisson_report(self, f: Flow<A>) -> A {
        match self.direct {
            Some(s) => residual(self.poisson_psi(f), f.omega, self.n, self.h2()),
            None => self.last_measured(
                grounded(f.psi, self.n),
                f.omega,
                self.poisson_iterations(f),
            ),
        }
    }

    /// A flow after a Poisson solve.
    pub open spec fn with_poisson(self, f: Flow<A>) -> Flow<A> {
        Flow { psi: self.poisson_psi(f), omega: f.omega }
    }

    /// A flow with the wall vorticity set.
    pub open spec fn with_walls(self, f: Flow<A>) -> Flow<A> {
        Flow {
            psi: f.psi,
            omega: tabulate(self.n, walled_cells(f.psi, f.omega, self.n, self.h, self.u_lid)),
        }
    }

    /// What each stage starts from: the streamfunction solved, the walls set.
    pub open spec fn prepared(self, f: Flow<A>) -> Flow<A> {
        self.with_walls(self.with_poisson(f))
    }

    /// The rate of change of the vorticity, zero on the walls.
    pub open spec fn rate(self, f: Flow<A>) -> Seq<A> {
        tabulate(
            self.n,
            |i: int, j: int|
                if interior(self.n, i, j) {
                    tendency(f.psi, f.omega, self.n, self.h, self.nu, i, j)
                } else {
                    nil()
                },
        )
    }

    /// The flow after the first stage of a step, from the prepared flow.
    pub open spec fn stage1(self, f: Flow<A>, dt: A) -> Flow<A> {
        Flow { psi: f.psi, omega: tabulate(self.n, euler_cells(f.omega, self.rate(f), self.n, dt)) }
    }

    /// The flow after the second stage, `start` being the vorticity of the first
    /// prepared flow.
    pub open spec fn stage2(self, start: Seq<A>, f: Flow<A>, dt: A) -> Flow<A> {
        Flow {
            psi: f.psi,
            omega: tabulate(
                self.n,
                blend_cells(
                    A::ratio(3, 4),
                    start,
                    A::ratio(1, 4),
                    f.omega,
                    self.rate(f),
                    self.n,
                    dt,
                ),
            ),
        }
    }

    /// The flow after the third stage.
    pub open spec fn stage3(self, start: Seq<A>, f: Flow<A>, dt: A) -> Flow<A> {
        Flow {
            psi: f.psi,
            omega: tabulate(
                self.n,
                blend_cells(
                    A::ratio(1, 3),
                    start,
                    A::ratio(2, 3),
                    f.omega,
                    self.rate(f),
                    self.n,
                    dt,
                ),
            ),
        }
    }

    /// The flow that enters the second stage's Poisson solve.
    pub open spec fn after1(self, f: Flow<A>, dt: A) -> Flow<A> {
        self.stage1(self.prepared(f), dt)
    }

    /// The flow that enters the third stage's Poisson solve.
    pub open spec fn after2(self, f: Flow<A>, dt: A) -> Flow<A> {
        self.stage2(self.prepared(f).omega, self.prepared(self.after1(f, dt)), dt)
    }

    /// One SSP-RK3 step.
    pub open spec fn step(self, f: Flow<A>, dt: A) -> Flow<A> {
        self.stage3(self.prepared(f).omega, self.prepared(self.after2(f, dt)), dt)
    }

    /// The Poisson iterations of a step.
    pub open spec fn step_iterations(self, f: Flow<A>, dt: A) -> int {
        self.poisson_iterations(f) + self.poisson_iterations(self.after1(f, dt))
            + self.poisson_iterations(self.after2(f, dt))
    }

    /// What the last Poisson solve of a step reports.
    pub open spec fn step_report(self, f: Flow<A>, dt: A) -> A {
        self.poisson_report(self.after2(f, dt))
    }

    /// The largest speed, at least that of the lid.
    pub open spec fn max_speed(self, f: Flow<A>) -> A {
        larger(top_speed(f.psi, self.n, self.h), self.u_lid)
    }
}

} // verus!
