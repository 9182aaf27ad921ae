//! The flow past an obstacle in a channel, as formulas.
//!
//! The channel is four times as long as it is high. Fluid enters on the left at a uniform
//! speed and leaves on the right, where nothing changes along the stream any more. The
//! walls above and below do not hold the fluid; the obstacle, a staircase of solid nodes,
//! does.
use crate::grid::at;
use crate::model::{
    blended, change, node_speed, relaxed, speed_squared, tendency, velocity_u, velocity_v,
    wall_vorticity, Flow,
};
use crate::plane::{grand_total, largest, table};
use crate::scalar::{larger, magnitude, nil, whole, Arith};
use vstd::prelude::*;

verus! {

/// The parameters of a run in the channel.
pub struct ChannelModel<A> {
    /// Nodes along the channel.
    pub nx: int,
    /// Nodes across it.
    pub ny: int,
    /// Distance between neighbouring nodes.
    pub h: A,
    /// Kinematic viscosity.
    pub nu: A,
    /// Speed of the inflow.
    pub u_in: A,
    /// Relative change at which the iteration stops.
    pub tol: A,
    /// Bound on the number of sweeps.
    pub max_it: int,
    /// Relaxation factor.
    pub sor: A,
    /// The streamfunction of the body.
    pub psi_body: A,
    /// Which nodes the body covers.
    pub mask: Seq<bool>,
}

/// The nodes along a channel that is `ny` nodes high.
pub open spec fn channel_length(ny: int) -> int {
    4 * (ny - 1) + 1
}

/// The coordinate of a column or a row.
pub open spec fn coordinate<A: Arith>(h: A, k: int) -> A {
    whole::<A>(k) * h
}

/// The optimal relaxation factor of a rectangle of `nx * ny` nodes.
pub open spec fn rectangle_factor<A: Arith>(nx: int, ny: int) -> A {
    let rho = A::ratio(1, 2) * ((A::half_turn() / whole::<A>(nx)).cosine() + (A::half_turn()
        / whole::<A>(ny)).cosine());
    whole::<A>(2) / (whole::<A>(1) + (whole::<A>(1) - rho * rho).root())
}

/// The vorticity that seeds the wake: a bump around the anchor `(x, y)` with the length of
/// the body as its diameter, a tenth as strong as the stream turns over that length.
pub open spec fn seed<A: Arith>(u: A, anchor: (A, A, A), x: A, y: A) -> A {
    let (ax, ay, len) = anchor;
    let reach = A::ratio(1, 4) * len * len;
    let r2 = (x - ax) * (x - ax) + (y - ay) * (y - ay);
    if r2 < reach {
        A::ratio(1, 10) * u / len * (whole::<A>(1) - r2 / reach)
    } else {
        nil()
    }
}

impl<A: Arith> ChannelModel<A> {
    /// Whether a node lies off the rim.
    pub open spec fn inside(self, i: int, j: int) -> bool {
        1 <= i < self.nx - 1 && 1 <= j < self.ny - 1
    }

    /// Whether the body covers a node.
    pub open spec fn solid(self, i: int, j: int) -> bool {
        at(self.mask, self.nx, i, j)
    }

    /// Whether the flow is computed at a node.
    pub open spec fn fluid(self, i: int, j: int) -> bool {
        self.inside(i, j) && !self.solid(i, j)
    }

    pub open spec fn h2(self) -> A {
        self.h * self.h
    }

    /// The streamfunction of the uniform stream in row `j`.
    pub open spec fn stream(self, j: int) -> A {
        self.u_in * coordinate(self.h, j)
    }

    /// The streamfunction off the inflow and outflow, with the body and the walls set.
    pub open spec fn held_psi(self, psi: Seq<A>, i: int, j: int) -> A {
        if j == 0 || j == self.ny - 1 {
            self.stream(j)
        } else if self.solid(i, j) {
            self.psi_body
        } else {
            at(psi, self.nx, i, j)
        }
    }

    /// The streamfunction with all its boundary values: the uniform stream at the inflow,
    /// streamlines along the walls and the body, and at the outflow what stands before it.
    pub open spec fn bounded_cells(self, psi: Seq<A>) -> spec_fn(int, int) -> A {
        |i: int, j: int|
            if i == 0 {
                self.stream(j)
            } else if i == self.nx - 1 {
                self.held_psi(psi, self.nx - 2, j)
            } else {
                self.held_psi(psi, i, j)
            }
    }

    pub open spec fn bounded(self, psi: Seq<A>) -> Seq<A> {
        table(self.nx, self.ny, self.bounded_cells(psi))
    }

    /// Whether a node is relaxed with a colour.
    pub open spec fn marked(self, color: int, i: int, j: int) -> bool {
        self.fluid(i, j) && (i + j + color) % 2 == 1
    }

    pub open spec fn sweep_cells(self, psi: Seq<A>, omega: Seq<A>, color: int) -> spec_fn(
        int,
        int,
    ) -> A {
        |i: int, j: int|
            if self.marked(color, i, j) {
                relaxed(psi, omega, self.nx, self.h2(), self.sor, i, j)
            } else {
                at(psi, self.nx, i, j)
            }
    }

    /// One colour relaxed, all its nodes at once.
    pub open spec fn sweep(self, psi: Seq<A>, omega: Seq<A>, color: int) -> Seq<A> {
        table(self.nx, self.ny, self.sweep_cells(psi, omega, color))
    }

    pub open spec fn outflow_cells(self, psi: Seq<A>) -> spec_fn(int, int) -> A {
        |i: int, j: int|
            if i == self.nx - 1 {
                at(psi, self.nx, self.nx - 2, j)
            } else {
                at(psi, self.nx, i, j)
            }
    }

    /// The last column set to the one before it.
    pub open spec fn outflow(self, psi: Seq<A>) -> Seq<A> {
        table(self.nx, self.ny, self.outflow_cells(psi))
    }

    /// Both colours relaxed, one after the other, then the outflow.
    pub open spec fn relax(self, psi: Seq<A>, omega: Seq<A>) -> Seq<A> {
        self.outflow(self.sweep(self.sweep(psi, omega, 0), omega, 1))
    }

    /// The size of the change that relaxing a colour makes at a node.
    pub open spec fn change_value(self, psi: Seq<A>, omega: Seq<A>, color: int) -> spec_fn(
        int,
        int,
    ) -> Option<A> {
        |i: int, j: int|
            if self.marked(color, i, j) {
                Some(magnitude(change(psi, omega, self.nx, self.h2(), self.sor, i, j)))
            } else {
                None
            }
    }

    /// The size of the value that relaxing a colour leaves at a node.
    pub open spec fn size_value(self, psi: Seq<A>, omega: Seq<A>, color: int) -> spec_fn(
        int,
        int,
    ) -> Option<A> {
        |i: int, j: int|
            if self.marked(color, i, j) {
                Some(magnitude(relaxed(psi, omega, self.nx, self.h2(), self.sor, i, j)))
            } else {
                None
            }
    }

    /// The largest change of a relaxation over the largest value.
    pub open spec fn relative_change(self, psi: Seq<A>, omega: Seq<A>) -> A {
        let red = self.sweep(psi, omega, 0);
        larger(
            largest(nil(), self.change_value(psi, omega, 0), self.nx, self.ny),
            largest(nil(), self.change_value(red, omega, 1), self.nx, self.ny),
        ) / larger(
            largest(A::tiny(), self.size_value(psi, omega, 0), self.nx, self.ny),
            largest(A::tiny(), self.size_value(red, omega, 1), self.nx, self.ny),
        )
    }

    /// The streamfunction after `k` relaxations.
    pub open spec fn after(self, psi: Seq<A>, omega: Seq<A>, k: int) -> Seq<A>
        decreases k,
    {
        if k <= 0 {
            psi
        } else {
            self.relax(self.after(psi, omega, k - 1), omega)
        }
    }

    /// The relative change that relaxation number `k` made, counted from one.
    pub open spec fn measured(self, psi: Seq<A>, omega: Seq<A>, k: int) -> A {
        self.relative_change(self.after(psi, omega, k - 1), omega)
    }

    /// Whether the test after relaxation `k` ends the iteration. Only every fourth
    /// relaxation is tested.
    pub open spec fn converged(self, psi: Seq<A>, omega: Seq<A>, k: int) -> bool {
        k % 4 == 0 && self.measured(psi, omega, k) < self.tol
    }

    /// The number of relaxations in all, where `k` were made already.
    pub open spec fn sweeps(self, psi: Seq<A>, omega: Seq<A>, k: int) -> int
        decreases self.max_it - k,
    {
        if k >= self.max_it {
            k
        } else if self.converged(psi, omega, k + 1) {
            k + 1
        } else {
            self.sweeps(psi, omega, k + 1)
        }
    }

    /// The last relative change that was measured in `k` relaxations.
    pub open spec fn last_measured(self, psi: Seq<A>, omega: Seq<A>, k: int) -> A {
        if k < 4 {
            nil()
        } else {
            self.measured(psi, omega, k - k % 4)
        }
    }

    /// The iterations that a Poisson solve takes.
    pub open spec fn poisson_iterations(self, f: Flow<A>) -> int {
        self.sweeps(self.bounded(f.psi), f.omega, 0)
    }

    /// The streamfunction that a Poisson solve leaves.
    pub open spec fn poisson_psi(self, f: Flow<A>) -> Seq<A> {
        self.after(self.bounded(f.psi), f.omega, self.poisson_iterations(f))
    }

    /// The relative change that a Poisson solve ends with.
    pub open spec fn poisson_report(self, f: Flow<A>) -> A {
        self.last_measured(self.bounded(f.psi), f.omega, self.poisson_iterations(f))
    }

    /// A flow after a Poisson solve.
    pub open spec fn with_poisson(self, f: Flow<A>) -> Flow<A> {
        Flow { psi: self.poisson_psi(f), omega: f.omega }
    }

    /// How far the streamfunction of a fluid neighbour lies above that of the body.
    pub open spec fn lift(self, psi: Seq<A>, i: int, j: int) -> A {
        if self.fluid(i, j) {
            at(psi, self.nx, i, j) - self.psi_body
        } else {
            nil()
        }
    }

    /// One for a fluid node.
    pub open spec fn exposed(self, i: int, j: int) -> int {
        if self.fluid(i, j) {
            1
        } else {
            0
        }
    }

    /// How many neighbours of a node are fluid.
    pub open spec fn exposure(self, i: int, j: int) -> int {
        self.exposed(i + 1, j) + self.exposed(i - 1, j) + self.exposed(i, j + 1) + self.exposed(
            i,
            j - 1,
        )
    }

    /// The vorticity of a node of the body, which does not slip: the mean of Thom's formula
    /// over its fluid neighbours, zero where it has none.
    pub open spec fn body_vorticity(self, psi: Seq<A>, i: int, j: int) -> A {
        if self.exposure(i, j) == 0 {
            nil()
        } else {
            wall_vorticity(
                self.lift(psi, i + 1, j) + self.lift(psi, i - 1, j) + self.lift(psi, i, j + 1)
                    + self.lift(psi, i, j - 1),
                self.h,
            ) / whole::<A>(self.exposure(i, j))
        }
    }

    /// The vorticity off the inflow and outflow, with the body and the walls set.
    pub open spec fn held_omega(self, psi: Seq<A>, omega: Seq<A>, i: int, j: int) -> A {
        if j == 0 || j == self.ny - 1 {
            nil()
        } else if self.solid(i, j) {
            self.body_vorticity(psi, i, j)
        } else {
            at(omega, self.nx, i, j)
        }
    }

    /// The vorticity with all its boundary values: none at the inflow and along the walls,
    /// that of a body which does not slip, and at the outflow what stands before it.
    pub open spec fn walled_cells(self, psi: Seq<A>, omega: Seq<A>) -> spec_fn(int, int) -> A {
        |i: int, j: int|
            if i == 0 {
                nil()
            } else if i == self.nx - 1 {
                self.held_omega(psi, omega, self.nx - 2, j)
            } else {
                self.held_omega(psi, omega, i, j)
            }
    }

    /// A flow with the boundary vorticity set.
    pub open spec fn with_walls(self, f: Flow<A>) -> Flow<A> {
        Flow { psi: f.psi, omega: table(self.nx, self.ny, self.walled_cells(f.psi, f.omega)) }
    }

    /// What each stage starts from.
    pub open spec fn prepared(self, f: Flow<A>) -> Flow<A> {
        self.with_walls(self.with_poisson(f))
    }

    /// The first stage: an Euler step of the fluid.
    pub open spec fn euler_cells(self, f: Flow<A>, dt: A) -> spec_fn(int, int) -> A {
        |i: int, j: int|
            if self.fluid(i, j) {
                at(f.omega, self.nx, i, j) + dt * tendency(
                    f.psi,
                    f.omega,
                    self.nx,
                    self.h,
                    self.nu,
                    i,
                    j,
                )
            } else {
                at(f.omega, self.nx, i, j)
            }
    }

    /// A later stage: a weighted mean of the start and an Euler step of the fluid.
    pub open spec fn blend_cells(
        self,
        a: A,
        start: Seq<A>,
        b: A,
        f: Flow<A>,
        dt: A,
    ) -> spec_fn(int, int) -> A {
        |i: int, j: int|
            if self.fluid(i, j) {
                blended(
                    a,
                    at(start, self.nx, i, j),
                    b,
                    at(f.omega, self.nx, i, j),
                    dt,
                    tendency(f.psi, f.omega, self.nx, self.h, self.nu, i, j),
                )
            } else {
                at(f.omega, self.nx, i, j)
            }
    }

    /// The flow after a later stage.
    pub open spec fn stage(self, a: A, start: Seq<A>, b: A, f: Flow<A>, dt: A) -> Flow<A> {
        Flow { psi: f.psi, omega: table(self.nx, self.ny, self.blend_cells(a, start, b, f, dt)) }
    }

    /// The flow that enters the second stage's Poisson solve.
    pub open spec fn after1(self, f: Flow<A>, dt: A) -> Flow<A> {
        let p = self.prepared(f);
        Flow { psi: p.psi, omega: table(self.nx, self.ny, self.euler_cells(p, dt)) }
    }

    /// The flow that enters the third stage's Poisson solve.
    pub open spec fn after2(self, f: Flow<A>, dt: A) -> Flow<A> {
        self.stage(
            A::ratio(3, 4),
            self.prepared(f).omega,
            A::ratio(1, 4),
            self.prepared(self.after1(f, dt)),
            dt,
        )
    }

    /// One SSP-RK3 step.
    pub open spec fn step(self, f: Flow<A>, dt: A) -> Flow<A> {
        self.stage(
            A::ratio(1, 3),
            self.prepared(f).omega,
            A::ratio(2, 3),
            self.prepared(self.after2(f, dt)),
            dt,
        )
    }

    /// The Poisson iterations of a step.
    pub open spec fn step_iterations(self, f: Flow<A>, dt: A) -> int {
        self.poisson_iterations(f) + self.poisson_iterations(self.after1(f, dt))
            + self.poisson_iterations(self.after2(f, dt))
    }

    /// What the last Poisson solve of a step reports.
    pub open spec fn step_report(self, f: Flow<A>, dt: A) -> A {
        self.poisson_report(self.after2(f, dt))
    }

    /// The speed at a fluid node.
    pub open spec fn speed_value(self, psi: Seq<A>) -> spec_fn(int, int) -> Option<A> {
        |i: int, j: int|
            if self.fluid(i, j) {
                Some(node_speed(psi, self.nx, self.h, i, j))
            } else {
                None
            }
    }

    /// The largest speed of the fluid off the rim.
    pub open spec fn top_speed(self, f: Flow<A>) -> A {
        largest(nil(), self.speed_value(f.psi), self.nx, self.ny)
    }

    /// The largest speed, at least that of the inflow.
    pub open spec fn max_speed(self, f: Flow<A>) -> A {
        larger(self.top_speed(f), self.u_in)
    }

    pub open spec fn energy_value(self, psi: Seq<A>) -> spec_fn(int, int) -> Option<A> {
        |i: int, j: int|
            if self.fluid(i, j) {
                Some(A::ratio(1, 2) * speed_squared(psi, self.nx, self.h, i, j) * (self.h * self.h))
            } else {
                None
            }
    }

    pub open spec fn enstrophy_value(self, omega: Seq<A>) -> spec_fn(int, int) -> Option<A> {
        |i: int, j: int|
            if self.fluid(i, j) {
                let w = at(omega, self.nx, i, j);
                Some(A::ratio(1, 2) * w * w * (self.h * self.h))
            } else {
                None
            }
    }

    pub open spec fn circulation_value(self, omega: Seq<A>) -> spec_fn(int, int) -> Option<A> {
        |i: int, j: int|
            if self.fluid(i, j) {
                Some(at(omega, self.nx, i, j) * (self.h * self.h))
            } else {
                None
            }
    }

    /// The kinetic energy of the fluid.
    pub open spec fn kinetic_energy(self, f: Flow<A>) -> A {
        grand_total(self.energy_value(f.psi), self.nx, self.ny)
    }

    /// The enstrophy of the fluid.
    pub open spec fn enstrophy(self, f: Flow<A>) -> A {
        grand_total(self.enstrophy_value(f.omega), self.nx, self.ny)
    }

    /// The circulation of the fluid.
    pub open spec fn circulation(self, f: Flow<A>) -> A {
        grand_total(self.circulation_value(f.omega), self.nx, self.ny)
    }

    /// The horizontal velocity off the inflow and outflow: by one-sided differences along
    /// the walls, where the fluid slips; zero in the body.
    pub open spec fn held_u(self, psi: Seq<A>, i: int, j: int) -> A {
        if j == 0 {
            (at(psi, self.nx, i, 1) - at(psi, self.nx, i, 0)) / self.h
        } else if j == self.ny - 1 {
            (at(psi, self.nx, i, self.ny - 1) - at(psi, self.nx, i, self.ny - 2)) / self.h
        } else if self.solid(i, j) {
            nil()
        } else {
            velocity_u(psi, self.nx, self.h, i, j)
        }
    }

    /// The horizontal velocity field: the inflow, and at the outflow what stands before it.
    pub open spec fn u_cells(self, psi: Seq<A>) -> spec_fn(int, int) -> A {
        |i: int, j: int|
            if i == 0 {
                self.u_in
            } else if i == self.nx - 1 {
                self.held_u(psi, self.nx - 2, j)
            } else {
                self.held_u(psi, i, j)
            }
    }

    /// The vertical velocity field, zero on the rim and in the body.
    pub open spec fn v_cells(self, psi: Seq<A>) -> spec_fn(int, int) -> A {
        |i: int, j: int|
            if self.fluid(i, j) {
                velocity_v(psi, self.nx, self.h, i, j)
            } else {
                nil()
            }
    }
}

} // verus!
