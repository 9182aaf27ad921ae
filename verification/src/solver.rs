//! 2D incompressible flow solver (vorticity-streamfunction form).
//!
//!   * Advection: Arakawa Jacobian (conserves energy and enstrophy).
//!   * Diffusion: standard 5-point Laplacian.
//!   * Time: SSP-RK3 (strong-stability-preserving Runge-Kutta).
//!   * Poisson: direct solve by sine transforms, or red-black SOR (see
//!     [`crate::poisson`]).
//!   * Walls: streamfunction zero (no penetration) and Thom's formula for the wall
//!     vorticity, through which the moving lid drives the flow.
use crate::config::Config;
use crate::fft::{exponent, power_of_two};
use crate::grid::{
    at, build_field, copied, filled, idx, interior, is_field, is_row, lemma_index,
    lemma_is_tabulated, lemma_same_table, tabulate,
};
use crate::kernels::{
    blend_row, diagnostics_row, euler_row, get, grounded_row, lid_vorticity_of, residual_row,
    row_peaks, speed_row, sweep_row, tendency_row, u_row, v_row, wall_vorticity_of,
};
use crate::laws::order::{law_lid_speed_bounded, law_node_speed_bounded};
use crate::laws::walls::law_step_keeps_walls;
use crate::model::{
    blend_cells, check_interval, circulation, closed_walls, colour_change, colour_size, enstrophy,
    euler_cells, grounded_cells, kinetic_energy, lid_vorticity, node_speed, peak, residual,
    row_change, row_circulation, row_energy, row_enstrophy, row_residual, row_size, row_speed,
    sweep, sweep_cells, tendency, tendency_cells, top_speed, total, u_cells, v_cells,
    wall_vorticity, walled_cells, Flow, Model,
};
use crate::parallel::{current_num_threads, map_range};
use crate::poisson::{direct_solver, PoissonFft};
use crate::scalar::{count, le_bytes, max_of, nil, proper, whole, zero, Arith, Scalar};
use crate::text::reads;
use vstd::arithmetic::power2::{lemma_pow2_unfold, pow2};
use vstd::prelude::*;

verus! {

pub struct Solver<T> {
    cfg: Config<T>,
    n: usize,
    h: T,
    nu: T,
    omega: Vec<T>,
    psi: Vec<T>,
    sor: T,
    min_len: usize,
    fft_poisson: Option<PoissonFft<T>>,
}

/// Whether a choice of solver means the direct one: "sor" never, "fft" always,
/// anything else where the grid allows it.
pub open spec fn chooses_direct(solver: Seq<char>, n: int) -> bool {
    if solver == "sor"@ {
        false
    } else if solver == "fft"@ {
        true
    } else {
        power_of_two(n - 1)
    }
}

/// The parameters of the cavity that a configuration asks for.
pub open spec fn cavity_model<A: Arith>(cfg: Config<A>) -> Model<A> {
    let n = cfg.n as int;
    let h = cfg.l / (whole::<A>(n) - whole::<A>(1));
    Model {
        n,
        h,
        nu: cfg.u_lid * cfg.l / cfg.re,
        u_lid: cfg.u_lid,
        tol: cfg.poisson_tol,
        max_it: cfg.poisson_max_it as int,
        sor: whole::<A>(2) / (whole::<A>(1) + (A::half_turn() / whole::<A>(n)).sine()),
        direct: if chooses_direct(cfg.solver@, n) {
            Some(direct_solver(n, h))
        } else {
            None
        },
    }
}

/// The sum of three counts, as a count of the machine holds it.
pub(crate) fn tally(a: usize, b: usize, c: usize) -> (r: usize)
    ensures
        r == (a + b + c) % (usize::MAX + 1),
        a + b + c <= usize::MAX ==> r == a + b + c,
{
    let r: usize = a.wrapping_add(b).wrapping_add(c);
    proof {
        let m = usize::MAX + 1;
        let s = a + b + c;
        let q = if s < m {
            0int
        } else if s < 2 * m {
            1
        } else {
            2
        };
        assert(r == s - q * m);
        vstd::arithmetic::div_mod::lemma_fundamental_div_mod_converse(s, m, q, s - q * m);
    }
    r
}

/// The rows of a task, so that there are about as many tasks as threads.
pub open spec fn band(n: int, threads: int) -> int {
    let rows = (n - 2) / if threads < 1 {
        1
    } else {
        threads
    };
    if rows < 1 {
        1
    } else {
        rows
    }
}

/// The least number of rows that one task takes.
pub fn band_length(n: usize, threads: usize) -> (r: usize)
    requires
        n >= 2,
    ensures
        r == band(n as int, threads as int),
{
    let t: usize = if threads < 1 {
        1
    } else {
        threads
    };
    let rows: usize = (n - 2) / t;
    if rows < 1 {
        1
    } else {
        rows
    }
}

/// Whether a choice of solver means the direct one.
pub fn picks_direct(solver: &String, n: usize) -> (r: bool)
    requires
        n >= 2,
    ensures
        r == chooses_direct(solver@, n as int),
{
    if reads(solver, "sor") {
        false
    } else if reads(solver, "fft") {
        true
    } else {
        match exponent(n - 1) {
            Some(b) => {
                assert(n - 1 == pow2(b as nat));
                true
            },
            None => false,
        }
    }
}

/// The larger of `init` and all rows, taken in order.
fn fold_peak<T: Scalar>(rows: &Vec<T>, init: T, Ghost(row): Ghost<spec_fn(int) -> T>) -> (r: T)
    requires
        forall|k: int| 0 <= k < rows@.len() ==> #[trigger] rows@[k] == row(k + 1),
    ensures
        r == peak(init, row, rows@.len() as int + 1),
{
    let mut acc: T = init;
    let mut k: usize = 0;
    while k < rows.len()
        invariant
            k <= rows@.len(),
            forall|c: int| 0 <= c < rows@.len() ==> #[trigger] rows@[c] == row(c + 1),
            acc == peak(init, row, k + 1),
        decreases rows@.len() - k,
    {
        acc = max_of(acc, rows[k]);
        k = k + 1;
    }
    acc
}

/// What one more relaxation does to the count, the field and the report.
proof fn lemma_iteration<A: Arith>(m: Model<A>, psi: Seq<A>, omega: Seq<A>, it: int)
    requires
        0 <= it < m.max_it,
    ensures
        m.after(psi, omega, it + 1) == m.relax(m.after(psi, omega, it), omega),
        m.sweeps(psi, omega, it) == if m.converged(psi, omega, it + 1) {
            it + 1
        } else {
            m.sweeps(psi, omega, it + 1)
        },
        (it + 1) % 4 == 0 ==> m.last_measured(psi, omega, it + 1) == m.relative_change(
            m.after(psi, omega, it),
            omega,
        ),
        (it + 1) % 4 != 0 ==> m.last_measured(psi, omega, it + 1) == m.last_measured(
            psi,
            omega,
            it,
        ),
        m.converged(psi, omega, it + 1) == ((it + 1) % 4 == 0 && m.relative_change(
            m.after(psi, omega, it),
            omega,
        ) < m.tol),
{
    if (it + 1) % 4 != 0 && it + 1 >= check_interval() {
        assert((it + 1) - (it + 1) % check_interval() == it - it % check_interval());
    }
}

impl<T: Scalar> Solver<T> {
    pub closed spec fn wf(&self) -> bool {
        &&& is_field(self.omega@, self.n as int)
        &&& is_field(self.psi@, self.n as int)
        &&& closed_walls(self.psi@, self.n as int)
        &&& match self.fft_poisson {
            Some(p) => p.wf() && p.spectral().n == self.n,
            None => true,
        }
        &&& self.model() == cavity_model(self.cfg)
    }

    /// The configuration that the solver was made from.
    pub closed spec fn config(&self) -> Config<T> {
        self.cfg
    }

    /// The parameters of the scheme.
    pub closed spec fn model(&self) -> Model<T> {
        Model {
            n: self.n as int,
            h: self.h,
            nu: self.nu,
            u_lid: self.cfg.u_lid,
            tol: self.cfg.poisson_tol,
            max_it: self.cfg.poisson_max_it as int,
            sor: self.sor,
            direct: match self.fft_poisson {
                Some(p) => Some(p.spectral()),
                None => None,
            },
        }
    }

    /// The fields.
    pub closed spec fn flow(&self) -> Flow<T> {
        Flow { psi: self.psi@, omega: self.omega@ }
    }

    /// What holds of every solver.
    pub proof fn lemma_wf(&self)
        requires
            self.wf(),
        ensures
            is_field(self.flow().omega, self.model().n),
            is_field(self.flow().psi, self.model().n),
            closed_walls(self.flow().psi, self.model().n),
            self.model().direct matches Some(s) ==> s.n == self.model().n,
            self.model() == cavity_model(self.config()),
    {
    }

    /// A fluid at rest in a cavity with an `n * n` grid. The choice "fft" needs `n - 1` to
    /// be a power of two. The channel has a solver of its own, [`crate::channel::Channel`].
    pub fn new(cfg: Config<T>) -> (r: Solver<T>)
        requires
            cfg.scenario@ != "cylinder"@,
            cfg.n >= 2,
            cfg.n * cfg.n <= usize::MAX,
            cfg.solver@ == "fft"@ ==> power_of_two(cfg.n - 1),
        ensures
            r.wf(),
            r.config() == cfg,
            r.model() == cavity_model(cfg),
            r.flow().psi == tabulate(cfg.n as int, |i: int, j: int| nil::<T>()),
            r.flow().omega == tabulate(cfg.n as int, |i: int, j: int| nil::<T>()),
    {
        T::lawful();
        let n: usize = cfg.n;
        let h: T = cfg.l / (count::<T>(n) - count::<T>(1));
        let nu: T = cfg.u_lid * cfg.l / cfg.re;
        let sor: T = count::<T>(2) / (count::<T>(1) + (T::pi() / count::<T>(n)).sin());
        let min_len: usize = band_length(n, current_num_threads());
        let use_fft: bool = picks_direct(&cfg.solver, n);
        let fft_poisson = if use_fft {
            proof {
                let b = choose|b: nat| n - 1 == #[trigger] pow2(b);
                lemma_pow2_unfold(b + 1);
                assert(2 * (n - 1) == pow2(b + 1));
            }
            Some(PoissonFft::new(n, h))
        } else {
            None
        };
        let omega: Vec<T> = filled(n * n, zero::<T>());
        let psi: Vec<T> = filled(n * n, zero::<T>());
        assert(omega@ =~= tabulate(n as int, |i: int, j: int| nil::<T>()));
        assert(psi@ =~= tabulate(n as int, |i: int, j: int| nil::<T>()));
        assert forall|i: int, j: int|
            0 <= i < n && 0 <= j < n && !interior(n as int, i, j) implies #[trigger] at(
            psi@,
            n as int,
            i,
            j,
        ) == nil::<T>() by {
            lemma_index(n as int, i, j);
        }
        Solver { cfg, n, h, nu, omega, psi, sor, min_len, fft_poisson }
    }

    /// Whether the direct Poisson solver is in use.
    pub fn uses_fft(&self) -> (r: bool)
        ensures
            r == self.model().direct is Some,
    {
        self.fft_poisson.is_some()
    }

    /// One colour of `psi` relaxed.
    fn relax_colour(&self, psi: &Vec<T>, color: usize) -> (out: Vec<T>)
        requires
            self.wf(),
            is_field(psi@, self.n as int),
            color < 2,
        ensures
            out@ == sweep(
                psi@,
                self.flow().omega,
                self.n as int,
                self.model().h2(),
                self.model().sor,
                color as int,
            ),
    {
        T::lawful();
        let n: usize = self.n;
        let h2: T = self.h * self.h;
        let w: T = self.sor;
        let omega = &self.omega;
        let f = |j: usize| -> (row: Vec<T>)
            requires
                j < n,
                color < 2,
                is_field(psi@, n as int),
                is_field(omega@, n as int),
            ensures
                is_row(
                    row@,
                    n as int,
                    j as int,
                    sweep_cells(psi@, omega@, n as int, h2, w, color as int),
                ),
            {
                sweep_row(psi, omega, n, h2, w, color, j)
            };
        build_field(
            n,
            self.min_len,
            f,
            Ghost(sweep_cells(psi@, omega@, n as int, h2, w, color as int)),
        )
    }

    /// The largest change and the largest value that relaxing a colour leaves.
    fn colour_peaks(&self, psi: &Vec<T>, color: usize) -> (r: (T, T))
        requires
            self.wf(),
            is_field(psi@, self.n as int),
            color < 2,
        ensures
            r.0 == colour_change(
                psi@,
                self.flow().omega,
                self.n as int,
                self.model().h2(),
                self.model().sor,
                color as int,
            ),
            r.1 == colour_size(
                psi@,
                self.flow().omega,
                self.n as int,
                self.model().h2(),
                self.model().sor,
                color as int,
            ),
    {
        T::lawful();
        let n: usize = self.n;
        let h2: T = self.h * self.h;
        let w: T = self.sor;
        let omega = &self.omega;
        let ghost changes = |j: int|
            row_change(psi@, omega@, n as int, h2, w, color as int, j, n - 1);
        let ghost sizes = |j: int| row_size(psi@, omega@, n as int, h2, w, color as int, j, n - 1);
        let f = |j: usize| -> (r: (T, T))
            requires
                1 <= j < n - 1,
                color < 2,
                is_field(psi@, n as int),
                is_field(omega@, n as int),
            ensures
                r.0 == row_change(psi@, omega@, n as int, h2, w, color as int, j as int, n - 1),
                r.1 == row_size(psi@, omega@, n as int, h2, w, color as int, j as int, n - 1),
            {
                row_peaks(psi, omega, n, h2, w, color, j)
            };
        let rows = map_range(1, n - 1, self.min_len, f);
        let mut largest_change: T = zero();
        let mut largest_value: T = T::smallest();
        let mut k: usize = 0;
        assert forall|c: int| 0 <= c < rows@.len() implies (#[trigger] rows@[c]).0 == changes(c + 1)
            && rows@[c].1 == sizes(c + 1) by {
            assert(f.ensures(((1 + c) as usize,), rows@[c]));
        }
        while k < rows.len()
            invariant
                k <= rows@.len(),
                forall|c: int|
                    0 <= c < rows@.len() ==> (#[trigger] rows@[c]).0 == changes(c + 1)
                        && rows@[c].1 == sizes(c + 1),
                largest_change == peak(nil(), changes, k + 1),
                largest_value == peak(T::tiny(), sizes, k + 1),
            decreases rows@.len() - k,
        {
            largest_change = max_of(largest_change, rows[k].0);
            largest_value = max_of(largest_value, rows[k].1);
            k = k + 1;
        }
        (largest_change, largest_value)
    }

    /// The relative change of a relaxation of `psi`; `red` is `psi` after its first
    /// colour.
    fn measure(&self, psi: &Vec<T>, red: &Vec<T>) -> (r: T)
        requires
            self.wf(),
            is_field(psi@, self.n as int),
            red@ == sweep(
                psi@,
                self.flow().omega,
                self.n as int,
                self.model().h2(),
                self.model().sor,
                0,
            ),
        ensures
            r == self.model().relative_change(psi@, self.flow().omega),
    {
        let (d0, p0): (T, T) = self.colour_peaks(psi, 0);
        let (d1, p1): (T, T) = self.colour_peaks(red, 1);
        let max_dpsi: T = max_of(max_of(zero(), d0), d1);
        let max_psi: T = max_of(max_of(T::smallest(), p0), p1);
        T::lawful();
        max_dpsi / max_psi
    }

    /// Relaxes the streamfunction until a test of convergence succeeds or the sweeps
    /// are used up.
    fn iterate(&self, psi: Vec<T>) -> (r: (Vec<T>, usize, T))
        requires
            self.wf(),
            is_field(psi@, self.n as int),
        ensures
            r.1 == self.model().sweeps(psi@, self.flow().omega, 0),
            r.0@ == self.model().after(psi@, self.flow().omega, r.1 as int),
            r.2 == self.model().last_measured(psi@, self.flow().omega, r.1 as int),
            r.1 <= self.model().max_it,
            r.0@.len() == psi@.len(),
    {
        let n: usize = self.n;
        let max_it: usize = self.cfg.poisson_max_it;
        let ghost m = self.model();
        let ghost om = self.flow().omega;
        let ghost start = psi@;
        let mut psi: Vec<T> = psi;
        let mut it: usize = 0;
        let mut rel: T = zero();
        let mut done: bool = false;
        while !done && it < max_it
            invariant
                self.wf(),
                n == self.n,
                m == self.model(),
                om == self.flow().omega,
                max_it == m.max_it,
                it <= max_it,
                is_field(psi@, n as int),
                psi@.len() == start.len(),
                psi@ == m.after(start, om, it as int),
                rel == m.last_measured(start, om, it as int),
                done ==> m.sweeps(start, om, 0) == it,
                !done ==> m.sweeps(start, om, 0) == m.sweeps(start, om, it as int),
            decreases max_it - it,
        {
            let want_check: bool = (it + 1) % 4 == 0;
            let red = self.relax_colour(&psi, 0);
            let next = self.relax_colour(&red, 1);
            if want_check {
                rel = self.measure(&psi, &red);
                if rel.less_than(self.cfg.poisson_tol) {
                    done = true;
                }
            }
            proof {
                lemma_iteration(m, start, om, it as int);
            }
            psi = next;
            it = it + 1;
        }
        (psi, it, rel)
    }

    /// Solves the Poisson equation for the streamfunction, zero on all walls. Uses the
    /// direct solver if there is one (one pass), otherwise red-black SOR warm-started
    /// from the current streamfunction, which stops on the relative change
    /// `max|change| / max|psi|`. Returns the iterations and the residual or relative
    /// change.
    pub fn poisson(&mut self) -> (r: (usize, T))
        requires
            old(self).wf(),
            old(self).model().direct is Some ==> old(self).model().n >= 3,
        ensures
            final(self).wf(),
            final(self).config() == old(self).config(),
            final(self).model() == old(self).model(),
            final(self).flow() == old(self).model().with_poisson(old(self).flow()),
            r.0 == old(self).model().poisson_iterations(old(self).flow()),
            r.1 == old(self).model().poisson_report(old(self).flow()),
            closed_walls(final(self).flow().psi, final(self).model().n),
    {
        let n: usize = self.n;
        let ghost m = self.model();
        let ghost f = self.flow();
        proof {
            law_step_keeps_walls(m, f, nil::<T>());
        }
        if self.fft_poisson.is_some() {
            let mut psi: Vec<T> = copied(&self.psi);
            match &self.fft_poisson {
                Some(p) => {
                    p.solve(&self.omega, &mut psi);
                    assert(psi@ =~= p.spectral().solved(f.omega, f.psi));
                },
                None => {},
            }
            self.psi = psi;
            let res: T = self.residual_peak();
            return (1, res);
        }
        let psi = &self.psi;
        let ground = |j: usize| -> (row: Vec<T>)
            requires
                j < n,
                is_field(psi@, n as int),
            ensures
                is_row(row@, n as int, j as int, grounded_cells(psi@, n as int)),
            {
                grounded_row(psi, n, j)
            };
        let start = build_field(n, 1, ground, Ghost(grounded_cells(psi@, n as int)));
        let (psi_new, it, rel): (Vec<T>, usize, T) = self.iterate(start);
        self.psi = psi_new;
        (it, rel)
    }

    /// The largest residual of the Poisson equation.
    fn residual_peak(&self) -> (r: T)
        requires
            self.wf(),
        ensures
            r == residual(
                self.flow().psi,
                self.flow().omega,
                self.n as int,
                self.model().h2(),
            ),
    {
        T::lawful();
        let n: usize = self.n;
        let h2: T = self.h * self.h;
        let psi = &self.psi;
        let omega = &self.omega;
        let f = |j: usize| -> (r: T)
            requires
                1 <= j < n - 1,
                is_field(psi@, n as int),
                is_field(omega@, n as int),
            ensures
                r == row_residual(psi@, omega@, n as int, h2, j as int, n - 1),
            {
                residual_row(psi, omega, n, h2, j)
            };
        let rows = map_range(1, n - 1, 1, f);
        let ghost row = |j: int| row_residual(psi@, omega@, n as int, h2, j, n - 1);
        assert forall|c: int| 0 <= c < rows@.len() implies #[trigger] rows@[c] == row(c + 1) by {
            assert(f.ensures(((1 + c) as usize,), rows@[c]));
        }
        fold_peak(&rows, zero(), Ghost(row))
    }

    /// Applies Thom's wall-vorticity boundary condition given the current
    /// streamfunction: `-2 psi_in / h^2` on walls at rest, and `2 u_lid / h` less on
    /// the moving lid.
    pub fn apply_vorticity_bc(&mut self)
        requires
            old(self).wf(),
        ensures
            final(self).wf(),
            final(self).config() == old(self).config(),
            final(self).model() == old(self).model(),
            final(self).flow() == old(self).model().with_walls(old(self).flow()),
    {
        let n: usize = self.n;
        let h: T = self.h;
        let u_lid: T = self.cfg.u_lid;
        let psi = &self.psi;
        let ghost start = self.omega@;
        let mut omega: Vec<T> = copied(&self.omega);
        let mut i: usize = 0;
        while i < n
            invariant
                i <= n,
                is_field(psi@, n as int),
                is_field(omega@, n as int),
                is_field(start, n as int),
                forall|a: int, b: int|
                    0 <= a < n && 0 <= b < n ==> #[trigger] at(omega@, n as int, a, b) == if a < i
                        && b == n - 1 {
                        lid_vorticity(at(psi@, n as int, a, n - 2), h, u_lid)
                    } else if a < i && b == 0 {
                        wall_vorticity(at(psi@, n as int, a, 1), h)
                    } else {
                        at(start, n as int, a, b)
                    },
            decreases n - i,
        {
            let ghost now = omega@;
            let bottom: T = wall_vorticity_of(get(psi, n, i, 1), h);
            let top: T = lid_vorticity_of(get(psi, n, i, n - 2), h, u_lid);
            omega.set(idx(i, 0, n), bottom);
            omega.set(idx(i, n - 1, n), top);
            proof {
                assert forall|a: int, b: int| 0 <= a < n && 0 <= b < n implies #[trigger] at(
                    omega@,
                    n as int,
                    a,
                    b,
                ) == if a < i + 1 && b == n - 1 {
                    lid_vorticity(at(psi@, n as int, a, n - 2), h, u_lid)
                } else if a < i + 1 && b == 0 {
                    wall_vorticity(at(psi@, n as int, a, 1), h)
                } else {
                    at(start, n as int, a, b)
                } by {
                    lemma_index(n as int, a, b);
                    lemma_index(n as int, i as int, 0);
                    lemma_index(n as int, i as int, n - 1);
                    assert(at(now, n as int, a, b) == now[b * n + a]);
                }
            }
            i = i + 1;
        }
        let mut j: usize = 0;
        while j < n
            invariant
                j <= n,
                is_field(psi@, n as int),
                is_field(omega@, n as int),
                is_field(start, n as int),
                forall|a: int, b: int|
                    0 <= a < n && 0 <= b < n ==> #[trigger] at(omega@, n as int, a, b) == if b < j
                        && a == n - 1 {
                        wall_vorticity(at(psi@, n as int, n - 2, b), h)
                    } else if b < j && a == 0 {
                        wall_vorticity(at(psi@, n as int, 1, b), h)
                    } else if b == n - 1 {
                        lid_vorticity(at(psi@, n as int, a, n - 2), h, u_lid)
                    } else if b == 0 {
                        wall_vorticity(at(psi@, n as int, a, 1), h)
                    } else {
                        at(start, n as int, a, b)
                    },
            decreases n - j,
        {
            let ghost now = omega@;
            let left: T = wall_vorticity_of(get(psi, n, 1, j), h);
            let right: T = wall_vorticity_of(get(psi, n, n - 2, j), h);
            omega.set(idx(0, j, n), left);
            omega.set(idx(n - 1, j, n), right);
            proof {
                assert forall|a: int, b: int| 0 <= a < n && 0 <= b < n implies #[trigger] at(
                    omega@,
                    n as int,
                    a,
                    b,
                ) == if b < j + 1 && a == n - 1 {
                    wall_vorticity(at(psi@, n as int, n - 2, b), h)
                } else if b < j + 1 && a == 0 {
                    wall_vorticity(at(psi@, n as int, 1, b), h)
                } else if b == n - 1 {
                    lid_vorticity(at(psi@, n as int, a, n - 2), h, u_lid)
                } else if b == 0 {
                    wall_vorticity(at(psi@, n as int, a, 1), h)
                } else {
                    at(start, n as int, a, b)
                } by {
                    lemma_index(n as int, a, b);
                    lemma_index(n as int, 0, j as int);
                    lemma_index(n as int, n - 1, j as int);
                    assert(at(now, n as int, a, b) == now[b * n + a]);
                }
            }
            j = j + 1;
        }
        proof {
            lemma_is_tabulated(
                omega@,
                n as int,
                walled_cells(psi@, start, n as int, h, u_lid),
            );
        }
        self.omega = omega;
    }

    /// Computes the rate of change of the vorticity `om` on interior nodes into `rhs`.
    fn rhs(&self, om: &Vec<T>, rhs: &mut Vec<T>)
        requires
            self.wf(),
            is_field(om@, self.n as int),
            is_field(old(rhs)@, self.n as int),
        ensures
            final(rhs)@ == tabulate(
                self.n as int,
                tendency_cells(
                    self.flow().psi,
                    om@,
                    old(rhs)@,
                    self.n as int,
                    self.model().h,
                    self.model().nu,
                ),
            ),
    {
        let n: usize = self.n;
        let h: T = self.h;
        let nu: T = self.nu;
        let psi = &self.psi;
        let walls = copied(rhs);
        let f = |j: usize| -> (row: Vec<T>)
            requires
                j < n,
                is_field(psi@, n as int),
                is_field(om@, n as int),
                is_field(walls@, n as int),
            ensures
                is_row(
                    row@,
                    n as int,
                    j as int,
                    tendency_cells(psi@, om@, walls@, n as int, h, nu),
                ),
            {
                tendency_row(psi, om, &walls, n, h, nu, j)
            };
        *rhs = build_field(n, 1, f, Ghost(tendency_cells(psi@, om@, walls@, n as int, h, nu)));
    }

    /// The rate of change of the current vorticity into `k`, whose wall values are
    /// zero and stay so.
    fn rate_into(&self, k: &mut Vec<T>)
        requires
            self.wf(),
            is_field(old(k)@, self.n as int),
            forall|i: int, j: int|
                0 <= i < self.n && 0 <= j < self.n && !interior(self.n as int, i, j)
                    ==> #[trigger] at(old(k)@, self.n as int, i, j) == nil::<T>(),
        ensures
            final(k)@ == self.model().rate(self.flow()),
            is_field(final(k)@, self.n as int),
            forall|i: int, j: int|
                0 <= i < self.n && 0 <= j < self.n && !interior(self.n as int, i, j)
                    ==> #[trigger] at(final(k)@, self.n as int, i, j) == nil::<T>(),
    {
        let ghost n = self.n as int;
        let ghost m = self.model();
        let ghost fl = self.flow();
        let ghost before = k@;
        let ghost written = tendency_cells(fl.psi, fl.omega, before, n, m.h, m.nu);
        let ghost wanted = |i: int, j: int|
            if interior(n, i, j) {
                tendency(fl.psi, fl.omega, n, m.h, m.nu, i, j)
            } else {
                nil::<T>()
            };
        self.rhs(&self.omega, k);
        proof {
            assert forall|i: int, j: int| 0 <= i < n && 0 <= j < n implies #[trigger] written(i, j)
                == wanted(i, j) by {
                if !interior(n, i, j) {
                    assert(at(before, n, i, j) == nil::<T>());
                }
            }
            lemma_same_table(n, written, wanted);
            assert forall|i: int, j: int|
                0 <= i < n && 0 <= j < n && !interior(n, i, j) implies #[trigger] at(k@, n, i, j)
                == nil::<T>() by {
                crate::grid::lemma_tabulate(n, wanted, i, j);
            }
        }
    }

    /// Maximum velocity magnitude; the lid guarantees at least its own speed.
    pub fn max_speed(&self) -> (r: T)
        requires
            self.wf(),
        ensures
            r == self.model().max_speed(self.flow()),
            proper(self.model().u_lid) ==> self.model().u_lid <= r,
            forall|i: int, j: int|
                interior(self.model().n, i, j) && proper(
                    #[trigger] node_speed(self.flow().psi, self.model().n, self.model().h, i, j),
                ) ==> node_speed(self.flow().psi, self.model().n, self.model().h, i, j) <= r,
    {
        T::faithful();
        proof {
            let (m, f) = (self.model(), self.flow());
            law_lid_speed_bounded(m, f);
            assert forall|i: int, j: int|
                interior(m.n, i, j) && proper(
                    #[trigger] node_speed(f.psi, m.n, m.h, i, j),
                ) implies node_speed(f.psi, m.n, m.h, i, j) <= m.max_speed(f) by {
                law_node_speed_bounded(m, f, i, j);
            }
        }
        max_of(self.interior_speed(), self.cfg.u_lid)
    }

    fn interior_speed(&self) -> (r: T)
        requires
            self.wf(),
        ensures
            r == top_speed(self.flow().psi, self.model().n, self.model().h),
    {
        let n: usize = self.n;
        let h: T = self.h;
        let psi = &self.psi;
        let f = |j: usize| -> (r: T)
            requires
                1 <= j < n - 1,
                is_field(psi@, n as int),
            ensures
                r == row_speed(psi@, n as int, h, j as int, n - 1),
            {
                speed_row(psi, n, h, j)
            };
        let rows = map_range(1, n - 1, 1, f);
        let ghost row = |j: int| row_speed(psi@, n as int, h, j, n - 1);
        assert forall|c: int| 0 <= c < rows@.len() implies #[trigger] rows@[c] == row(c + 1) by {
            assert(f.ensures(((1 + c) as usize,), rows@[c]));
        }
        fold_peak(&rows, zero(), Ghost(row))
    }

    /// Solves for the streamfunction and sets the walls. Returns the iterations and
    /// the report of the solve.
    fn prepare(&mut self) -> (r: (usize, T))
        requires
            old(self).wf(),
            old(self).model().direct is Some ==> old(self).model().n >= 3,
        ensures
            final(self).wf(),
            final(self).config() == old(self).config(),
            final(self).model() == old(self).model(),
            final(self).flow() == old(self).model().prepared(old(self).flow()),
            r.0 == old(self).model().poisson_iterations(old(self).flow()),
            r.1 == old(self).model().poisson_report(old(self).flow()),
    {
        let r: (usize, T) = self.poisson();
        self.apply_vorticity_bc();
        r
    }

    /// The weighted mean of `start` and an Euler step from the current vorticity.
    fn blend(&self, a: T, start: &Vec<T>, b: T, k: &Vec<T>, dt: T) -> (out: Vec<T>)
        requires
            self.wf(),
            is_field(start@, self.n as int),
            is_field(k@, self.n as int),
        ensures
            out@ == tabulate(
                self.n as int,
                blend_cells(a, start@, b, self.flow().omega, k@, self.n as int, dt),
            ),
    {
        let n: usize = self.n;
        let now = &self.omega;
        let f = |j: usize| -> (row: Vec<T>)
            requires
                j < n,
                is_field(start@, n as int),
                is_field(now@, n as int),
                is_field(k@, n as int),
            ensures
                is_row(
                    row@,
                    n as int,
                    j as int,
                    blend_cells(a, start@, b, now@, k@, n as int, dt),
                ),
            {
                blend_row(a, start, b, now, k, n, dt, j)
            };
        build_field(n, 1, f, Ghost(blend_cells(a, start@, b, now@, k@, n as int, dt)))
    }

    /// One SSP-RK3 step. Returns the Poisson iterations of its three stages and the
    /// report of the last solve.
    pub fn step(&mut self, dt: T) -> (r: (usize, T))
        requires
            old(self).wf(),
            old(self).model().direct is Some ==> old(self).model().n >= 3,
        ensures
            final(self).wf(),
            final(self).config() == old(self).config(),
            final(self).model() == old(self).model(),
            final(self).flow() == old(self).model().step(old(self).flow(), dt),
            r.0 == old(self).model().step_iterations(old(self).flow(), dt) % (usize::MAX + 1),
            old(self).model().step_iterations(old(self).flow(), dt) <= usize::MAX ==> r.0 == old(
                self,
            ).model().step_iterations(old(self).flow(), dt),
            r.1 == old(self).model().step_report(old(self).flow(), dt),
    {
        let n: usize = self.n;
        let ghost m = self.model();
        let ghost f0 = self.flow();
        let mut k: Vec<T> = filled(n * n, zero::<T>());
        assert(forall|i: int, j: int|
            0 <= i < n && 0 <= j < n ==> #[trigger] at(k@, n as int, i, j) == nil::<T>()) by {
            assert forall|i: int, j: int| 0 <= i < n && 0 <= j < n implies #[trigger] at(
                k@,
                n as int,
                i,
                j,
            ) == nil::<T>() by {
                lemma_index(n as int, i, j);
            }
        }
        // Stage 1
        let (it1, r1): (usize, T) = self.prepare();
        self.rate_into(&mut k);
        let omega0 = copied(&self.omega);
        let now = &self.omega;
        let first = |j: usize| -> (row: Vec<T>)
            requires
                j < n,
                is_field(now@, n as int),
                is_field(k@, n as int),
            ensures
                is_row(row@, n as int, j as int, euler_cells(now@, k@, n as int, dt)),
            {
                euler_row(now, &k, n, dt, j)
            };
        let omega1 = build_field(n, 1, first, Ghost(euler_cells(now@, k@, n as int, dt)));
        self.omega = omega1;
        assert(self.flow() == m.after1(f0, dt));
        // Stage 2
        let (it2, r2): (usize, T) = self.prepare();
        self.rate_into(&mut k);
        let omega2 = self.blend(T::from_ratio(3, 4), &omega0, T::from_ratio(1, 4), &k, dt);
        self.omega = omega2;
        assert(self.flow() == m.after2(f0, dt));
        // Stage 3
        let (it3, res_last): (usize, T) = self.prepare();
        self.rate_into(&mut k);
        let omega3 = self.blend(T::from_ratio(1, 3), &omega0, T::from_ratio(2, 3), &k, dt);
        self.omega = omega3;
        (tally(it1, it2, it3), res_last)
    }

    /// Kinetic energy, enstrophy, circulation and the maximum speed off the walls.
    pub fn diagnostics(&self) -> (r: (T, T, T, T))
        requires
            self.wf(),
        ensures
            r.0 == kinetic_energy(self.flow().psi, self.model().n, self.model().h),
            r.1 == enstrophy(self.flow().omega, self.model().n, self.model().h),
            r.2 == circulation(self.flow().omega, self.model().n, self.model().h),
            r.3 == top_speed(self.flow().psi, self.model().n, self.model().h),
    {
        let n: usize = self.n;
        let h: T = self.h;
        let psi = &self.psi;
        let omega = &self.omega;
        let f = |j: usize| -> (r: (T, T, T, T))
            requires
                1 <= j < n - 1,
                is_field(psi@, n as int),
                is_field(omega@, n as int),
            ensures
                r.0 == row_energy(psi@, n as int, h, j as int, n - 1),
                r.1 == row_enstrophy(omega@, n as int, h, j as int, n - 1),
                r.2 == row_circulation(omega@, n as int, h, j as int, n - 1),
                r.3 == row_speed(psi@, n as int, h, j as int, n - 1),
            {
                diagnostics_row(psi, omega, n, h, j)
            };
        let rows = map_range(1, n - 1, 1, f);
        let ghost row0 = |j: int| row_energy(psi@, n as int, h, j, n - 1);
        let ghost row1 = |j: int| row_enstrophy(omega@, n as int, h, j, n - 1);
        let ghost row2 = |j: int| row_circulation(omega@, n as int, h, j, n - 1);
        let ghost row3 = |j: int| row_speed(psi@, n as int, h, j, n - 1);
        assert forall|c: int| 0 <= c < rows@.len() implies {
            let row = #[trigger] rows@[c];
            row.0 == row0(c + 1) && row.1 == row1(c + 1) && row.2 == row2(c + 1) && row.3 == row3(
                c + 1,
            )
        } by {
            assert(f.ensures(((1 + c) as usize,), rows@[c]));
        }
        let mut ke: T = zero();
        let mut ens: T = zero();
        let mut circ: T = zero();
        let mut umax: T = zero();
        let mut k: usize = 0;
        while k < rows.len()
            invariant
                k <= rows@.len(),
                forall|c: int|
                    0 <= c < rows@.len() ==> {
                        let row = #[trigger] rows@[c];
                        row.0 == row0(c + 1) && row.1 == row1(c + 1) && row.2 == row2(c + 1)
                            && row.3 == row3(c + 1)
                    },
                ke == total(nil(), row0, k + 1),
                ens == total(nil(), row1, k + 1),
                circ == total(nil(), row2, k + 1),
                umax == peak(nil(), row3, k + 1),
            decreases rows@.len() - k,
        {
            T::lawful();
            ke = ke + rows[k].0;
            ens = ens + rows[k].1;
            circ = circ + rows[k].2;
            umax = max_of(umax, rows[k].3);
            k = k + 1;
        }
        (ke, ens, circ, umax)
    }

    /// The current fields as raw little-endian numbers: vorticity, streamfunction,
    /// horizontal and vertical velocity, each row by row.
    pub fn frame_bytes(&self) -> (r: Vec<u8>)
        requires
            self.wf(),
        ensures
            r@ == frame(self.model(), self.flow()),
    {
        let n: usize = self.n;
        let h: T = self.h;
        let u_lid: T = self.cfg.u_lid;
        let psi = &self.psi;
        let u_of = |j: usize| -> (row: Vec<T>)
            requires
                j < n,
                is_field(psi@, n as int),
            ensures
                is_row(row@, n as int, j as int, u_cells(psi@, n as int, h, u_lid)),
            {
                u_row(psi, n, h, u_lid, j)
            };
        let v_of = |j: usize| -> (row: Vec<T>)
            requires
                j < n,
                is_field(psi@, n as int),
            ensures
                is_row(row@, n as int, j as int, v_cells(psi@, n as int, h)),
            {
                v_row(psi, n, h, j)
            };
        let uu = build_field(n, 1, u_of, Ghost(u_cells(psi@, n as int, h, u_lid)));
        let vv = build_field(n, 1, v_of, Ghost(v_cells(psi@, n as int, h)));
        let mut buf: Vec<u8> = Vec::new();
        append_field(&mut buf, &self.omega);
        append_field(&mut buf, &self.psi);
        append_field(&mut buf, &uu);
        append_field(&mut buf, &vv);
        assert(buf@ =~= frame(self.model(), self.flow()));
        buf
    }

    pub fn cfg(&self) -> (r: &Config<T>)
        ensures
            *r == self.config(),
    {
        &self.cfg
    }

    /// Nodes per side.
    pub fn n(&self) -> (r: usize)
        ensures
            r == self.model().n,
    {
        self.n
    }

    /// Distance between neighbouring nodes.
    pub fn h(&self) -> (r: T)
        ensures
            r == self.model().h,
    {
        self.h
    }

    /// Kinematic viscosity.
    pub fn nu(&self) -> (r: T)
        ensures
            r == self.model().nu,
    {
        self.nu
    }

    /// The name of the Poisson solver in use.
    pub fn solver_name(&self) -> (r: &'static str)
        ensures
            r@ == if self.model().direct is Some {
                "FFT/DST (direct)"@
            } else {
                "SOR (iterative)"@
            },
    {
        if self.uses_fft() {
            "FFT/DST (direct)"
        } else {
            "SOR (iterative)"
        }
    }
}

/// The bytes of the values of a field, one after another.
pub open spec fn bytes_of<T: Scalar>(field: Seq<T>) -> Seq<u8>
    decreases field.len(),
{
    if field.len() == 0 {
        Seq::empty()
    } else {
        bytes_of(field.drop_last()) + le_bytes(field.last())
    }
}

/// The bytes of a frame.
pub open spec fn frame<T: Scalar>(m: Model<T>, f: Flow<T>) -> Seq<u8> {
    bytes_of(f.omega) + bytes_of(f.psi) + bytes_of(
        tabulate(m.n, u_cells(f.psi, m.n, m.h, m.u_lid)),
    ) + bytes_of(tabulate(m.n, v_cells(f.psi, m.n, m.h)))
}

pub(crate) fn append_field<T: Scalar>(buf: &mut Vec<u8>, field: &Vec<T>)
    ensures
        final(buf)@ == old(buf)@ + bytes_of(field@),
{
    let ghost start = buf@;
    let mut k: usize = 0;
    assert(buf@ =~= start + bytes_of(field@.take(0)));
    while k < field.len()
        invariant
            k <= field@.len(),
            buf@ == start + bytes_of(field@.take(k as int)),
        decreases field@.len() - k,
    {
        let mut bytes: Vec<u8> = field[k].to_le_bytes();
        proof {
            let next = field@.take(k + 1);
            assert(next.drop_last() =~= field@.take(k as int));
            assert(next.last() == field@[k as int]);
            assert(start + bytes_of(next) =~= (start + bytes_of(field@.take(k as int)))
                + le_bytes(field@[k as int]));
        }
        buf.append(&mut bytes);
        k = k + 1;
    }
    assert(field@.take(k as int) =~= field@);
}

} // verus!
