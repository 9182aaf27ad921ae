//! Flow past an obstacle in a channel: the vortex street.
//!
//! The channel has no direct Poisson solver, since the obstacle is cut out of it; its
//! streamfunction is found by red-black SOR.
use crate::channel_model::{channel_length, coordinate, rectangle_factor, seed, ChannelModel};
use crate::config::Config;
use crate::geometry::Object;
use crate::grid::{copied, filled};
use crate::kernels::{
    blended_of, change_of, relaxed_of, speed_squared_of, tendency_of, velocity_u_of,
    velocity_v_of, wall_vorticity_of,
};
use crate::laws::order::law_channel_speed_bounded;
use crate::model::{node_speed, tendency, Flow};
use crate::parallel::current_num_threads;
use crate::plane::{
    compute_field, is_plane, largest, largest_of, lemma_table, node, table, total_of,
};
use crate::scalar::{abs_of, count, max_of, nil, proper, whole, zero, Arith, Scalar};
use crate::solver::{append_field, band_length, bytes_of, tally};
use vstd::prelude::*;

verus! {

pub struct Channel<T> {
    cfg: Config<T>,
    nx: usize,
    ny: usize,
    h: T,
    nu: T,
    sor: T,
    psi_body: T,
    mask: Vec<bool>,
    omega: Vec<T>,
    psi: Vec<T>,
    min_len: usize,
}

/// Which nodes an obstacle covers.
pub open spec fn mask_cells<A: Arith>(obstacle: Object<A>, h: A) -> spec_fn(int, int) -> bool {
    |i: int, j: int| obstacle.holds(coordinate(h, i), coordinate(h, j))
}

/// The parameters of the channel that a configuration asks for, with an obstacle in it.
pub open spec fn street_model<A: Arith>(cfg: Config<A>, obstacle: Object<A>) -> ChannelModel<A> {
    let ny = cfg.n as int;
    let nx = channel_length(ny);
    let h = cfg.l / (whole::<A>(ny) - whole::<A>(1));
    ChannelModel {
        nx,
        ny,
        h,
        nu: cfg.u_lid * obstacle.length() / cfg.re,
        u_in: cfg.u_lid,
        tol: cfg.poisson_tol,
        max_it: cfg.poisson_max_it as int,
        sor: rectangle_factor::<A>(nx, ny),
        psi_body: cfg.u_lid * obstacle.height(),
        mask: table(nx, ny, mask_cells(obstacle, h)),
    }
}

/// The uniform stream.
pub open spec fn stream_cells<A: Arith>(m: ChannelModel<A>) -> spec_fn(int, int) -> A {
    |i: int, j: int| m.stream(j)
}

/// The vorticity at the start: the seed of the wake, where there is fluid.
pub open spec fn start_cells<A: Arith>(m: ChannelModel<A>, obstacle: Object<A>) -> spec_fn(
    int,
    int,
) -> A {
    |i: int, j: int|
        if m.fluid(i, j) {
            seed(m.u_in, obstacle.anchor(), coordinate(m.h, i), coordinate(m.h, j))
        } else {
            nil()
        }
}

/// The bytes of a frame.
pub open spec fn channel_frame<T: Scalar>(m: ChannelModel<T>, f: Flow<T>) -> Seq<u8> {
    bytes_of(f.omega) + bytes_of(f.psi) + bytes_of(table(m.nx, m.ny, m.u_cells(f.psi))) + bytes_of(
        table(m.nx, m.ny, m.v_cells(f.psi)),
    )
}

fn coordinate_of<T: Scalar>(h: T, k: usize) -> (r: T)
    ensures
        r == coordinate(h, k as int),
{
    T::lawful();
    count::<T>(k) * h
}

fn factor_of<T: Scalar>(nx: usize, ny: usize) -> (r: T)
    ensures
        r == rectangle_factor::<T>(nx as int, ny as int),
{
    T::lawful();
    let rho: T = T::from_ratio(1, 2) * ((T::pi() / count::<T>(nx)).cos() + (T::pi() / count::<T>(
        ny,
    )).cos());
    count::<T>(2) / (count::<T>(1) + (count::<T>(1) - rho * rho).sqrt())
}

fn seed_of<T: Scalar>(u: T, anchor: (T, T, T), x: T, y: T) -> (r: T)
    ensures
        r == seed(u, anchor, x, y),
{
    T::lawful();
    let (ax, ay, len): (T, T, T) = anchor;
    let reach: T = T::from_ratio(1, 4) * len * len;
    let r2: T = (x - ax) * (x - ax) + (y - ay) * (y - ay);
    if r2.less_than(reach) {
        T::from_ratio(1, 10) * u / len * (count::<T>(1) - r2 / reach)
    } else {
        zero()
    }
}

/// What one more relaxation does to the count, the field and the report.
proof fn lemma_iteration<A: Arith>(m: ChannelModel<A>, psi: Seq<A>, omega: Seq<A>, it: int)
    requires
        0 <= it < m.max_it,
    ensures
        m.after(psi, omega, it + 1) == m.relax(m.after(psi, omega, it), omega),
        m.sweeps(psi, omega, it) == if m.converged(psi, omega, it + 1) {
            it + 1
        } else {
            m.sweeps(psi, omega, it + 1)
        },
        (it + 1) % 4 == 0 ==> m.last_measured(psi, omega, it + 1) == m.relative_change(
            m.after(psi, omega, it),
            omega,
        ),
        (it + 1) % 4 != 0 ==> m.last_measured(psi, omega, it + 1) == m.last_measured(
            psi,
            omega,
            it,
        ),
        m.converged(psi, omega, it + 1) == ((it + 1) % 4 == 0 && m.relative_change(
            m.after(psi, omega, it),
            omega,
        ) < m.tol),
{
    if (it + 1) % 4 != 0 && it + 1 >= 4 {
        assert((it + 1) - (it + 1) % 4 == it - it % 4);
    }
}

impl<T: Scalar> Channel<T> {
    pub closed spec fn wf(&self) -> bool {
        &&& self.nx == channel_length(self.ny as int)
        &&& is_plane(self.omega@, self.nx as int, self.ny as int)
        &&& is_plane(self.psi@, self.nx as int, self.ny as int)
        &&& is_plane(self.mask@, self.nx as int, self.ny as int)
    }

    /// The configuration that the channel was made from.
    pub closed spec fn config(&self) -> Config<T> {
        self.cfg
    }

    /// The parameters of the scheme.
    pub closed spec fn model(&self) -> ChannelModel<T> {
        ChannelModel {
            nx: self.nx as int,
            ny: self.ny as int,
            h: self.h,
            nu: self.nu,
            u_in: self.cfg.u_lid,
            tol: self.cfg.poisson_tol,
            max_it: self.cfg.poisson_max_it as int,
            sor: self.sor,
            psi_body: self.psi_body,
            mask: self.mask@,
        }
    }

    /// The fields.
    pub closed spec fn flow(&self) -> Flow<T> {
        Flow { psi: self.psi@, omega: self.omega@ }
    }

    /// What holds of every channel.
    pub proof fn lemma_wf(&self)
        requires
            self.wf(),
        ensures
            self.model().nx == channel_length(self.model().ny),
            is_plane(self.flow().omega, self.model().nx, self.model().ny),
            is_plane(self.flow().psi, self.model().nx, self.model().ny),
            is_plane(self.model().mask, self.model().nx, self.model().ny),
            self.model().u_in == self.config().u_lid,
            self.model().tol == self.config().poisson_tol,
            self.model().max_it == self.config().poisson_max_it,
    {
    }

    /// A channel that is `cfg.n` nodes and `cfg.l` high and four times as long, with an
    /// obstacle in it. The fluid starts as a uniform stream with a seed in the wake; the
    /// Reynolds number is that of the obstacle.
    pub fn new(cfg: Config<T>, obstacle: &Object<T>) -> (r: Channel<T>)
        requires
            cfg.n >= 2,
            channel_length(cfg.n as int) * cfg.n <= usize::MAX,
        ensures
            r.wf(),
            r.config() == cfg,
            r.model() == street_model(cfg, *obstacle),
            forall|i: int, j: int|
                0 <= i < r.model().nx && 0 <= j < r.model().ny ==> #[trigger] r.model().solid(i, j)
                    == obstacle.holds(coordinate(r.model().h, i), coordinate(r.model().h, j)),
            r.flow().psi == table(r.model().nx, r.model().ny, stream_cells(r.model())),
            r.flow().omega == table(
                r.model().nx,
                r.model().ny,
                start_cells(r.model(), *obstacle),
            ),
            r.flow().psi.len() == r.model().nx * r.model().ny,
            r.flow().omega.len() == r.model().nx * r.model().ny,
    {
        T::lawful();
        let ny: usize = cfg.n;
        proof {
            let (a, b) = (channel_length(ny as int), ny as int);
            assert(a <= a * b) by (nonlinear_arith)
                requires
                    b >= 2,
                    a >= 5,
            ;
        }
        let nx: usize = 4 * (ny - 1) + 1;
        let h: T = cfg.l / (count::<T>(ny) - count::<T>(1));
        let nu: T = cfg.u_lid * obstacle.char_length() / cfg.re;
        let sor: T = factor_of(nx, ny);
        let psi_body: T = cfg.u_lid * obstacle.y_ref();
        let min_len: usize = band_length(ny, current_num_threads());
        let covers = |i: usize, j: usize| -> (b: bool)
            requires
                i < nx,
                j < ny,
            ensures
                b == mask_cells(*obstacle, h)(i as int, j as int),
            {
                obstacle.contains(coordinate_of(h, i), coordinate_of(h, j))
            };
        let mask = compute_field(nx, ny, min_len, covers, Ghost(mask_cells(*obstacle, h)));
        let ghost m = street_model(cfg, *obstacle);
        proof {
            assert forall|i: int, j: int| 0 <= i < nx && 0 <= j < ny implies #[trigger] m.solid(
                i,
                j,
            ) == obstacle.holds(coordinate(h, i), coordinate(h, j)) by {
                lemma_table(nx as int, ny as int, mask_cells(*obstacle, h), i, j);
            }
        }
        let size: usize = nx * ny;
        let omega: Vec<T> = filled(size, zero::<T>());
        let psi: Vec<T> = filled(size, zero::<T>());
        let mut r = Channel { cfg, nx, ny, h, nu, sor, psi_body, mask, omega, psi, min_len };
        assert(r.model() == m);
        let anchor: (T, T, T) = obstacle.wake_anchor();
        let start_psi = r.start_psi();
        let start_omega = r.start_omega(anchor, Ghost(*obstacle));
        r.psi = start_psi;
        r.omega = start_omega;
        assert(r.model() == m);
        r
    }

    fn start_psi(&self) -> (out: Vec<T>)
        requires
            self.wf(),
        ensures
            out@ == table(self.model().nx, self.model().ny, stream_cells(self.model())),
    {
        let f = |i: usize, j: usize| -> (r: T)
            requires
                i < self.nx,
                j < self.ny,
                self.wf(),
            ensures
                r == stream_cells(self.model())(i as int, j as int),
            {
                self.stream_at(j)
            };
        compute_field(self.nx, self.ny, self.min_len, f, Ghost(stream_cells(self.model())))
    }

    fn start_omega(&self, anchor: (T, T, T), Ghost(obstacle): Ghost<Object<T>>) -> (out: Vec<T>)
        requires
            self.wf(),
            anchor == obstacle.anchor(),
        ensures
            out@ == table(self.model().nx, self.model().ny, start_cells(self.model(), obstacle)),
    {
        let f = |i: usize, j: usize| -> (r: T)
            requires
                i < self.nx,
                j < self.ny,
                self.wf(),
            ensures
                r == if self.model().fluid(i as int, j as int) {
                    seed(
                        self.model().u_in,
                        anchor,
                        coordinate(self.model().h, i as int),
                        coordinate(self.model().h, j as int),
                    )
                } else {
                    nil()
                },
            {
                if self.is_fluid(i, j) {
                    seed_of(
                        self.cfg.u_lid,
                        anchor,
                        coordinate_of(self.h, i),
                        coordinate_of(self.h, j),
                    )
                } else {
                    zero()
                }
            };
        compute_field(
            self.nx,
            self.ny,
            self.min_len,
            f,
            Ghost(start_cells(self.model(), obstacle)),
        )
    }

    /// Whether a direct Poisson solver is in use: never, in a channel.
    pub fn uses_fft(&self) -> (r: bool)
        ensures
            !r,
    {
        false
    }

    fn is_fluid(&self, i: usize, j: usize) -> (r: bool)
        requires
            self.wf(),
            i < self.nx,
            j < self.ny,
        ensures
            r == self.model().fluid(i as int, j as int),
    {
        1 <= i && i < self.nx - 1 && 1 <= j && j < self.ny - 1 && !node(
            &self.mask,
            self.nx,
            self.ny,
            i,
            j,
        )
    }

    fn stream_at(&self, j: usize) -> (r: T)
        ensures
            r == self.model().stream(j as int),
    {
        T::lawful();
        self.cfg.u_lid * coordinate_of(self.h, j)
    }

    fn held_psi_at(&self, psi: &Vec<T>, i: usize, j: usize) -> (r: T)
        requires
            self.wf(),
            is_plane(psi@, self.nx as int, self.ny as int),
            i < self.nx,
            j < self.ny,
        ensures
            r == self.model().held_psi(psi@, i as int, j as int),
    {
        if j == 0 || j == self.ny - 1 {
            self.stream_at(j)
        } else if node(&self.mask, self.nx, self.ny, i, j) {
            self.psi_body
        } else {
            node(psi, self.nx, self.ny, i, j)
        }
    }

    /// The streamfunction with its boundary values.
    fn bound(&self, psi: &Vec<T>) -> (out: Vec<T>)
        requires
            self.wf(),
            is_plane(psi@, self.nx as int, self.ny as int),
        ensures
            out@ == self.model().bounded(psi@),
            is_plane(out@, self.nx as int, self.ny as int),
    {
        let f = |i: usize, j: usize| -> (r: T)
            requires
                i < self.nx,
                j < self.ny,
                self.wf(),
                is_plane(psi@, self.nx as int, self.ny as int),
            ensures
                r == self.model().bounded_cells(psi@)(i as int, j as int),
            {
                if i == 0 {
                    self.stream_at(j)
                } else if i == self.nx - 1 {
                    self.held_psi_at(psi, self.nx - 2, j)
                } else {
                    self.held_psi_at(psi, i, j)
                }
            };
        compute_field(
            self.nx,
            self.ny,
            self.min_len,
            f,
            Ghost(self.model().bounded_cells(psi@)),
        )
    }

    fn is_marked(&self, color: usize, i: usize, j: usize) -> (r: bool)
        requires
            self.wf(),
            color < 2,
            i < self.nx,
            j < self.ny,
        ensures
            r == self.model().marked(color as int, i as int, j as int),
    {
        self.is_fluid(i, j) && (i % 2 + j % 2 + color) % 2 == 1
    }

    /// One colour of `psi` relaxed.
    fn relax_colour(&self, psi: &Vec<T>, color: usize) -> (out: Vec<T>)
        requires
            self.wf(),
            is_plane(psi@, self.nx as int, self.ny as int),
            color < 2,
        ensures
            out@ == self.model().sweep(psi@, self.flow().omega, color as int),
            is_plane(out@, self.nx as int, self.ny as int),
    {
        T::lawful();
        let h2: T = self.h * self.h;
        let f = |i: usize, j: usize| -> (r: T)
            requires
                i < self.nx,
                j < self.ny,
                self.wf(),
                is_plane(psi@, self.nx as int, self.ny as int),
                color < 2,
                h2 == self.model().h2(),
            ensures
                r == self.model().sweep_cells(psi@, self.flow().omega, color as int)(
                    i as int,
                    j as int,
                ),
            {
                if self.is_marked(color, i, j) {
                    relaxed_of(psi, &self.omega, self.nx, self.ny, h2, self.sor, i, j)
                } else {
                    node(psi, self.nx, self.ny, i, j)
                }
            };
        compute_field(
            self.nx,
            self.ny,
            self.min_len,
            f,
            Ghost(self.model().sweep_cells(psi@, self.flow().omega, color as int)),
        )
    }

    /// The last column set to the one before it.
    fn let_out(&self, psi: &Vec<T>) -> (out: Vec<T>)
        requires
            self.wf(),
            is_plane(psi@, self.nx as int, self.ny as int),
        ensures
            out@ == self.model().outflow(psi@),
            is_plane(out@, self.nx as int, self.ny as int),
    {
        let f = |i: usize, j: usize| -> (r: T)
            requires
                i < self.nx,
                j < self.ny,
                self.wf(),
                is_plane(psi@, self.nx as int, self.ny as int),
            ensures
                r == self.model().outflow_cells(psi@)(i as int, j as int),
            {
                if i == self.nx - 1 {
                    node(psi, self.nx, self.ny, self.nx - 2, j)
                } else {
                    node(psi, self.nx, self.ny, i, j)
                }
            };
        compute_field(
            self.nx,
            self.ny,
            self.min_len,
            f,
            Ghost(self.model().outflow_cells(psi@)),
        )
    }

    /// The largest change that relaxing a colour makes.
    fn colour_change(&self, psi: &Vec<T>, color: usize) -> (r: T)
        requires
            self.wf(),
            is_plane(psi@, self.nx as int, self.ny as int),
            color < 2,
        ensures
            r == largest(
                nil(),
                self.model().change_value(psi@, self.flow().omega, color as int),
                self.model().nx,
                self.model().ny,
            ),
    {
        T::lawful();
        let h2: T = self.h * self.h;
        let f = |i: usize, j: usize| -> (r: Option<T>)
            requires
                i < self.nx,
                j < self.ny,
                self.wf(),
                is_plane(psi@, self.nx as int, self.ny as int),
                color < 2,
                h2 == self.model().h2(),
            ensures
                r == self.model().change_value(psi@, self.flow().omega, color as int)(
                    i as int,
                    j as int,
                ),
            {
                if self.is_marked(color, i, j) {
                    Some(
                        abs_of(change_of(psi, &self.omega, self.nx, self.ny, h2, self.sor, i, j)),
                    )
                } else {
                    None
                }
            };
        largest_of(
            self.nx,
            self.ny,
            self.min_len,
            zero(),
            f,
            Ghost(self.model().change_value(psi@, self.flow().omega, color as int)),
        )
    }

    /// The largest value that relaxing a colour leaves.
    fn colour_size(&self, psi: &Vec<T>, color: usize) -> (r: T)
        requires
            self.wf(),
            is_plane(psi@, self.nx as int, self.ny as int),
            color < 2,
        ensures
            r == largest(
                T::tiny(),
                self.model().size_value(psi@, self.flow().omega, color as int),
                self.model().nx,
                self.model().ny,
            ),
    {
        T::lawful();
        let h2: T = self.h * self.h;
        let f = |i: usize, j: usize| -> (r: Option<T>)
            requires
                i < self.nx,
                j < self.ny,
                self.wf(),
                is_plane(psi@, self.nx as int, self.ny as int),
                color < 2,
                h2 == self.model().h2(),
            ensures
                r == self.model().size_value(psi@, self.flow().omega, color as int)(
                    i as int,
                    j as int,
                ),
            {
                if self.is_marked(color, i, j) {
                    Some(
                        abs_of(relaxed_of(psi, &self.omega, self.nx, self.ny, h2, self.sor, i, j)),
                    )
                } else {
                    None
                }
            };
        largest_of(
            self.nx,
            self.ny,
            self.min_len,
            T::smallest(),
            f,
            Ghost(self.model().size_value(psi@, self.flow().omega, color as int)),
        )
    }

    /// The relative change of a relaxation of `psi`; `red` is `psi` after its first colour.
    fn measure(&self, psi: &Vec<T>, red: &Vec<T>) -> (r: T)
        requires
            self.wf(),
            is_plane(psi@, self.nx as int, self.ny as int),
            is_plane(red@, self.nx as int, self.ny as int),
            red@ == self.model().sweep(psi@, self.flow().omega, 0),
        ensures
            r == self.model().relative_change(psi@, self.flow().omega),
    {
        let changed: T = max_of(self.colour_change(psi, 0), self.colour_change(red, 1));
        let reached: T = max_of(self.colour_size(psi, 0), self.colour_size(red, 1));
        T::lawful();
        changed / reached
    }

    /// Relaxes the streamfunction until a test of convergence succeeds or the sweeps are
    /// used up.
    fn iterate(&self, psi: Vec<T>) -> (r: (Vec<T>, usize, T))
        requires
            self.wf(),
            is_plane(psi@, self.nx as int, self.ny as int),
        ensures
            r.1 == self.model().sweeps(psi@, self.flow().omega, 0),
            r.0@ == self.model().after(psi@, self.flow().omega, r.1 as int),
            r.2 == self.model().last_measured(psi@, self.flow().omega, r.1 as int),
            r.1 <= self.model().max_it,
            is_plane(r.0@, self.nx as int, self.ny as int),
    {
        let max_it: usize = self.cfg.poisson_max_it;
        let ghost m = self.model();
        let ghost om = self.flow().omega;
        let ghost start = psi@;
        let mut psi: Vec<T> = psi;
        let mut it: usize = 0;
        let mut rel: T = zero();
        let mut done: bool = false;
        while !done && it < max_it
            invariant
                self.wf(),
                m == self.model(),
                om == self.flow().omega,
                max_it == m.max_it,
                it <= max_it,
                is_plane(psi@, self.nx as int, self.ny as int),
                psi@ == m.after(start, om, it as int),
                rel == m.last_measured(start, om, it as int),
                done ==> m.sweeps(start, om, 0) == it,
                !done ==> m.sweeps(start, om, 0) == m.sweeps(start, om, it as int),
            decreases max_it - it,
        {
            let red = self.relax_colour(&psi, 0);
            let black = self.relax_colour(&red, 1);
            let next = self.let_out(&black);
            if (it + 1) % 4 == 0 {
                rel = self.measure(&psi, &red);
                if rel.less_than(self.cfg.poisson_tol) {
                    done = true;
                }
            }
            proof {
                lemma_iteration(m, start, om, it as int);
            }
            psi = next;
            it = it + 1;
        }
        (psi, it, rel)
    }

    /// Solves the Poisson equation for the streamfunction by red-black SOR, warm-started
    /// from the current one. Returns the iterations and the relative change.
    pub fn poisson(&mut self) -> (r: (usize, T))
        requires
            old(self).wf(),
        ensures
            final(self).wf(),
            final(self).config() == old(self).config(),
            final(self).model() == old(self).model(),
            final(self).flow() == old(self).model().with_poisson(old(self).flow()),
            r.0 == old(self).model().poisson_iterations(old(self).flow()),
            r.1 == old(self).model().poisson_report(old(self).flow()),
    {
        let start = self.bound(&self.psi);
        let (psi, it, rel): (Vec<T>, usize, T) = self.iterate(start);
        self.psi = psi;
        (it, rel)
    }

    fn lift_at(&self, i: usize, j: usize) -> (r: T)
        requires
            self.wf(),
            i < self.nx,
            j < self.ny,
        ensures
            r == self.model().lift(self.flow().psi, i as int, j as int),
    {
        T::lawful();
        if self.is_fluid(i, j) {
            node(&self.psi, self.nx, self.ny, i, j) - self.psi_body
        } else {
            zero()
        }
    }

    fn exposed_at(&self, i: usize, j: usize) -> (r: usize)
        requires
            self.wf(),
            i < self.nx,
            j < self.ny,
        ensures
            r == self.model().exposed(i as int, j as int),
            r <= 1,
    {
        if self.is_fluid(i, j) {
            1
        } else {
            0
        }
    }

    fn body_vorticity_at(&self, i: usize, j: usize) -> (r: T)
        requires
            self.wf(),
            1 <= i < self.nx - 1,
            1 <= j < self.ny - 1,
        ensures
            r == self.model().body_vorticity(self.flow().psi, i as int, j as int),
    {
        T::lawful();
        let exposure: usize = self.exposed_at(i + 1, j) + self.exposed_at(i - 1, j)
            + self.exposed_at(i, j + 1) + self.exposed_at(i, j - 1);
        if exposure == 0 {
            zero()
        } else {
            let lift: T = self.lift_at(i + 1, j) + self.lift_at(i - 1, j) + self.lift_at(i, j + 1)
                + self.lift_at(i, j - 1);
            wall_vorticity_of(lift, self.h) / count::<T>(exposure)
        }
    }

    fn held_omega_at(&self, i: usize, j: usize) -> (r: T)
        requires
            self.wf(),
            1 <= i < self.nx - 1,
            j < self.ny,
        ensures
            r == self.model().held_omega(
                self.flow().psi,
                self.flow().omega,
                i as int,
                j as int,
            ),
    {
        if j == 0 || j == self.ny - 1 {
            zero()
        } else if node(&self.mask, self.nx, self.ny, i, j) {
            self.body_vorticity_at(i, j)
        } else {
            node(&self.omega, self.nx, self.ny, i, j)
        }
    }

    /// Sets the vorticity on the rim and on the body.
    pub fn apply_vorticity_bc(&mut self)
        requires
            old(self).wf(),
        ensures
            final(self).wf(),
            final(self).config() == old(self).config(),
            final(self).model() == old(self).model(),
            final(self).flow() == old(self).model().with_walls(old(self).flow()),
    {
        let omega = self.walled();
        self.omega = omega;
    }

    fn walled(&self) -> (out: Vec<T>)
        requires
            self.wf(),
        ensures
            out@ == table(
                self.model().nx,
                self.model().ny,
                self.model().walled_cells(self.flow().psi, self.flow().omega),
            ),
    {
        let f = |i: usize, j: usize| -> (r: T)
            requires
                i < self.nx,
                j < self.ny,
                self.wf(),
            ensures
                r == self.model().walled_cells(self.flow().psi, self.flow().omega)(
                    i as int,
                    j as int,
                ),
            {
                if i == 0 {
                    zero()
                } else if i == self.nx - 1 {
                    self.held_omega_at(self.nx - 2, j)
                } else {
                    self.held_omega_at(i, j)
                }
            };
        compute_field(
            self.nx,
            self.ny,
            self.min_len,
            f,
            Ghost(self.model().walled_cells(self.flow().psi, self.flow().omega)),
        )
    }

    fn rate_at(&self, i: usize, j: usize) -> (r: T)
        requires
            self.wf(),
            1 <= i < self.nx - 1,
            1 <= j < self.ny - 1,
        ensures
            r == tendency(
                self.flow().psi,
                self.flow().omega,
                self.model().nx,
                self.model().h,
                self.model().nu,
                i as int,
                j as int,
            ),
    {
        tendency_of(&self.psi, &self.omega, self.nx, self.ny, self.h, self.nu, i, j)
    }

    /// The vorticity after an Euler step of the fluid.
    fn euler(&self, dt: T) -> (out: Vec<T>)
        requires
            self.wf(),
        ensures
            out@ == table(
                self.model().nx,
                self.model().ny,
                self.model().euler_cells(self.flow(), dt),
            ),
    {
        let f = |i: usize, j: usize| -> (r: T)
            requires
                i < self.nx,
                j < self.ny,
                self.wf(),
            ensures
                r == self.model().euler_cells(self.flow(), dt)(i as int, j as int),
            {
                T::lawful();
                let now: T = node(&self.omega, self.nx, self.ny, i, j);
                if self.is_fluid(i, j) {
                    now + dt * self.rate_at(i, j)
                } else {
                    now
                }
            };
        compute_field(
            self.nx,
            self.ny,
            self.min_len,
            f,
            Ghost(self.model().euler_cells(self.flow(), dt)),
        )
    }

    /// The weighted mean of `start` and an Euler step of the fluid.
    fn blend(&self, a: T, start: &Vec<T>, b: T, dt: T) -> (out: Vec<T>)
        requires
            self.wf(),
            is_plane(start@, self.nx as int, self.ny as int),
        ensures
            out@ == table(
                self.model().nx,
                self.model().ny,
                self.model().blend_cells(a, start@, b, self.flow(), dt),
            ),
    {
        let f = |i: usize, j: usize| -> (r: T)
            requires
                i < self.nx,
                j < self.ny,
                self.wf(),
                is_plane(start@, self.nx as int, self.ny as int),
            ensures
                r == self.model().blend_cells(a, start@, b, self.flow(), dt)(i as int, j as int),
            {
                let now: T = node(&self.omega, self.nx, self.ny, i, j);
                if self.is_fluid(i, j) {
                    blended_of(
                        a,
                        node(start, self.nx, self.ny, i, j),
                        b,
                        now,
                        dt,
                        self.rate_at(i, j),
                    )
                } else {
                    now
                }
            };
        compute_field(
            self.nx,
            self.ny,
            self.min_len,
            f,
            Ghost(self.model().blend_cells(a, start@, b, self.flow(), dt)),
        )
    }

    /// Solves for the streamfunction and sets the boundary vorticity.
    fn prepare(&mut self) -> (r: (usize, T))
        requires
            old(self).wf(),
        ensures
            final(self).wf(),
            final(self).config() == old(self).config(),
            final(self).model() == old(self).model(),
            final(self).flow() == old(self).model().prepared(old(self).flow()),
            r.0 == old(self).model().poisson_iterations(old(self).flow()),
            r.1 == old(self).model().poisson_report(old(self).flow()),
    {
        let r: (usize, T) = self.poisson();
        self.apply_vorticity_bc();
        r
    }

    /// One SSP-RK3 step. Returns the Poisson iterations of its three stages and the report
    /// of the last solve.
    pub fn step(&mut self, dt: T) -> (r: (usize, T))
        requires
            old(self).wf(),
        ensures
            final(self).wf(),
            final(self).config() == old(self).config(),
            final(self).model() == old(self).model(),
            final(self).flow() == old(self).model().step(old(self).flow(), dt),
            r.0 == old(self).model().step_iterations(old(self).flow(), dt) % (usize::MAX + 1),
            old(self).model().step_iterations(old(self).flow(), dt) <= usize::MAX ==> r.0 == old(
                self,
            ).model().step_iterations(old(self).flow(), dt),
            r.1 == old(self).model().step_report(old(self).flow(), dt),
    {
        let ghost m = self.model();
        let ghost f0 = self.flow();
        let (it1, r1): (usize, T) = self.prepare();
        let start = copied(&self.omega);
        let omega1 = self.euler(dt);
        self.omega = omega1;
        assert(self.flow() == m.after1(f0, dt));
        let (it2, r2): (usize, T) = self.prepare();
        let omega2 = self.blend(T::from_ratio(3, 4), &start, T::from_ratio(1, 4), dt);
        self.omega = omega2;
        assert(self.flow() == m.after2(f0, dt));
        let (it3, last): (usize, T) = self.prepare();
        let omega3 = self.blend(T::from_ratio(1, 3), &start, T::from_ratio(2, 3), dt);
        self.omega = omega3;
        (tally(it1, it2, it3), last)
    }

    fn interior_speed(&self) -> (r: T)
        requires
            self.wf(),
        ensures
            r == self.model().top_speed(self.flow()),
    {
        let f = |i: usize, j: usize| -> (r: Option<T>)
            requires
                i < self.nx,
                j < self.ny,
                self.wf(),
            ensures
                r == self.model().speed_value(self.flow().psi)(i as int, j as int),
            {
                if self.is_fluid(i, j) {
                    Some(speed_squared_of(&self.psi, self.nx, self.ny, self.h, i, j).sqrt())
                } else {
                    None
                }
            };
        largest_of(
            self.nx,
            self.ny,
            self.min_len,
            zero(),
            f,
            Ghost(self.model().speed_value(self.flow().psi)),
        )
    }

    /// Maximum velocity magnitude, at least that of the inflow.
    pub fn max_speed(&self) -> (r: T)
        requires
            self.wf(),
        ensures
            r == self.model().max_speed(self.flow()),
            proper(self.model().u_in) ==> self.model().u_in <= r,
            forall|i: int, j: int|
                self.model().fluid(i, j) && proper(
                    #[trigger] node_speed(self.flow().psi, self.model().nx, self.model().h, i, j),
                ) ==> node_speed(self.flow().psi, self.model().nx, self.model().h, i, j) <= r,
    {
        T::faithful();
        proof {
            let (m, f) = (self.model(), self.flow());
            law_channel_speed_bounded(m, f, 0, 0);
            assert forall|i: int, j: int|
                m.fluid(i, j) && proper(
                    #[trigger] node_speed(f.psi, m.nx, m.h, i, j),
                ) implies node_speed(f.psi, m.nx, m.h, i, j) <= m.max_speed(f) by {
                law_channel_speed_bounded(m, f, i, j);
            }
        }
        max_of(self.interior_speed(), self.cfg.u_lid)
    }

    fn energy(&self) -> (r: T)
        requires
            self.wf(),
        ensures
            r == self.model().kinetic_energy(self.flow()),
    {
        let f = |i: usize, j: usize| -> (r: Option<T>)
            requires
                i < self.nx,
                j < self.ny,
                self.wf(),
            ensures
                r == self.model().energy_value(self.flow().psi)(i as int, j as int),
            {
                T::lawful();
                if self.is_fluid(i, j) {
                    let s2: T = speed_squared_of(&self.psi, self.nx, self.ny, self.h, i, j);
                    Some(T::from_ratio(1, 2) * s2 * (self.h * self.h))
                } else {
                    None
                }
            };
        total_of(
            self.nx,
            self.ny,
            self.min_len,
            f,
            Ghost(self.model().energy_value(self.flow().psi)),
        )
    }

    fn spin(&self) -> (r: T)
        requires
            self.wf(),
        ensures
            r == self.model().enstrophy(self.flow()),
    {
        let f = |i: usize, j: usize| -> (r: Option<T>)
            requires
                i < self.nx,
                j < self.ny,
                self.wf(),
            ensures
                r == self.model().enstrophy_value(self.flow().omega)(i as int, j as int),
            {
                T::lawful();
                if self.is_fluid(i, j) {
                    let w: T = node(&self.omega, self.nx, self.ny, i, j);
                    Some(T::from_ratio(1, 2) * w * w * (self.h * self.h))
                } else {
                    None
                }
            };
        total_of(
            self.nx,
            self.ny,
            self.min_len,
            f,
            Ghost(self.model().enstrophy_value(self.flow().omega)),
        )
    }

    fn turning(&self) -> (r: T)
        requires
            self.wf(),
        ensures
            r == self.model().circulation(self.flow()),
    {
        let f = |i: usize, j: usize| -> (r: Option<T>)
            requires
                i < self.nx,
                j < self.ny,
                self.wf(),
            ensures
                r == self.model().circulation_value(self.flow().omega)(i as int, j as int),
            {
                T::lawful();
                if self.is_fluid(i, j) {
                    Some(node(&self.omega, self.nx, self.ny, i, j) * (self.h * self.h))
                } else {
                    None
                }
            };
        total_of(
            self.nx,
            self.ny,
            self.min_len,
            f,
            Ghost(self.model().circulation_value(self.flow().omega)),
        )
    }

    /// Kinetic energy, enstrophy, circulation and the maximum speed of the fluid.
    pub fn diagnostics(&self) -> (r: (T, T, T, T))
        requires
            self.wf(),
        ensures
            r.0 == self.model().kinetic_energy(self.flow()),
            r.1 == self.model().enstrophy(self.flow()),
            r.2 == self.model().circulation(self.flow()),
            r.3 == self.model().top_speed(self.flow()),
    {
        (self.energy(), self.spin(), self.turning(), self.interior_speed())
    }

    fn held_u_at(&self, i: usize, j: usize) -> (r: T)
        requires
            self.wf(),
            1 <= i < self.nx - 1,
            j < self.ny,
        ensures
            r == self.model().held_u(self.flow().psi, i as int, j as int),
    {
        T::lawful();
        let (nx, ny): (usize, usize) = (self.nx, self.ny);
        if j == 0 {
            (node(&self.psi, nx, ny, i, 1) - node(&self.psi, nx, ny, i, 0)) / self.h
        } else if j == ny - 1 {
            (node(&self.psi, nx, ny, i, ny - 1) - node(&self.psi, nx, ny, i, ny - 2)) / self.h
        } else if node(&self.mask, nx, ny, i, j) {
            zero()
        } else {
            velocity_u_of(&self.psi, nx, ny, self.h, i, j)
        }
    }

    fn u_field(&self) -> (out: Vec<T>)
        requires
            self.wf(),
        ensures
            out@ == table(
                self.model().nx,
                self.model().ny,
                self.model().u_cells(self.flow().psi),
            ),
    {
        let f = |i: usize, j: usize| -> (r: T)
            requires
                i < self.nx,
                j < self.ny,
                self.wf(),
            ensures
                r == self.model().u_cells(self.flow().psi)(i as int, j as int),
            {
                if i == 0 {
                    self.cfg.u_lid
                } else if i == self.nx - 1 {
                    self.held_u_at(self.nx - 2, j)
                } else {
                    self.held_u_at(i, j)
                }
            };
        compute_field(
            self.nx,
            self.ny,
            self.min_len,
            f,
            Ghost(self.model().u_cells(self.flow().psi)),
        )
    }

    fn v_field(&self) -> (out: Vec<T>)
        requires
            self.wf(),
        ensures
            out@ == table(
                self.model().nx,
                self.model().ny,
                self.model().v_cells(self.flow().psi),
            ),
    {
        let f = |i: usize, j: usize| -> (r: T)
            requires
                i < self.nx,
                j < self.ny,
                self.wf(),
            ensures
                r == self.model().v_cells(self.flow().psi)(i as int, j as int),
            {
                if self.is_fluid(i, j) {
                    velocity_v_of(&self.psi, self.nx, self.ny, self.h, i, j)
                } else {
                    zero()
                }
            };
        compute_field(
            self.nx,
            self.ny,
            self.min_len,
            f,
            Ghost(self.model().v_cells(self.flow().psi)),
        )
    }

    /// The current fields as raw little-endian numbers: vorticity, streamfunction,
    /// horizontal and vertical velocity, each row by row.
    pub fn frame_bytes(&self) -> (r: Vec<u8>)
        requires
            self.wf(),
        ensures
            r@ == channel_frame(self.model(), self.flow()),
    {
        let uu = self.u_field();
        let vv = self.v_field();
        let mut buf: Vec<u8> = Vec::new();
        append_field(&mut buf, &self.omega);
        append_field(&mut buf, &self.psi);
        append_field(&mut buf, &uu);
        append_field(&mut buf, &vv);
        assert(buf@ =~= channel_frame(self.model(), self.flow()));
        buf
    }

    pub fn cfg(&self) -> (r: &Config<T>)
        ensures
            *r == self.config(),
    {
        &self.cfg
    }

    /// Nodes along the channel.
    pub fn nx(&self) -> (r: usize)
        ensures
            r == self.model().nx,
    {
        self.nx
    }

    /// Nodes across the channel.
    pub fn ny(&self) -> (r: usize)
        ensures
            r == self.model().ny,
    {
        self.ny
    }

    /// Distance between neighbouring nodes.
    pub fn h(&self) -> (r: T)
        ensures
            r == self.model().h,
    {
        self.h
    }

    /// Kinematic viscosity.
    pub fn nu(&self) -> (r: T)
        ensures
            r == self.model().nu,
    {
        self.nu
    }

    /// Whether the body covers a node.
    pub fn solid(&self, i: usize, j: usize) -> (r: bool)
        requires
            self.wf(),
            i < self.model().nx,
            j < self.model().ny,
        ensures
            r == self.model().solid(i as int, j as int),
    {
        node(&self.mask, self.nx, self.ny, i, j)
    }

    /// The name of the Poisson solver in use.
    pub fn solver_name(&self) -> (r: &'static str)
        ensures
            r@ == "SOR (iterative)"@,
    {
        "SOR (iterative)"
    }
}

} // verus!
