//! What the parameters of a run mean, in exact arithmetic.
use crate::channel::{mask_cells, start_cells, stream_cells, street_model};
use crate::channel_model::{rectangle_factor, seed, ChannelModel};
use crate::config::Config;
use crate::fft::power_of_two;
use crate::geometry::Object;
use crate::grid::at;
use crate::laws::algebra::{
    lemma_associate, lemma_commute, lemma_products, lemma_quotient, lemma_times_minus,
    lemma_times_plus,
};
use crate::laws::exact::{is_root, lemma_nil, lemma_whole, trigonometry};
use crate::plane::lemma_table;
use crate::poisson::direct_solver;
use crate::solver::cavity_model;
use vstd::prelude::*;

verus! {

/// The sine of a part of a half turn is positive.
proof fn lemma_part(k: int)
    requires
        trigonometry().valid(),
        k >= 2,
    ensures
        0real < (trigonometry().s)(trigonometry().pi / k as real),
{
    let (pi, n) = (trigonometry().pi, k as real);
    let q = pi / n;
    lemma_quotient(pi, n);
    assert(0real < q < pi) by (nonlinear_arith)
        requires
            q * n == pi,
            n >= 2real,
            0real < pi,
    ;
}

/// The cavity of a configuration: the distances between the nodes add up to the size of the
/// domain, the Reynolds number is that of the lid, and the relaxation factor is the optimal
/// one of a square. "sor" asks for relaxation, "fft" for the direct solver, anything else for
/// the direct solver where `n - 1` is a power of two.
pub proof fn law_cavity_parameters(cfg: Config<real>)
    requires
        trigonometry().valid(),
        cfg.n >= 2,
        cfg.re != 0real,
    ensures
        ({
            let m = cavity_model(cfg);
            let s = (trigonometry().s)(trigonometry().pi / cfg.n as real);
            &&& m.n == cfg.n
            &&& (cfg.n - 1) as real * m.h == cfg.l
            &&& m.nu * cfg.re == cfg.u_lid * cfg.l
            &&& m.u_lid == cfg.u_lid
            &&& m.tol == cfg.poisson_tol
            &&& m.max_it == cfg.poisson_max_it
            &&& m.sor * (1real + s) == 2real
            &&& 0real < s
            &&& cfg.solver@ == "sor"@ ==> m.direct is None
            &&& cfg.solver@ == "fft"@ ==> m.direct is Some
            &&& cfg.solver@ != "sor"@ && cfg.solver@ != "fft"@ ==> (m.direct is Some
                <==> power_of_two(cfg.n - 1))
            &&& m.direct matches Some(d) ==> d == direct_solver(m.n, m.h)
        }),
{
    reveal_strlit("sor");
    reveal_strlit("fft");
    assert("sor"@[0] != "fft"@[0]);
    lemma_whole(1);
    lemma_whole(2);
    lemma_whole(cfg.n as int);
    lemma_part(cfg.n as int);
    lemma_quotient(cfg.l, (cfg.n - 1) as real);
    lemma_quotient(cfg.u_lid * cfg.l, cfg.re);
    let s = (trigonometry().s)(trigonometry().pi / cfg.n as real);
    lemma_quotient(2real, 1real + s);
}

/// The channel of a configuration: as many cells high as a square and four times as long, the
/// Reynolds number that of the obstacle, the body at the streamline of its height, and solid
/// where the obstacle covers a node.
pub proof fn law_channel_parameters(cfg: Config<real>, obstacle: Object<real>, i: int, j: int)
    requires
        cfg.n >= 2,
        cfg.re != 0real,
    ensures
        ({
            let m = street_model(cfg, obstacle);
            &&& m.ny == cfg.n
            &&& m.nx - 1 == 4 * (m.ny - 1)
            &&& (m.ny - 1) as real * m.h == cfg.l
            &&& m.nu * cfg.re == cfg.u_lid * obstacle.length()
            &&& m.u_in == cfg.u_lid
            &&& m.tol == cfg.poisson_tol
            &&& m.max_it == cfg.poisson_max_it
            &&& m.sor == rectangle_factor::<real>(m.nx, m.ny)
            &&& m.psi_body == m.u_in * obstacle.height()
            &&& 0 <= i < m.nx && 0 <= j < m.ny ==> at(m.mask, m.nx, i, j) == obstacle.holds(
                i as real * m.h,
                j as real * m.h,
            )
        }),
{
    let m = street_model(cfg, obstacle);
    lemma_whole(1);
    lemma_whole(cfg.n as int);
    lemma_whole(i);
    lemma_whole(j);
    lemma_quotient(cfg.l, (cfg.n - 1) as real);
    lemma_quotient(cfg.u_lid * obstacle.length(), cfg.re);
    if 0 <= i < m.nx && 0 <= j < m.ny {
        lemma_table(m.nx, m.ny, mask_cells(obstacle, m.h), i, j);
    }
}

/// The relaxation factor `w` of a rectangle is optimal: with the spectral radius `rho` of
/// plain relaxation, the mean of two cosines, it solves `rho^2 w^2 = 4 (w - 1)`, and of the two
/// solutions it is the one that the root `r` of `1 - rho^2` is added for.
pub proof fn law_rectangle_factor(nx: int, ny: int, r: real)
    requires
        0real <= r,
        ({
            let pi = trigonometry().pi;
            let twice = (trigonometry().c)(pi / nx as real) + (trigonometry().c)(pi / ny as real);
            4real * (r * r) == 4real - twice * twice
        }),
    ensures
        ({
            let pi = trigonometry().pi;
            let twice = (trigonometry().c)(pi / nx as real) + (trigonometry().c)(pi / ny as real);
            let w = rectangle_factor::<real>(nx, ny);
            &&& w * (1real + r) == 2real
            &&& (twice * twice) * (w * w) == 16real * (w - 1real)
        }),
{
    lemma_whole(1);
    lemma_whole(2);
    lemma_whole(nx);
    lemma_whole(ny);
    let pi = trigonometry().pi;
    let twice = (trigonometry().c)(pi / nx as real) + (trigonometry().c)(pi / ny as real);
    let q = 1int as real / 2int as real;
    let rho = q * twice;
    assert(2real * rho == twice) by (nonlinear_arith)
        requires
            rho == q * twice,
            2real * q == 1real,
    ;
    let tt = twice * twice;
    assert(4real * (rho * rho) == tt) by (nonlinear_arith)
        requires
            tt == twice * twice,
            2real * rho == twice,
    ;
    let x = 1real - rho * rho;
    assert(r * r == x);
    assert(is_root(x, r));
    let s = <real as crate::scalar::Arith>::root(x);
    assert(is_root(x, s));
    assert(s == r) by (nonlinear_arith)
        requires
            s * s == r * r,
            0real <= s,
            0real <= r,
    ;
    let w = rectangle_factor::<real>(nx, ny);
    lemma_quotient(2real, 1real + r);
    assert(w == 2real / (1real + r));
    lemma_times_plus(w, 1real, r);
    assert(w * 1real == w);
    let ww = w * w;
    let z = w * r;
    assert(z == 2real - w);
    lemma_products(r, r, w, w);
    lemma_commute(r, w);
    assert((r * r) * ww == z * z);
    assert(z * z == 4real - 4real * w + ww) by (nonlinear_arith)
        requires
            z == 2real - w,
            ww == w * w,
    ;
    let rr = r * r;
    assert(tt * ww == 4real * ww - 4real * (rr * ww)) by (nonlinear_arith)
        requires
            tt == 4real - 4real * rr,
    ;
}

/// The fluid starts as the uniform stream. Its vorticity is zero but for the seed behind the
/// obstacle, where there is fluid.
pub proof fn law_channel_start(m: ChannelModel<real>, obstacle: Object<real>, i: int, j: int)
    ensures
        stream_cells(m)(i, j) == m.u_in * (j as real * m.h),
        start_cells(m, obstacle)(i, j) == if 1 <= i < m.nx - 1 && 1 <= j < m.ny - 1 && !at(
            m.mask,
            m.nx,
            i,
            j,
        ) {
            seed(m.u_in, obstacle.anchor(), i as real * m.h, j as real * m.h)
        } else {
            0real
        },
{
    lemma_nil();
    lemma_whole(i);
    lemma_whole(j);
}

/// The seed of the wake at the distance `d` from the anchor: a tenth of the speed over the
/// length there, falling off with the square of the distance to nothing at half the length.
pub proof fn law_seed(u: real, ax: real, ay: real, len: real, d: real, a: real, b: real)
    requires
        0real < len,
        0real <= d,
        a * a + b * b == 1real,
    ensures
        ({
            let s = seed(u, (ax, ay, len), ax + d * a, ay + d * b);
            &&& len <= 2real * d ==> s == 0real
            &&& 2real * d < len ==> (10real * len * s) * (len * len) == u * (len * len - 4real * (d
                * d))
        }),
{
    lemma_nil();
    lemma_whole(1);
    let (x, y) = (d * a, d * b);
    assert(ax + x - ax == x && ay + y - ay == y);
    lemma_products(d, a, d, a);
    lemma_products(d, b, d, b);
    let dd = d * d;
    lemma_times_plus(dd, a * a, b * b);
    assert(dd * 1real == dd);
    let q = 1int as real / 4int as real;
    let ll = len * len;
    let reach = q * len * len;
    lemma_associate(q, len, len);
    assert(4real * reach == ll) by (nonlinear_arith)
        requires
            reach == q * ll,
            4real * q == 1real,
    ;
    if len <= 2real * d {
        let e = 2real * d;
        assert(ll <= 4real * dd) by (nonlinear_arith)
            requires
                ll == len * len,
                dd == d * d,
                0real < len <= 2real * d,
        ;
    } else {
        assert(4real * dd < ll) by (nonlinear_arith)
            requires
                ll == len * len,
                dd == d * d,
                0real <= d,
                2real * d < len,
        ;
        let tenth = 1int as real / 10int as real;
        let p = tenth * u;
        assert(10real * p == u) by (nonlinear_arith)
            requires
                p == tenth * u,
                10real * tenth == 1real,
        ;
        let g = p / len;
        lemma_quotient(p, len);
        assert(0real <= dd) by (nonlinear_arith)
            requires
                dd == d * d,
        ;
        lemma_quotient(dd, reach);
        let f = dd / reach;
        let k = 1real - f;
        let s = seed(u, (ax, ay, len), ax + x, ay + y);
        assert(s == g * k);
        lemma_times_minus(reach, 1real, f);
        assert(reach * 1real == reach);
        assert(reach * k == reach - dd);
        assert(ll * k == 4real * (reach * k)) by (nonlinear_arith)
            requires
                4real * reach == ll,
        ;
        let t = 10real * len;
        assert(t * g == u) by (nonlinear_arith)
            requires
                t == 10real * len,
                len * g == p,
                10real * p == u,
        ;
        lemma_associate(t, g, k);
        assert(t * s == u * k);
        lemma_commute(k, ll);
        lemma_associate(u, k, ll);
    }
}

} // verus!
