use cfd_solver::channel::Channel;
use cfd_solver::config::Config;
use cfd_solver::fft::Fft;
use cfd_solver::geometry::{naca_camber, naca_thickness, parse_naca, Object, Obstacle};
use cfd_solver::poisson::PoissonFft;
use cfd_solver::run::{cfl_of, visc_dt_limit, Clock};
use cfd_solver::scalar::{abs_of, count, max_of, min_of, zero, Arith, Scalar};
use cfd_solver::solver::Solver;
use std::f64::consts::PI;
use std::ops::{Add, Div, Mul, Neg, Sub};

#[derive(Clone, Copy, Debug, PartialEq)]
struct F64(f64);

impl Add for F64 {
    type Output = F64;
    fn add(self, o: F64) -> F64 {
        F64(self.0 + o.0)
    }
}

impl Sub for F64 {
    type Output = F64;
    fn sub(self, o: F64) -> F64 {
        F64(self.0 - o.0)
    }
}

impl Mul for F64 {
    type Output = F64;
    fn mul(self, o: F64) -> F64 {
        F64(self.0 * o.0)
    }
}

impl Div for F64 {
    type Output = F64;
    fn div(self, o: F64) -> F64 {
        F64(self.0 / o.0)
    }
}

impl Neg for F64 {
    type Output = F64;
    fn neg(self) -> F64 {
        F64(-self.0)
    }
}

impl Arith for F64 {}

impl Scalar for F64 {
    fn from_ratio(num: u64, den: u64) -> F64 {
        F64(num as f64 / den as f64)
    }
    fn sqrt(self) -> F64 {
        F64(self.0.sqrt())
    }
    fn pi() -> F64 {
        F64(std::f64::consts::PI)
    }
    fn sin(self) -> F64 {
        F64(self.0.sin())
    }
    fn cos(self) -> F64 {
        F64(self.0.cos())
    }
    fn asin(self) -> F64 {
        F64(self.0.asin())
    }
    fn rounded(self) -> i32 {
        self.0.round() as i32
    }
    fn print(self, places: usize) -> String {
        format!("{:.*}", places, self.0)
    }
    fn smallest() -> F64 {
        F64(1e-30)
    }
    fn less_than(self, o: F64) -> bool {
        self.0 < o.0
    }
    fn at_most(self, o: F64) -> bool {
        self.0 <= o.0
    }
    fn to_le_bytes(self) -> Vec<u8> {
        self.0.to_le_bytes().to_vec()
    }
    fn parse(text: &String) -> Option<F64> {
        text.parse().ok().map(F64)
    }
    fn lawful() {}
    fn faithful() {}
}

fn config(n: usize, solver: &str) -> Config<F64> {
    let mut cfg: Config<F64> = Config::default();
    cfg.n = n;
    cfg.solver = solver.to_string();
    cfg
}

fn make(cfg: Config<F64>) -> Solver<F64> {
    Solver::new(cfg)
}

/// The four fields of a frame.
fn fields(s: &Solver<F64>) -> Vec<Vec<f64>> {
    let n = s.n();
    let bytes = s.frame_bytes();
    assert_eq!(bytes.len(), 4 * n * n * 8);
    let all: Vec<f64> = bytes
        .chunks(8)
        .map(|c| f64::from_le_bytes([c[0], c[1], c[2], c[3], c[4], c[5], c[6], c[7]]))
        .collect();
    all.chunks(n * n).map(|b| b.to_vec()).collect()
}

fn close(a: f64, b: f64, eps: f64) -> bool {
    (a - b).abs() <= eps
}

/// A field without symmetries.
fn rough(n: usize) -> Vec<F64> {
    (0..n * n).map(|k| F64(((k * k * 7 + 3 * k + 1) % 23) as f64 - 11.0)).collect()
}

fn laplacian(f: &[f64], n: usize, h: f64, i: usize, j: usize) -> f64 {
    let c = j * n + i;
    (f[c + 1] + f[c - 1] + f[c + n] + f[c - n] - 4.0 * f[c]) / (h * h)
}

// --- numbers ---------------------------------------------------------------

#[test]
fn numbers_of_the_library() {
    let seven: F64 = count(7);
    assert_eq!(seven, F64(7.0));
    let nothing: F64 = zero();
    assert_eq!(nothing, F64(0.0));
    assert_eq!(max_of(F64(2.0), F64(3.0)), F64(3.0));
    assert_eq!(max_of(F64(3.0), F64(2.0)), F64(3.0));
    assert_eq!(min_of(F64(2.0), F64(3.0)), F64(2.0));
    assert_eq!(min_of(F64(3.0), F64(2.0)), F64(2.0));
    assert_eq!(abs_of(F64(-4.5)), F64(4.5));
    assert_eq!(abs_of(F64(4.5)), F64(4.5));
}

// --- transforms ------------------------------------------------------------

fn plan(n: usize) -> Fft<F64> {
    Fft::new(n)
}

#[test]
fn transform_of_four() {
    let mut re: Vec<F64> = [1.0, 2.0, 3.0, 4.0].iter().map(|x| F64(*x)).collect();
    let mut im: Vec<F64> = vec![F64(0.0); 4];
    plan(4).transform(&mut re, &mut im);
    let want_re = [10.0, -2.0, -2.0, -2.0];
    let want_im = [0.0, 2.0, 0.0, -2.0];
    for k in 0..4 {
        assert!(close(re[k].0, want_re[k], 1e-12), "re {k}: {}", re[k].0);
        assert!(close(im[k].0, want_im[k], 1e-12), "im {k}: {}", im[k].0);
    }
}

#[test]
fn transform_of_one_value() {
    let mut re = vec![F64(5.0)];
    let mut im = vec![F64(-1.0)];
    plan(1).transform(&mut re, &mut im);
    assert_eq!(re[0], F64(5.0));
    assert_eq!(im[0], F64(-1.0));
}

#[test]
fn transform_is_the_fourier_sum() {
    let n = 16;
    let xr: Vec<f64> = (0..n).map(|k| ((k * 5 + 2) % 7) as f64).collect();
    let xi: Vec<f64> = (0..n).map(|k| ((k * 3 + 1) % 5) as f64 - 2.0).collect();
    let mut re: Vec<F64> = xr.iter().map(|x| F64(*x)).collect();
    let mut im: Vec<F64> = xi.iter().map(|x| F64(*x)).collect();
    plan(n).transform(&mut re, &mut im);
    for k in 0..n {
        let (mut a, mut b) = (0.0, 0.0);
        for t in 0..n {
            let phi = 2.0 * PI * (k * t) as f64 / n as f64;
            a += xr[t] * phi.cos() + xi[t] * phi.sin();
            b += xi[t] * phi.cos() - xr[t] * phi.sin();
        }
        assert!(close(re[k].0, a, 1e-10));
        assert!(close(im[k].0, b, 1e-10));
    }
}

// --- direct Poisson solver -------------------------------------------------

fn direct(n: usize, h: f64) -> PoissonFft<F64> {
    PoissonFft::new(n, F64(h))
}

#[test]
fn direct_solver_on_one_node() {
    // one free node: -4 psi / h^2 = -omega
    let n = 3;
    let h = 0.5;
    let omega: Vec<F64> = (0..9).map(|k| F64(if k == 4 { 3.0 } else { 7.0 })).collect();
    let mut psi = vec![F64(0.0); 9];
    direct(n, h).solve(&omega, &mut psi);
    assert!(close(psi[4].0, 3.0 * h * h / 4.0, 1e-14));
    for k in [0, 1, 2, 3, 5, 6, 7, 8] {
        assert_eq!(psi[k], F64(0.0));
    }
}

#[test]
fn direct_solver_is_exact() {
    for n in [5, 9, 17, 33] {
        let h = 1.0 / (n - 1) as f64;
        let omega = rough(n);
        let mut psi = vec![F64(0.0); n * n];
        direct(n, h).solve(&omega, &mut psi);
        let p: Vec<f64> = psi.iter().map(|x| x.0).collect();
        for j in 1..n - 1 {
            for i in 1..n - 1 {
                let r = laplacian(&p, n, h, i, j) + omega[j * n + i].0;
                assert!(r.abs() < 1e-9, "n {n}, node ({i}, {j}): {r}");
            }
        }
    }
}

#[test]
fn direct_solver_keeps_the_walls() {
    let n = 5;
    let mut psi: Vec<F64> = (0..25).map(|k| F64(k as f64)).collect();
    direct(n, 0.25).solve(&rough(n), &mut psi);
    for j in 0..n {
        for i in 0..n {
            if i == 0 || j == 0 || i == n - 1 || j == n - 1 {
                assert_eq!(psi[j * n + i], F64((j * n + i) as f64));
            }
        }
    }
}

#[test]
fn direct_solver_leaves_what_follows() {
    let n = 5;
    let mut omega = rough(n);
    let mut psi = vec![F64(0.0); 25];
    direct(n, 0.25).solve(&omega, &mut psi);
    omega.push(F64(99.0));
    let mut longer = vec![F64(0.0); 25];
    longer.push(F64(7.0));
    longer.push(F64(8.0));
    direct(n, 0.25).solve(&omega, &mut longer);
    assert_eq!(longer[..25], psi[..]);
    assert_eq!(longer[25..], [F64(7.0), F64(8.0)]);
}

/// Transposing twice changes nothing, and what follows the square is left alone.
#[test]
fn transpose_of_a_square() {
    let before: Vec<F64> = (0..11).map(|k| F64(k as f64)).collect();
    let mut a = before.clone();
    PoissonFft::<F64>::transpose(&mut a, 3);
    let want: Vec<F64> =
        [0, 3, 6, 1, 4, 7, 2, 5, 8, 9, 10].iter().map(|k| F64(*k as f64)).collect();
    assert_eq!(a, want);
    PoissonFft::<F64>::transpose(&mut a, 3);
    assert_eq!(a, before);
    PoissonFft::<F64>::transpose(&mut a, 0);
    assert_eq!(a, before);
}

/// The sine transform of a field undoes itself up to a factor.
#[test]
fn field_transform_twice() {
    for n in [3, 5, 9, 17] {
        let p = direct(n, 1.0);
        let before = rough(n - 2);
        let mut a = before.clone();
        p.dst2_forward(&mut a);
        p.dst2_forward(&mut a);
        let half = (n - 1) as f64 / 2.0;
        for (x, y) in a.iter().zip(before.iter()) {
            assert!(close(x.0, half * half * y.0, 1e-11), "n {n}: {} {}", x.0, y.0);
        }
    }
    // sin(pi/4), sin(pi/2), sin(3 pi/4) along both axes
    let mut a = vec![F64(0.0); 9];
    a[4] = F64(1.0);
    direct(5, 1.0).dst2_forward(&mut a);
    let want = [1.0, 0.0, -1.0, 0.0, 0.0, 0.0, -1.0, 0.0, 1.0];
    for k in 0..9 {
        assert!(close(a[k].0, want[k], 1e-14));
    }
}

// --- solver ----------------------------------------------------------------

#[test]
fn choice_of_the_poisson_solver() {
    assert!(make(config(9, "auto")).uses_fft());
    assert!(!make(config(10, "auto")).uses_fft());
    assert!(make(config(9, "fft")).uses_fft());
    assert!(!make(config(9, "sor")).uses_fft());
    assert!(make(config(9, "other")).uses_fft());
    assert_eq!(make(config(9, "auto")).solver_name(), "FFT/DST (direct)");
    assert_eq!(make(config(9, "sor")).solver_name(), "SOR (iterative)");
}

#[test]
fn parameters_of_a_solver() {
    let mut cfg = config(5, "sor");
    cfg.re = F64(100.0);
    let s = make(cfg);
    assert_eq!(s.n(), 5);
    assert_eq!(s.h(), F64(0.25));
    assert_eq!(s.nu(), F64(0.01));
    assert_eq!(s.cfg().cfl, F64(0.4));
    assert_eq!(s.max_speed(), F64(1.0));
}

#[test]
fn fluid_at_rest() {
    let s = make(config(6, "sor"));
    let f = fields(&s);
    for j in 0..6 {
        for i in 0..6 {
            let c = j * 6 + i;
            assert_eq!(f[0][c], 0.0);
            assert_eq!(f[1][c], 0.0);
            assert_eq!(f[2][c], if j == 5 { 1.0 } else { 0.0 });
            assert_eq!(f[3][c], 0.0);
        }
    }
    let (ke, ens, circ, umax) = s.diagnostics();
    assert_eq!((ke.0, ens.0, circ.0, umax.0), (0.0, 0.0, 0.0, 0.0));
}

#[test]
fn lid_makes_vorticity() {
    let mut s = make(config(5, "fft"));
    s.apply_vorticity_bc();
    let om = &fields(&s)[0];
    for j in 0..5 {
        for i in 0..5 {
            let want = if j == 4 && i > 0 && i < 4 { -2.0 / 0.25 } else { 0.0 };
            assert_eq!(om[j * 5 + i].abs(), f64::abs(want));
            assert!(om[j * 5 + i] <= 0.0);
        }
    }
}

#[test]
fn first_solve_finds_rest() {
    let mut s = make(config(9, "fft"));
    let (it, res) = s.poisson();
    assert_eq!(it, 1);
    assert_eq!(res, F64(0.0));
    let mut s = make(config(9, "sor"));
    let (it, rel) = s.poisson();
    assert_eq!(it, 4);
    assert_eq!(rel, F64(0.0));
}

/// A step leaves the walls set, and setting them twice is setting them once.
#[test]
fn walls_are_set_once() {
    for solver in ["fft", "sor"] {
        let mut s = make(config(9, solver));
        for _ in 0..3 {
            s.step(F64(0.002));
            let after = fields(&s);
            s.apply_vorticity_bc();
            assert_eq!(fields(&s), after);
        }
        s.poisson();
        s.apply_vorticity_bc();
        let once = fields(&s);
        s.apply_vorticity_bc();
        assert_eq!(fields(&s), once);
        assert_eq!(s.uses_fft(), solver == "fft");
    }
}

/// The largest speed is that of the lid or of the fastest node, whichever is greater.
#[test]
fn largest_speed() {
    for u_lid in [0.0, 1.0, 3.0] {
        let mut cfg = config(9, "fft");
        cfg.u_lid = F64(u_lid);
        let mut s = make(cfg);
        assert_eq!(s.max_speed(), F64(u_lid));
        for _ in 0..5 {
            s.step(F64(0.002));
        }
        let fastest = s.diagnostics().3;
        assert_eq!(s.max_speed().0, f64::max(fastest.0, u_lid));
        let f = fields(&s);
        for j in 1..8 {
            for i in 1..8 {
                let (u, v) = (f[2][j * 9 + i], f[3][j * 9 + i]);
                assert!((u * u + v * v).sqrt() <= s.max_speed().0);
            }
        }
    }
}

/// Any number of sweeps may be allowed.
#[test]
fn sweeps_without_limit() {
    let mut cfg = config(9, "sor");
    cfg.poisson_max_it = usize::MAX;
    let (it, _) = make(cfg).step(F64(0.001));
    assert!(it >= 12 && it % 4 == 0);
    let mut cfg = config(9, "fft");
    cfg.poisson_max_it = usize::MAX;
    let (it, _) = make(cfg).step(F64(0.001));
    assert_eq!(it, 3);
}

#[test]
fn sweeps_are_bounded() {
    let mut cfg = config(9, "sor");
    cfg.poisson_tol = F64(0.0);
    cfg.poisson_max_it = 7;
    let mut s = make(cfg);
    let (it, _) = s.poisson();
    assert_eq!(it, 7);
    let (it, _) = s.step(F64(0.001));
    assert_eq!(it, 21);
}

/// One step on a grid with a single free node, by hand.
#[test]
fn step_on_one_node() {
    let mut cfg = config(3, "fft");
    cfg.re = F64(10.0);
    let mut s = make(cfg);
    let dt = 0.01;
    s.step(F64(dt));
    let (h, nu) = (0.5, 0.1);
    let h2: f64 = h * h;
    let rate = |w: f64| {
        // walls from the streamfunction of the free node, then diffusion alone
        let psi = w * h2 / 4.0;
        let wall = -2.0 * psi / h2;
        let lid = wall - 2.0 / h;
        nu * (3.0 * wall + lid - 4.0 * w) / h2
    };
    let w0 = 0.0;
    let w1 = w0 + dt * rate(w0);
    let w2 = 0.75 * w0 + 0.25 * (w1 + dt * rate(w1));
    let w3 = w0 / 3.0 + 2.0 / 3.0 * (w2 + dt * rate(w2));
    let f = fields(&s);
    assert!(close(f[0][4], w3, 1e-12), "{} and {w3}", f[0][4]);
    assert!(close(f[1][4], w2 * h2 / 4.0, 1e-12));
}

#[test]
fn walls_stay_closed() {
    for solver in ["fft", "sor"] {
        let mut s = make(config(9, solver));
        for _ in 0..5 {
            s.step(F64(0.01));
        }
        let f = fields(&s);
        for j in 0..9 {
            for i in 0..9 {
                if i == 0 || j == 0 || i == 8 || j == 8 {
                    assert_eq!(f[1][j * 9 + i], 0.0);
                }
            }
        }
        assert!(f[1].iter().any(|x| *x != 0.0));
    }
}

#[test]
fn solvers_agree() {
    let a = {
        let mut s = make(config(17, "fft"));
        for _ in 0..10 {
            s.step(F64(0.005));
        }
        fields(&s)
    };
    let mut cfg = config(17, "sor");
    cfg.poisson_tol = F64(1e-13);
    let b = {
        let mut s = make(cfg);
        for _ in 0..10 {
            s.step(F64(0.005));
        }
        fields(&s)
    };
    for k in 0..4 {
        for c in 0..17 * 17 {
            assert!(close(a[k][c], b[k][c], 1e-7), "{} and {}", a[k][c], b[k][c]);
        }
    }
}

/// Relaxing the nodes of a colour in place, from the last to the first, gives the same
/// bits.
#[test]
fn relaxation_in_place() {
    let n = 7;
    let mut cfg = config(n, "sor");
    cfg.re = F64(50.0);
    cfg.poisson_max_it = 5;
    cfg.poisson_tol = F64(0.0);
    let mut s = make(cfg);
    for _ in 0..3 {
        s.step(F64(0.01));
    }
    let f = fields(&s);
    let (omega, mut psi) = (f[0].clone(), f[1].clone());
    let h = s.h().0;
    let w = 2.0 / (1.0 + (PI / n as f64).sin());
    for _ in 0..5 {
        for color in 0..2 {
            for j in (1..n - 1).rev() {
                for i in (1..n - 1).rev() {
                    if (i + j + color) % 2 == 1 {
                        let c = j * n + i;
                        let around = psi[c + 1] + psi[c - 1] + psi[c + n] + psi[c - n];
                        let settled = (around + h * h * omega[c]) * 0.25;
                        psi[c] += w * (settled - psi[c]);
                    }
                }
            }
        }
    }
    let (it, _) = s.poisson();
    assert_eq!(it, 5);
    assert!(psi.iter().any(|x| *x != 0.0));
    assert_eq!(fields(&s)[1], psi);
}

#[test]
fn residual_is_reported() {
    let mut s = make(config(17, "fft"));
    let mut last = F64(1.0);
    for _ in 0..5 {
        let (it, res) = s.step(F64(0.01));
        assert_eq!(it, 3);
        last = res;
    }
    assert!(last.0 < 1e-9);
}

#[test]
fn threads_do_not_show() {
    let run = |threads: usize, solver: &str| {
        let pool = rayon::ThreadPoolBuilder::new().num_threads(threads).build().unwrap();
        pool.install(|| {
            let mut s = make(config(17, solver));
            for _ in 0..5 {
                s.step(F64(0.01));
            }
            let d = s.diagnostics();
            (s.frame_bytes(), d.0 .0.to_bits(), d.1 .0.to_bits(), d.2 .0.to_bits())
        })
    };
    for solver in ["fft", "sor"] {
        let one = run(1, solver);
        assert!(one == run(2, solver));
        assert!(one == run(5, solver));
    }
}

#[test]
fn diagnostics_of_a_flow() {
    let n = 9;
    let mut s = make(config(n, "fft"));
    for _ in 0..8 {
        s.step(F64(0.02));
    }
    let f = fields(&s);
    let h: f64 = 1.0 / 8.0;
    let (mut ke, mut ens, mut circ, mut umax) = (0.0, 0.0, 0.0, 0.0f64);
    for j in 1..n - 1 {
        for i in 1..n - 1 {
            let c = j * n + i;
            let (u, v, w) = (f[2][c], f[3][c], f[0][c]);
            ke += 0.5 * (u * u + v * v) * h * h;
            ens += 0.5 * w * w * h * h;
            circ += w * h * h;
            umax = umax.max((u * u + v * v).sqrt());
        }
    }
    let d = s.diagnostics();
    assert!(close(d.0 .0, ke, 1e-14) && ke > 0.0);
    assert!(close(d.1 .0, ens, 1e-12) && ens > 0.0);
    assert!(close(d.2 .0, circ, 1e-12));
    assert!(close(d.3 .0, umax, 1e-14));
    assert!(s.max_speed().0 >= 1.0 && s.max_speed().0 >= umax);
}

#[test]
fn velocities_have_no_divergence() {
    let n = 9;
    let mut s = make(config(n, "fft"));
    for _ in 0..8 {
        s.step(F64(0.02));
    }
    let f = fields(&s);
    for j in 2..n - 2 {
        for i in 2..n - 2 {
            let c = j * n + i;
            let div = f[2][c + 1] - f[2][c - 1] + f[3][c + n] - f[3][c - n];
            assert!(div.abs() < 1e-14);
        }
    }
}

/// What a short step does to the vorticity, less diffusion, is advection: weighted with
/// the streamfunction it adds up to nothing.
#[test]
fn advection_keeps_energy() {
    let n = 17;
    let mut cfg = config(n, "fft");
    cfg.re = F64(100.0);
    let mut s = make(cfg);
    for _ in 0..60 {
        s.step(F64(0.005));
    }
    s.poisson();
    s.apply_vorticity_bc();
    let before = fields(&s);
    let dt = 1e-6;
    s.step(F64(dt));
    let after = fields(&s);
    let (h, nu) = (s.h().0, s.nu().0);
    let (mut sum, mut size) = (0.0, 0.0);
    for j in 1..n - 1 {
        for i in 1..n - 1 {
            let c = j * n + i;
            let rate = (after[0][c] - before[0][c]) / dt;
            let advection = rate - nu * laplacian(&before[0], n, h, i, j);
            sum += before[1][c] * advection;
            size += (before[1][c] * advection).abs();
        }
    }
    assert!(size > 1e-3, "{size}");
    assert!(sum.abs() < 1e-3 * size, "{sum} of {size}");
}

#[test]
fn still_lid_moves_nothing() {
    for solver in ["fft", "sor"] {
        let mut cfg = config(9, solver);
        cfg.u_lid = F64(0.0);
        cfg.re = F64(1.0);
        let mut s = make(cfg);
        for _ in 0..3 {
            s.step(F64(0.1));
        }
        for block in fields(&s) {
            assert!(block.iter().all(|x| *x == 0.0));
        }
    }
}

// --- course of a run -------------------------------------------------------

#[test]
fn diffusion_limits_the_step() {
    assert_eq!(visc_dt_limit(F64(0.5), F64(0.25), F64(f64::INFINITY)), F64(0.25));
    assert_eq!(visc_dt_limit(F64(0.5), F64(0.0), F64(f64::INFINITY)), F64(f64::INFINITY));
    assert_eq!(cfl_of(F64(2.0), F64(0.25), F64(0.5)), F64(1.0));
}

#[test]
fn steps_land_on_frames_and_on_the_end() {
    let mut clock: Clock<F64> = Clock::start(F64(0.25));
    assert_eq!((clock.t, clock.step, clock.frame, clock.next_out), (F64(0.0), 0, 1, F64(0.25)));
    let unlimited = F64(f64::INFINITY);
    // a free step
    let dt = clock.next_dt(F64(1.0), F64(0.5), F64(0.25), F64(1.0), unlimited);
    assert_eq!(dt, F64(0.125));
    assert_eq!(clock.advance(dt, F64(0.25)), None);
    // a step held by diffusion
    let dt = clock.next_dt(F64(1.0), F64(0.5), F64(0.25), F64(1.0), F64(0.0625));
    assert_eq!(dt, F64(0.0625));
    // a step cut by the next frame
    let dt = clock.next_dt(F64(1.0), F64(4.0), F64(0.25), F64(1.0), unlimited);
    assert_eq!(dt, F64(0.125));
    assert_eq!(clock.advance(dt, F64(0.25)), Some(1));
    assert_eq!((clock.frame, clock.step, clock.next_out), (2, 2, F64(0.5)));
    // a step cut by the end
    let dt = clock.next_dt(F64(0.3125), F64(4.0), F64(0.25), F64(1.0), unlimited);
    assert_eq!(dt, F64(0.0625));
    assert!(clock.running(F64(0.3125)));
    assert_eq!(clock.advance(dt, F64(0.25)), None);
    assert!(!clock.running(F64(0.3125)));
}

#[test]
fn frame_is_due_within_the_slack() {
    let mut clock: Clock<F64> = Clock::start(F64(1.0));
    assert_eq!(clock.advance(F64(1.0 - 1e-9), F64(1.0)), None);
    let mut clock: Clock<F64> = Clock::start(F64(1.0));
    assert_eq!(clock.advance(F64(1.0 - 1e-13), F64(1.0)), Some(1));
}

// --- command line ----------------------------------------------------------

fn parse(words: &[&str]) -> Config<F64> {
    let mut args = vec!["cfd_solver".to_string()];
    for w in words {
        args.push(w.to_string());
    }
    Config::from_args(&args)
}

#[test]
fn defaults_of_the_cavity() {
    let c = parse(&[]);
    assert_eq!(c.scenario, "cavity");
    assert_eq!(c.n, 129);
    assert_eq!(c.re, F64(5000.0));
    assert_eq!(c.u_lid, F64(1.0));
    assert_eq!(c.l, F64(1.0));
    assert_eq!(c.t_end, F64(30.0));
    assert_eq!(c.cfl, F64(0.4));
    assert_eq!(c.out_every, F64(0.25));
    assert_eq!(c.poisson_tol, F64(1e-5));
    assert_eq!(c.poisson_max_it, 4000);
    assert_eq!(c.threads, 0);
    assert_eq!(c.solver, "auto");
    assert_eq!(c.view, "save");
    assert_eq!(c.outdir, "output");
    let d: Config<F64> = Config::default();
    assert_eq!((d.n, d.re, d.cfl), (c.n, c.re, c.cfl));
    assert_eq!((d.scenario, d.solver, d.view, d.outdir), (c.scenario, c.solver, c.view, c.outdir));
}

#[test]
fn defaults_of_the_cylinder() {
    let c = parse(&["--scenario", "cylinder"]);
    assert_eq!(c.scenario, "cylinder");
    assert_eq!(c.n, 65);
    assert_eq!(c.re, F64(150.0));
    assert_eq!(c.t_end, F64(60.0));
    assert_eq!(c.out_every, F64(0.5));
    assert_eq!(c.cfl, F64(0.4));
    let c = parse(&["--scenario", "cylinder", "--n", "97", "--re", "200", "--tend", "100"]);
    assert_eq!(c.n, 97);
    assert_eq!(c.re, F64(200.0));
    assert_eq!(c.t_end, F64(100.0));
    assert_eq!(c.out_every, F64(0.5));
}

#[test]
fn options_of_the_command_line() {
    let c = parse(&[
        "--n", "257", "--re", "10000", "--tend", "40", "--cfl", "0.4", "--out-every", "0.125",
        "--threads", "4", "--solver", "sor", "--view", "none", "--outdir", "there",
    ]);
    assert_eq!(c.n, 257);
    assert_eq!(c.re, F64(10000.0));
    assert_eq!(c.t_end, F64(40.0));
    assert_eq!(c.out_every, F64(0.125));
    assert_eq!(c.threads, 4);
    assert_eq!(c.solver, "sor");
    assert_eq!(c.view, "none");
    assert_eq!(c.outdir, "there");
}

#[test]
fn unreadable_values_change_nothing() {
    let c = parse(&["--n", "many", "--re", "low", "--threads", "-1"]);
    assert_eq!(c.n, 129);
    assert_eq!(c.re, F64(5000.0));
    assert_eq!(c.threads, 0);
    // a flag that is given, but not readable, does not take the scenario's default
    let c = parse(&["--scenario", "cylinder", "--n", "many"]);
    assert_eq!(c.n, 129);
    // a flag without a value
    let c = parse(&["--n", "33", "--re"]);
    assert_eq!(c.n, 33);
    assert_eq!(c.re, F64(5000.0));
    let c = parse(&["--scenario", "cylinder", "--re"]);
    assert_eq!(c.re, F64(5000.0));
    // flags and values alternate
    let c = parse(&["--unknown", "--n", "33", "--n", "65"]);
    assert_eq!(c.n, 129);
    // the last readable value stands
    let c = parse(&["--n", "33", "--n", "65", "--n", "x"]);
    assert_eq!(c.n, 65);
}

// --- obstacles -------------------------------------------------------------

#[test]
fn airfoil_codes() {
    let code = |s: &str| -> (F64, F64, F64) { parse_naca(&s.to_string()) };
    assert_eq!(code("2412"), (F64(0.02), F64(0.4), F64(0.12)));
    assert_eq!(code("0012"), (F64(0.0), F64(0.0), F64(0.12)));
    assert_eq!(code("6599"), (F64(0.06), F64(0.5), F64(0.99)));
    for bad in ["", "241", "24123", "24a2", "\u{662}412"] {
        assert_eq!(code(bad), (F64(0.0), F64(0.0), F64(0.12)));
    }
}

#[test]
fn airfoil_thickness_and_camber() {
    assert_eq!(naca_thickness(F64(0.0), F64(0.12)), F64(0.0));
    assert!(naca_thickness(F64(1.0), F64(0.12)).0.abs() < 1e-15);
    assert!(close(naca_thickness(F64(0.3), F64(0.12)).0, 0.06, 1e-4));
    assert_eq!(naca_thickness(F64(-1.0), F64(0.12)), F64(0.0));
    assert_eq!(naca_thickness(F64(2.0), F64(0.12)), naca_thickness(F64(1.0), F64(0.12)));
    assert_eq!(naca_camber(F64(0.3), F64(0.0), F64(0.4)), F64(0.0));
    assert_eq!(naca_camber(F64(0.3), F64(0.02), F64(0.0)), F64(0.0));
    assert!(close(naca_camber(F64(0.4), F64(0.02), F64(0.4)).0, 0.02, 1e-15));
    assert!(close(naca_camber(F64(0.2), F64(0.02), F64(0.4)).0, 0.015, 1e-15));
    assert!(close(naca_camber(F64(1.0), F64(0.02), F64(0.4)).0, 0.0, 1e-15));
}

fn obstacle(object: &str, obj_y: Option<F64>, degrees: f64) -> Obstacle<F64> {
    Obstacle {
        object: object.to_string(),
        obj_x: F64(1.0),
        obj_y,
        naca: "2412".to_string(),
        aoa: F64(degrees),
        chord: F64(0.5),
        diam: F64(0.25),
    }
}

#[test]
fn cylinders() {
    let c = Object::from_config(&obstacle("cylinder", None, 0.0), F64(1.0), F64(0.125));
    assert!(matches!(
        c,
        Object::Cylinder { xc: F64(x), yc: F64(y), r: F64(r) }
            if x == 1.0 && y == 0.5625 && r == 0.125
    ));
    assert_eq!(c.char_length(), F64(0.25));
    assert_eq!(c.y_ref(), F64(0.5625));
    assert_eq!(c.wake_anchor(), (F64(1.125), F64(0.5625), F64(0.25)));
    assert!(c.contains(F64(1.0), F64(0.5625)));
    assert!(c.contains(F64(1.125), F64(0.5625)));
    assert!(!c.contains(F64(1.126), F64(0.5625)));
    assert_eq!(c.describe(), "cylinder (D = 0.250)");
    let c = Object::from_config(&obstacle("anything", Some(F64(0.75)), 0.0), F64(1.0), F64(0.1));
    assert_eq!(c.y_ref(), F64(0.75));
}

#[test]
fn airfoils() {
    for name in ["naca", "airfoil", "wing"] {
        let w = Object::from_config(&obstacle(name, Some(F64(0.5)), 0.0), F64(1.0), F64(0.1));
        assert_eq!(w.char_length(), F64(0.5));
        assert_eq!(w.y_ref(), F64(0.5));
        assert_eq!(w.wake_anchor(), (F64(1.5), F64(0.5), F64(0.5)));
        assert!(w.contains(F64(1.0), F64(0.5)));
        assert!(w.contains(F64(1.2), F64(0.5)));
        assert!(w.contains(F64(1.2), F64(0.53)));
        assert!(!w.contains(F64(1.2), F64(0.6)));
        assert!(!w.contains(F64(1.2), F64(0.47)));
        assert!(!w.contains(F64(0.99), F64(0.5)));
        assert!(!w.contains(F64(1.51), F64(0.5)));
        assert_eq!(w.describe(), "NACA 2412 airfoil (chord = 0.500, AoA = 0.0 deg)");
    }
    // nose up: the trailing edge sinks
    let w = Object::from_config(&obstacle("wing", Some(F64(0.5)), 30.0), F64(1.0), F64(0.1));
    let (x, y, len) = w.wake_anchor();
    assert!(close(x.0, 1.0 + 0.5 * 0.75f64.sqrt(), 1e-12));
    assert!(close(y.0, 0.25, 1e-12));
    assert_eq!(len, F64(0.5));
    assert_eq!(w.describe(), "NACA 2412 airfoil (chord = 0.500, AoA = 30.0 deg)");
    assert!(w.contains(F64(1.0 + 0.5 * 0.25 * 0.75f64.sqrt()), F64(0.5 - 0.25 * 0.25)));
}

/// The code comes back, leading zeros and all.
#[test]
fn description_begins_with_the_code() {
    for code in 0..10000 {
        let text = format!("{code:04}");
        let mut o = obstacle("naca", None, -5.0);
        o.naca = text.clone();
        let wing = Object::from_config(&o, F64(1.0), F64(0.1));
        let want = format!("NACA {text} airfoil (chord = 0.500, AoA = -5.0 deg)");
        assert_eq!(wing.describe(), want);
    }
}

// --- channel ---------------------------------------------------------------

fn cylinder_config(n: usize) -> Config<F64> {
    let mut cfg = parse(&["--scenario", "cylinder"]);
    cfg.n = n;
    cfg
}

fn channel(cfg: Config<F64>, diam: f64) -> Channel<F64> {
    let h = F64(1.0 / (cfg.n - 1) as f64);
    let mut o: Obstacle<F64> = Obstacle::default();
    o.diam = F64(diam);
    let body = Object::from_config(&o, cfg.l, h);
    Channel::new(cfg, &body)
}

fn channel_fields(c: &Channel<F64>) -> Vec<Vec<f64>> {
    let bytes = c.frame_bytes();
    assert_eq!(bytes.len(), 32 * c.nx() * c.ny());
    let all: Vec<f64> = bytes
        .chunks(8)
        .map(|b| f64::from_le_bytes([b[0], b[1], b[2], b[3], b[4], b[5], b[6], b[7]]))
        .collect();
    all.chunks(c.nx() * c.ny()).map(|b| b.to_vec()).collect()
}

#[test]
fn channel_of_the_defaults() {
    let cfg = parse(&["--scenario", "cylinder"]);
    let c = channel(cfg, 0.2);
    assert_eq!((c.nx(), c.ny()), (257, 65));
    assert!(!c.uses_fft());
    assert_eq!(c.solver_name(), "SOR (iterative)");
    assert_eq!(c.h(), F64(1.0 / 64.0));
    assert!(close(c.nu().0, 0.2 / 150.0, 1e-18));
    assert_eq!(c.cfg().scenario, "cylinder");
    assert_eq!(c.max_speed().0, 1.0);
    // the body: a cylinder of diameter 0.2 around (1, 0.5 + half a cell)
    for j in 0..65 {
        for i in 0..257 {
            let (x, y) = (i as f64 / 64.0 - 1.0, j as f64 / 64.0 - 0.5 - 0.5 / 64.0);
            assert_eq!(c.solid(i, j), x * x + y * y <= 0.1 * 0.1, "({i}, {j})");
        }
    }
    let f = channel_fields(&c);
    assert_eq!(f[1][64 * 257 + 5], 1.0);
    assert_eq!(f[1][32 * 257 + 5], 0.5);
    // the seed lies around the wake anchor (1.1, ..) and nowhere else
    assert!(f[0][33 * 257 + 72] > 0.0);
    assert_eq!(f[0][33 * 257 + 200], 0.0);
    assert!(f[0].iter().all(|w| *w >= 0.0 && *w <= 0.1 / 0.2));
}

#[test]
fn channel_is_guided() {
    let mut c = channel(cylinder_config(17), 0.3);
    for _ in 0..5 {
        c.step(F64(0.01));
    }
    let (nx, ny) = (c.nx(), c.ny());
    let f = channel_fields(&c);
    let h = 1.0 / 16.0;
    let body = 0.5 + 0.5 * h;
    for j in 0..ny {
        assert!(close(f[1][j * nx], j as f64 * h, 1e-15));
        assert_eq!(f[2][j * nx], 1.0);
        assert_eq!(f[1][j * nx + nx - 1], f[1][j * nx + nx - 2]);
        assert_eq!(f[2][j * nx + nx - 1], f[2][j * nx + nx - 2]);
    }
    let mut solid = 0;
    for i in 0..nx {
        assert_eq!(f[1][i], 0.0);
        assert!(close(f[1][(ny - 1) * nx + i], 1.0, 1e-15));
        assert_eq!(f[0][i], 0.0);
        for j in 1..ny - 1 {
            let c0 = j * nx + i;
            if c.solid(i, j) {
                solid += 1;
                assert!(close(f[1][c0], body, 1e-15));
                assert_eq!((f[2][c0], f[3][c0]), (0.0, 0.0));
            }
        }
    }
    assert!(solid > 9);
    // the body turns the fluid: one sign above, the other below
    assert!(f[0].iter().any(|w| *w > 0.1) && f[0].iter().any(|w| *w < -0.1));
}

#[test]
fn body_does_not_slip() {
    let mut c = channel(cylinder_config(17), 0.3);
    c.poisson();
    c.apply_vorticity_bc();
    let (nx, ny) = (c.nx(), c.ny());
    let f = channel_fields(&c);
    let h = 1.0 / 16.0;
    let body = 0.5 + 0.5 * h;
    let mut exposed = 0;
    for j in 1..ny - 1 {
        for i in 1..nx - 1 {
            if c.solid(i, j) {
                let around = [(i + 1, j), (i - 1, j), (i, j + 1), (i, j - 1)];
                let open: Vec<f64> = around
                    .iter()
                    .filter(|(a, b)| !c.solid(*a, *b))
                    .map(|(a, b)| -2.0 * (f[1][b * nx + a] - body) / (h * h))
                    .collect();
                let want = if open.is_empty() {
                    0.0
                } else {
                    exposed += 1;
                    open.iter().sum::<f64>() / open.len() as f64
                };
                assert!(close(f[0][j * nx + i], want, 1e-9));
            }
        }
    }
    assert!(exposed > 4);
}

#[test]
fn free_stream_stays() {
    // an obstacle without extent between the nodes
    let mut cfg = cylinder_config(9);
    cfg.poisson_max_it = 50;
    let body = Object::Cylinder { xc: F64(-10.0), yc: F64(0.5), r: F64(0.1) };
    let mut c = Channel::new(cfg, &body);
    for _ in 0..5 {
        c.step(F64(0.02));
    }
    let f = channel_fields(&c);
    for j in 0..9 {
        for i in 0..33 {
            let k = j * 33 + i;
            assert!(close(f[0][k], 0.0, 1e-10));
            assert!(close(f[1][k], j as f64 / 8.0, 1e-12));
            assert!(close(f[2][k], 1.0, 1e-11));
            assert!(close(f[3][k], 0.0, 1e-11));
        }
    }
}

#[test]
fn channel_solves_the_equation() {
    let mut cfg = cylinder_config(17);
    cfg.poisson_tol = F64(1e-14);
    let mut c = channel(cfg, 0.3);
    let (it, rel) = c.poisson();
    assert!(it % 4 == 0 && it < 4000 && rel.0 < 1e-14);
    let (nx, ny) = (c.nx(), c.ny());
    let f = channel_fields(&c);
    let h = 1.0 / 16.0;
    for j in 1..ny - 1 {
        for i in 1..nx - 1 {
            if !c.solid(i, j) {
                let k = j * nx + i;
                let around = f[1][k + 1] + f[1][k - 1] + f[1][k + nx] + f[1][k - nx];
                let r = (around - 4.0 * f[1][k]) / (h * h) + f[0][k];
                assert!(r.abs() < 1e-8, "({i}, {j}): {r}");
            }
        }
    }
}

#[test]
fn channel_threads_do_not_show() {
    let run = |threads: usize| {
        let pool = rayon::ThreadPoolBuilder::new().num_threads(threads).build().unwrap();
        pool.install(|| {
            let mut c = channel(cylinder_config(17), 0.3);
            for _ in 0..3 {
                c.step(F64(0.01));
            }
            let d = c.diagnostics();
            (c.frame_bytes(), d.0 .0.to_bits(), d.1 .0.to_bits(), d.2 .0.to_bits())
        })
    };
    assert!(run(1) == run(4));
}

#[test]
fn channel_diagnostics() {
    let mut c = channel(cylinder_config(17), 0.3);
    for _ in 0..3 {
        c.step(F64(0.01));
    }
    let (nx, ny) = (c.nx(), c.ny());
    let f = channel_fields(&c);
    let h: f64 = 1.0 / 16.0;
    let (mut ke, mut ens, mut circ, mut umax) = (0.0, 0.0, 0.0, 0.0f64);
    for j in 1..ny - 1 {
        for i in 1..nx - 1 {
            if !c.solid(i, j) {
                let k = j * nx + i;
                let (u, v, w) = (f[2][k], f[3][k], f[0][k]);
                ke += 0.5 * (u * u + v * v) * h * h;
                ens += 0.5 * w * w * h * h;
                circ += w * h * h;
                umax = umax.max((u * u + v * v).sqrt());
            }
        }
    }
    let d = c.diagnostics();
    assert!(close(d.0 .0, ke, 1e-12) && ke > 1.0);
    assert!(close(d.1 .0, ens, 1e-10) && ens > 0.0);
    assert!(close(d.2 .0, circ, 1e-10));
    assert!(close(d.3 .0, umax, 1e-12) && umax > 1.0);
    assert_eq!(c.max_speed(), d.3);
}

#[test]
fn channel_walls_are_set_once() {
    let mut c = channel(cylinder_config(9), 0.3);
    for _ in 0..3 {
        c.step(F64(0.01));
        c.apply_vorticity_bc();
        let once = channel_fields(&c);
        c.apply_vorticity_bc();
        assert_eq!(channel_fields(&c), once);
    }
}

#[test]
fn channel_sweeps_are_bounded() {
    let mut cfg = cylinder_config(9);
    cfg.poisson_tol = F64(0.0);
    cfg.poisson_max_it = 6;
    let mut c = channel(cfg, 0.3);
    assert_eq!(c.poisson().0, 6);
    assert_eq!(c.step(F64(0.01)).0, 18);
}

/// A longer run behind a body: it stays bounded and the wake is not symmetric.
#[test]
fn channel_runs_on() {
    let mut cfg = cylinder_config(13);
    cfg.re = F64(60.0);
    let mut c = channel(cfg, 0.35);
    let limit = visc_dt_limit(c.h(), c.nu(), F64(f64::INFINITY));
    let mut clock: Clock<F64> = Clock::start(F64(0.5));
    while clock.step < 150 {
        let umax = c.max_speed();
        let dt = clock.next_dt(F64(60.0), F64(0.4), c.h(), umax, limit);
        c.step(dt);
        clock.advance(dt, F64(0.5));
    }
    assert!(clock.t.0 > 1.0);
    let f = channel_fields(&c);
    assert!(f.iter().flatten().all(|x| x.is_finite()));
    assert!(c.max_speed().0 < 4.0);
    let behind: f64 = (0..13).map(|j| f[3][j * 49 + 22].abs()).sum();
    assert!(behind > 1e-3, "{behind}");
}
