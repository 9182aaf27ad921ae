//! Fast direct Poisson solver via the discrete sine transform (DST-I).
//!
//! The 5-point Laplacian with homogeneous Dirichlet boundaries is diagonalised by
//! the sine basis sin(pi*k*i/(n-1)). Transforming the vorticity into that basis, the
//! Poisson equation becomes a pointwise division by the eigenvalues
//! `lambda_p + lambda_q` with `lambda_k = -(4/h^2) sin^2(pi*k/(2(n-1)))`, followed by
//! an inverse transform. One pass, no iteration and no warm start.
//!
//! The transform of length `m = n - 2` is evaluated through a radix-2 transform of
//! length `2(n-1)`, so `n - 1` must be a power of two.
use crate::fft::{levels_of, power_of_two, roots_of_unity, spectrum, Fft, Signal};
use crate::grid::{
    at, build_field, copied, filled, idx, interior, is_row, lemma_index, lemma_is_tabulated,
    tabulate,
};
use crate::scalar::{count, nil, whole, zero, Arith, Scalar};
use std::ops::Neg;
use vstd::prelude::*;

verus! {

/// What a direct solver holds: the grid size, the plan of the transform and the
/// factors that the transformed field is multiplied by.
pub struct Spectral<A> {
    pub n: int,
    pub tw: Signal<A>,
    pub levels: nat,
    pub denom: Seq<A>,
}

/// A row, continued as an odd function with zeros between the two copies:
/// `0, x1, .., xm, 0, -xm, .., -x1`.
pub open spec fn odd_extension<A: Arith>(row: Seq<A>) -> Signal<A> {
    let m = row.len() as int;
    let len = 2 * (m + 1);
    Signal {
        re: Seq::new(
            len as nat,
            |t: int|
                if 1 <= t <= m {
                    row[t - 1]
                } else if t >= m + 2 {
                    -row[len - t - 1]
                } else {
                    nil()
                },
        ),
        im: Seq::new(len as nat, |t: int| nil()),
    }
}

/// The number -1/2.
pub open spec fn minus_half<A: Arith>() -> A {
    -A::ratio(1, 2)
}

/// The discrete sine transform of a row: minus half the imaginary part of the
/// transform of its odd extension.
pub open spec fn dst1<A: Arith>(row: Seq<A>, tw: Signal<A>, levels: nat) -> Seq<A> {
    let s = spectrum(odd_extension(row), tw, 0, 1, levels);
    Seq::new(row.len(), |k: int| minus_half::<A>() * s.im[k + 1])
}

/// Row `q` of a field.
pub open spec fn row_of<A>(a: Seq<A>, m: int, q: int) -> Seq<A> {
    Seq::new(m as nat, |p: int| at(a, m, p, q))
}

/// The field with its rows and columns exchanged.
pub open spec fn transposed<A>(a: Seq<A>, m: int) -> Seq<A> {
    tabulate(m, |p: int, q: int| at(a, m, q, p))
}

/// The first `m * m` values transposed, what follows them left alone.
pub open spec fn turned_over<A>(a: Seq<A>, m: int) -> Seq<A> {
    transposed(a, m) + a.skip(m * m)
}

/// The nodes off the walls.
pub open spec fn inner<A>(field: Seq<A>, n: int) -> Seq<A> {
    tabulate(n - 2, inner_cells(field, n))
}

pub open spec fn inner_cells<A>(field: Seq<A>, n: int) -> spec_fn(int, int) -> A {
    |p: int, q: int| at(field, n, p + 1, q + 1)
}

/// `field` with the nodes off the walls replaced.
pub open spec fn with_inner<A>(field: Seq<A>, a: Seq<A>, n: int) -> Seq<A> {
    tabulate(n, with_inner_cells(field, a, n))
}

pub open spec fn with_inner_cells<A>(field: Seq<A>, a: Seq<A>, n: int) -> spec_fn(int, int) -> A {
    |i: int, j: int|
        if interior(n, i, j) {
            at(a, n - 2, i - 1, j - 1)
        } else {
            at(field, n, i, j)
        }
}

/// The value-by-value product of two fields.
pub open spec fn scaled<A: Arith>(a: Seq<A>, factors: Seq<A>, m: int) -> Seq<A> {
    tabulate(m, scaled_cells(a, factors, m))
}

pub open spec fn scaled_cells<A: Arith>(a: Seq<A>, factors: Seq<A>, m: int) -> spec_fn(
    int,
    int,
) -> A {
    |p: int, q: int| at(a, m, p, q) * at(factors, m, p, q)
}

/// The eigenvalue of the one-dimensional second difference that belongs to the
/// sine `s`.
pub open spec fn eigenvalue<A: Arith>(h: A, s: A) -> A {
    (-(whole::<A>(4) / (h * h))) * s * s
}

/// The factor that undoes the scale of two transforms each way.
pub open spec fn unscale<A: Arith>(n: int) -> A {
    (whole::<A>(2) / whole::<A>(n - 1)) * (whole::<A>(2) / whole::<A>(n - 1))
}

/// The sine of half the angle of frequency `k + 1`: of `k + 1` parts of a half turn that
/// has `2 * (n - 1)` parts.
pub open spec fn mode_sine<A: Arith>(n: int, k: int) -> A {
    (A::half_turn() * whole::<A>(k + 1) / (whole::<A>(2) * whole::<A>(n - 1))).sine()
}

/// The factors that solve the transformed equation.
pub open spec fn denominators<A: Arith>(n: int, h: A) -> Seq<A> {
    tabulate(n - 2, denominator_cells(n, h))
}

pub open spec fn denominator_cells<A: Arith>(n: int, h: A) -> spec_fn(int, int) -> A {
    |p: int, q: int|
        (-unscale::<A>(n)) / (eigenvalue(h, mode_sine(n, p)) + eigenvalue(h, mode_sine(n, q)))
}

/// The direct solver of a grid of `n * n` nodes a distance `h` apart, where `2 * (n - 1)`
/// is a power of two.
pub open spec fn direct_solver<A: Arith>(n: int, h: A) -> Spectral<A> {
    Spectral {
        n,
        tw: roots_of_unity(2 * (n - 1)),
        levels: levels_of(2 * (n - 1)),
        denom: denominators(n, h),
    }
}

impl<A: Arith> Spectral<A> {
    /// The number of nodes off the walls in a row.
    pub open spec fn m(self) -> int {
        self.n - 2
    }

    /// Every row transformed.
    pub open spec fn row_transforms(self, a: Seq<A>) -> Seq<A> {
        tabulate(self.m(), self.row_transform_cells(a))
    }

    pub open spec fn row_transform_cells(self, a: Seq<A>) -> spec_fn(int, int) -> A {
        |p: int, q: int| dst1(row_of(a, self.m(), q), self.tw, self.levels)[p]
    }

    /// The two-dimensional sine transform: rows, then columns.
    pub open spec fn dst2(self, a: Seq<A>) -> Seq<A> {
        transposed(
            self.row_transforms(transposed(self.row_transforms(a), self.m())),
            self.m(),
        )
    }

    /// The streamfunction off the walls that belongs to a vorticity off the walls.
    pub open spec fn solved_inner(self, a: Seq<A>) -> Seq<A> {
        self.dst2(scaled(self.dst2(a), self.denom, self.m()))
    }

    /// `psi` with the solution written into the nodes off the walls.
    pub open spec fn solved(self, omega: Seq<A>, psi: Seq<A>) -> Seq<A> {
        with_inner(psi, self.solved_inner(inner(omega, self.n)), self.n)
    }
}

/// Direct Poisson solver on the interior, with the streamfunction zero on the walls.
pub struct PoissonFft<T> {
    n_grid: usize,
    m: usize,
    fft: Fft<T>,
    denom: Vec<T>,
}

fn mode_sine_of<T: Scalar>(n: usize, k: usize) -> (r: T)
    requires
        n >= 2,
        k < n,
    ensures
        r == mode_sine::<T>(n as int, k as int),
{
    T::lawful();
    (T::pi() * count::<T>(k + 1) / (count::<T>(2) * count::<T>(n - 1))).sin()
}

/// One eigenvalue.
fn eigenvalue_of<T: Scalar>(h: T, s: T) -> (r: T)
    ensures
        r == eigenvalue(h, s),
{
    T::lawful();
    (count::<T>(4) / (h * h)).neg() * s * s
}

/// One factor of the transformed equation.
fn denominator<T: Scalar>(scale: T, a: T, b: T) -> (r: T)
    ensures
        r == (-scale) / (a + b),
{
    T::lawful();
    scale.neg() / (a + b)
}

fn unscale_of<T: Scalar>(n: usize) -> (r: T)
    requires
        n >= 2,
    ensures
        r == unscale::<T>(n as int),
{
    T::lawful();
    let ratio: T = count::<T>(2) / count::<T>(n - 1);
    ratio * ratio
}

/// Row `q` of the table of factors.
fn denominator_row<T: Scalar>(m: usize, scale: T, lam: &Vec<T>, q: usize) -> (row: Vec<T>)
    requires
        lam@.len() == m,
        q < m,
    ensures
        row@ == Seq::new(m as nat, |p: int| (-scale) / (lam@[p] + lam@[q as int])),
{
    let mut row: Vec<T> = Vec::with_capacity(m);
    let mut p: usize = 0;
    while p < m
        invariant
            p <= m,
            lam@.len() == m,
            q < m,
            row@.len() == p,
            forall|k: int| 0 <= k < p ==> #[trigger] row@[k] == (-scale) / (lam@[k] + lam@[q as int]),
        decreases m - p,
    {
        row.push(denominator(scale, lam[p], lam[q]));
        p = p + 1;
    }
    assert(row@ =~= Seq::new(m as nat, |p: int| (-scale) / (lam@[p] + lam@[q as int])));
    row
}

impl<T: Scalar> PoissonFft<T> {
    pub closed spec fn wf(&self) -> bool {
        &&& self.n_grid >= 2
        &&& self.n_grid * self.n_grid <= usize::MAX
        &&& self.m == self.n_grid - 2
        &&& self.fft.wf()
        &&& self.fft.len() == 2 * (self.n_grid - 1)
        &&& self.denom@.len() == self.m * self.m
    }

    pub closed spec fn spectral(&self) -> Spectral<T> {
        Spectral {
            n: self.n_grid as int,
            tw: self.fft.twiddles(),
            levels: self.fft.levels(),
            denom: self.denom@,
        }
    }

    /// Prepares the solver for a grid of `n * n` nodes a distance `h` apart.
    pub fn new(n: usize, h: T) -> (r: PoissonFft<T>)
        requires
            n >= 2,
            n * n <= usize::MAX,
            power_of_two(2 * (n - 1)),
        ensures
            r.wf(),
            r.spectral() == direct_solver(n as int, h),
    {
        proof {
            assert(2 * (n - 1) <= n * n) by (nonlinear_arith)
                requires
                    n >= 2,
            ;
            assert((n - 2) * (n - 2) <= n * n) by (nonlinear_arith)
                requires
                    n >= 2,
            ;
        }
        let m: usize = n - 2;
        let fft = Fft::new(2 * (n - 1));
        let scale: T = unscale_of(n);
        let mut lam: Vec<T> = Vec::with_capacity(m);
        let mut k: usize = 0;
        while k < m
            invariant
                k <= m,
                m == n - 2,
                lam@.len() == k,
                forall|c: int|
                    0 <= c < k ==> #[trigger] lam@[c] == eigenvalue(h, mode_sine(n as int, c)),
            decreases m - k,
        {
            lam.push(eigenvalue_of(h, mode_sine_of(n, k)));
            k = k + 1;
        }
        let f = |q: usize| -> (row: Vec<T>)
            requires
                q < m,
            ensures
                is_row(row@, m as int, q as int, denominator_cells(n as int, h)),
            {
                denominator_row(m, scale, &lam, q)
            };
        let denom = build_field(m, 1, f, Ghost(denominator_cells(n as int, h)));
        PoissonFft { n_grid: n, m, fft, denom }
    }

    /// The sine transform of row `q` of `a`.
    fn dst1_row(&self, a: &Vec<T>, q: usize) -> (row: Vec<T>)
        requires
            self.wf(),
            a@.len() == self.spectral().m() * self.spectral().m(),
            q < self.spectral().m(),
        ensures
            row@ == dst1(
                row_of(a@, self.spectral().m(), q as int),
                self.spectral().tw,
                self.spectral().levels,
            ),
    {
        let m: usize = self.m;
        T::lawful();
        proof {
            lemma_square_fits(m as int, self.n_grid as int);
        }
        let nn: usize = 2 * (m + 1);
        let mut re: Vec<T> = filled(nn, zero::<T>());
        let mut im: Vec<T> = filled(nn, zero::<T>());
        let ghost source = row_of(a@, m as int, q as int);
        let ghost ext = odd_extension(source);
        let mut j: usize = 1;
        while j <= m
            invariant
                1 <= j <= m + 1,
                nn == 2 * (m + 1),
                q < m,
                m * m <= usize::MAX,
                a@.len() == m * m,
                source == row_of(a@, m as int, q as int),
                ext == odd_extension(source),
                re@.len() == nn,
                forall|t: int|
                    0 <= t < nn ==> #[trigger] re@[t] == if t < j || t > nn - j {
                        ext.re[t]
                    } else {
                        nil()
                    },
            decreases m + 1 - j,
        {
            T::lawful();
            proof {
                lemma_index(m as int, j - 1, q as int);
            }
            let value: T = a[idx(j - 1, q, m)];
            assert(value == source[j - 1]);
            re.set(j, value);
            re.set(nn - j, value.neg());
            j = j + 1;
        }
        assert(re@ =~= ext.re);
        assert(im@ =~= ext.im);
        self.fft.transform(&mut re, &mut im);
        proof {
            self.fft.lemma_len();
            crate::fft::lemma_spectrum_len(
                ext,
                self.spectral().tw,
                0,
                1,
                self.spectral().levels,
            );
        }
        let minus: T = T::from_ratio(1, 2).neg();
        let mut row: Vec<T> = Vec::with_capacity(m);
        let mut k: usize = 0;
        while k < m
            invariant
                k <= m,
                im@.len() == 2 * (m + 1),
                minus == minus_half::<T>(),
                row@.len() == k,
                forall|c: int| 0 <= c < k ==> #[trigger] row@[c] == minus * im@[c + 1],
            decreases m - k,
        {
            T::lawful();
            row.push(minus * im[k + 1]);
            k = k + 1;
        }
        assert(row@ =~= dst1(source, self.spectral().tw, self.spectral().levels));
        row
    }

    /// In-place square transpose (to reuse the row transform for columns) of the first
    /// `m * m` values; what stands behind them stays.
    pub fn transpose(a: &mut Vec<T>, m: usize)
        requires
            old(a)@.len() >= m * m,
        ensures
            final(a)@ == turned_over(old(a)@, m as int),
    {
        let size: usize = a.len();
        let ghost before = a@;
        let mut i: usize = 0;
        while i < m
            invariant
                i <= m,
                m * m <= usize::MAX,
                a@.len() == size,
                before.len() == size,
                size >= m * m,
                forall|c: int| m * m <= c < size ==> #[trigger] a@[c] == before[c],
                forall|p: int, q: int|
                    0 <= p < m && 0 <= q < m ==> #[trigger] at(a@, m as int, p, q) == if p < i || q
                        < i {
                        at(before, m as int, q, p)
                    } else {
                        at(before, m as int, p, q)
                    },
            decreases m - i,
        {
            let mut j: usize = i + 1;
            while j < m
                invariant
                    i < m,
                    i + 1 <= j <= m,
                    m * m <= usize::MAX,
                    a@.len() == size,
                    before.len() == size,
                    size >= m * m,
                    forall|c: int| m * m <= c < size ==> #[trigger] a@[c] == before[c],
                    forall|p: int, q: int|
                        0 <= p < m && 0 <= q < m ==> #[trigger] at(a@, m as int, p, q) == if p < i
                            || q < i || (p == i && q < j) || (q == i && p < j) {
                            at(before, m as int, q, p)
                        } else {
                            at(before, m as int, p, q)
                        },
                decreases m - j,
            {
                let ghost now = a@;
                let c: usize = idx(j, i, m);
                let d: usize = idx(i, j, m);
                let (x, y): (T, T) = (a[c], a[d]);
                assert(x == at(now, m as int, j as int, i as int));
                assert(y == at(now, m as int, i as int, j as int));
                a.set(c, y);
                a.set(d, x);
                proof {
                    assert forall|p: int, q: int| 0 <= p < m && 0 <= q < m implies #[trigger] at(
                        a@,
                        m as int,
                        p,
                        q,
                    ) == if p < i || q < i || (p == i && q < j + 1) || (q == i && p < j + 1) {
                        at(before, m as int, q, p)
                    } else {
                        at(before, m as int, p, q)
                    } by {
                        lemma_index(m as int, p, q);
                        lemma_index(m as int, i as int, j as int);
                        lemma_index(m as int, j as int, i as int);
                        assert(at(now, m as int, p, q) == now[q * m + p]);
                    }
                }
                j = j + 1;
            }
            i = i + 1;
        }
        proof {
            let square = a@.take(m * m);
            assert forall|p: int, q: int| 0 <= p < m && 0 <= q < m implies #[trigger] at(
                square,
                m as int,
                p,
                q,
            ) == at(before, m as int, q, p) by {
                lemma_index(m as int, p, q);
                assert(at(square, m as int, p, q) == at(a@, m as int, p, q));
            }
            lemma_is_tabulated(square, m as int, |p: int, q: int| at(before, m as int, q, p));
            assert(a@ =~= square + before.skip(m * m));
        }
    }

    /// Every row of `a` transformed, on the thread pool.
    fn row_pass(&self, a: &Vec<T>) -> (out: Vec<T>)
        requires
            self.wf(),
            a@.len() == self.spectral().m() * self.spectral().m(),
        ensures
            out@ == self.spectral().row_transforms(a@),
    {
        let m: usize = self.m;
        proof {
            lemma_square_fits(m as int, self.n_grid as int);
        }
        let f = |q: usize| -> (row: Vec<T>)
            requires
                q < m,
                self.wf(),
                m == self.spectral().m(),
                a@.len() == m * m,
            ensures
                is_row(row@, m as int, q as int, self.spectral().row_transform_cells(a@)),
            {
                self.dst1_row(a, q)
            };
        build_field(m, 1, f, Ghost(self.spectral().row_transform_cells(a@)))
    }

    /// Forward two-dimensional transform of the interior (rows, then columns).
    pub fn dst2_forward(&self, a: &mut Vec<T>)
        requires
            self.wf(),
            old(a)@.len() == self.spectral().m() * self.spectral().m(),
        ensures
            final(a)@ == self.spectral().dst2(old(a)@),
            final(a)@.len() == old(a)@.len(),
    {
        proof {
            lemma_square_fits(self.m as int, self.n_grid as int);
        }
        let mut rows = self.row_pass(a);
        let ghost first = rows@;
        Self::transpose(&mut rows, self.m);
        assert(rows@ =~= transposed(first, self.m as int));
        let mut columns = self.row_pass(&rows);
        let ghost second = columns@;
        Self::transpose(&mut columns, self.m);
        assert(columns@ =~= transposed(second, self.m as int));
        *a = columns;
    }

    fn inner_row(&self, field: &Vec<T>, q: usize) -> (row: Vec<T>)
        requires
            self.wf(),
            field@.len() >= self.spectral().n * self.spectral().n,
            q < self.spectral().m(),
        ensures
            is_row(
                row@,
                self.spectral().m(),
                q as int,
                inner_cells(field@, self.spectral().n),
            ),
    {
        let n: usize = self.n_grid;
        let m: usize = self.m;
        let mut row: Vec<T> = Vec::with_capacity(m);
        let mut p: usize = 0;
        while p < m
            invariant
                p <= m,
                q < m,
                m == n - 2,
                n * n <= usize::MAX,
                field@.len() >= n * n,
                row@.len() == p,
                forall|k: int|
                    0 <= k < p ==> #[trigger] row@[k] == at(field@, n as int, k + 1, q + 1),
            decreases m - p,
        {
            row.push(field[idx(p + 1, q + 1, n)]);
            p = p + 1;
        }
        row
    }

    fn scaled_row(&self, a: &Vec<T>, q: usize) -> (row: Vec<T>)
        requires
            self.wf(),
            a@.len() == self.spectral().m() * self.spectral().m(),
            q < self.spectral().m(),
        ensures
            is_row(
                row@,
                self.spectral().m(),
                q as int,
                scaled_cells(a@, self.spectral().denom, self.spectral().m()),
            ),
    {
        let m: usize = self.m;
        proof {
            lemma_square_fits(m as int, self.n_grid as int);
        }
        let mut row: Vec<T> = Vec::with_capacity(m);
        let mut p: usize = 0;
        while p < m
            invariant
                p <= m,
                q < m,
                m * m <= usize::MAX,
                a@.len() == m * m,
                self.denom@.len() == m * m,
                row@.len() == p,
                forall|k: int|
                    0 <= k < p ==> #[trigger] row@[k] == at(a@, m as int, k, q as int) * at(
                        self.denom@,
                        m as int,
                        k,
                        q as int,
                    ),
            decreases m - p,
        {
            T::lawful();
            let c: usize = idx(p, q, m);
            row.push(a[c] * self.denom[c]);
            p = p + 1;
        }
        row
    }

    fn outer_row(&self, field: &Vec<T>, a: &Vec<T>, j: usize) -> (row: Vec<T>)
        requires
            self.wf(),
            field@.len() >= self.spectral().n * self.spectral().n,
            a@.len() == self.spectral().m() * self.spectral().m(),
            j < self.spectral().n,
        ensures
            is_row(
                row@,
                self.spectral().n,
                j as int,
                with_inner_cells(field@, a@, self.spectral().n),
            ),
    {
        let n: usize = self.n_grid;
        let m: usize = self.m;
        proof {
            lemma_square_fits(m as int, n as int);
        }
        let mut row: Vec<T> = Vec::with_capacity(n);
        let mut i: usize = 0;
        while i < n
            invariant
                i <= n,
                j < n,
                m == n - 2,
                n * n <= usize::MAX,
                m * m <= usize::MAX,
                field@.len() >= n * n,
                a@.len() == m * m,
                row@.len() == i,
                forall|k: int|
                    0 <= k < i ==> #[trigger] row@[k] == with_inner_cells(field@, a@, n as int)(
                        k,
                        j as int,
                    ),
            decreases n - i,
        {
            if 1 <= i && i < n - 1 && 1 <= j && j < n - 1 {
                row.push(a[idx(i - 1, j - 1, m)]);
            } else {
                row.push(field[idx(i, j, n)]);
            }
            i = i + 1;
        }
        row
    }

    /// Solves the Poisson equation. Reads the interior of `omega_full`, writes the
    /// interior of `psi_full`; wall values are left untouched, and so is what stands behind
    /// the `n * n` values of a field.
    pub fn solve(&self, omega_full: &Vec<T>, psi_full: &mut Vec<T>)
        requires
            self.wf(),
            omega_full@.len() >= self.spectral().n * self.spectral().n,
            old(psi_full)@.len() >= self.spectral().n * self.spectral().n,
        ensures
            final(psi_full)@ == self.spectral().solved(omega_full@, old(psi_full)@) + old(
                psi_full,
            )@.skip(self.spectral().n * self.spectral().n),
    {
        let n: usize = self.n_grid;
        let m: usize = self.m;
        proof {
            lemma_square_fits(m as int, n as int);
        }
        let read = |q: usize| -> (row: Vec<T>)
            requires
                q < m,
                self.wf(),
                m == self.spectral().m(),
                n == self.spectral().n,
                omega_full@.len() >= n * n,
            ensures
                is_row(row@, m as int, q as int, inner_cells(omega_full@, n as int)),
            {
                self.inner_row(omega_full, q)
            };
        let mut b = build_field(m, 1, read, Ghost(inner_cells(omega_full@, n as int)));
        self.dst2_forward(&mut b);
        let b = b;
        let scale = |q: usize| -> (row: Vec<T>)
            requires
                q < m,
                self.wf(),
                m == self.spectral().m(),
                b@.len() == m * m,
            ensures
                is_row(
                    row@,
                    m as int,
                    q as int,
                    scaled_cells(b@, self.spectral().denom, m as int),
                ),
            {
                self.scaled_row(&b, q)
            };
        let mut d = build_field(
            m,
            1,
            scale,
            Ghost(scaled_cells(b@, self.spectral().denom, m as int)),
        );
        self.dst2_forward(&mut d);
        let d = d;
        let walls = copied(psi_full);
        let write = |j: usize| -> (row: Vec<T>)
            requires
                j < n,
                self.wf(),
                m == self.spectral().m(),
                n == self.spectral().n,
                walls@.len() >= n * n,
                d@.len() == m * m,
            ensures
                is_row(row@, n as int, j as int, with_inner_cells(walls@, d@, n as int)),
            {
                self.outer_row(&walls, &d, j)
            };
        let mut out = build_field(n, 1, write, Ghost(with_inner_cells(walls@, d@, n as int)));
        let ghost field = out@;
        let mut k: usize = n * n;
        assert(out@ =~= field + walls@.subrange(n * n, n * n));
        while k < walls.len()
            invariant
                n * n <= k <= walls@.len(),
                out@ == field + walls@.subrange(n * n, k as int),
            decreases walls@.len() - k,
        {
            out.push(walls[k]);
            k = k + 1;
            assert(out@ =~= field + walls@.subrange(n * n, k as int));
        }
        assert(walls@.subrange(n * n, k as int) =~= walls@.skip(n * n));
        *psi_full = out;
    }
}

proof fn lemma_square_fits(m: int, n: int)
    requires
        m == n - 2,
        n >= 2,
        n * n <= usize::MAX,
    ensures
        m * m <= usize::MAX,
        0 <= m * m,
        2 * (m + 1) <= usize::MAX,
{
    assert(m * m <= n * n && 0 <= m * m && 2 * (m + 1) <= n * n) by (nonlinear_arith)
        requires
            m == n - 2,
            n >= 2,
    ;
}

} // verus!
