//! The direct solver solves the Poisson equation exactly.
use crate::fft::power_of_two;
use crate::grid::{at, interior, lemma_node, lemma_tabulate};
use crate::laws::algebra::{lemma_associate, lemma_commute, lemma_times_minus, lemma_times_plus};
use crate::laws::circle::{
    angle, circle_of, lemma_circle, lemma_half_turns, lemma_sine_neighbours, lemma_unit, Circle,
};
use crate::laws::exact::{lemma_nil, lemma_whole, trigonometry};
use crate::laws::fourier::{lemma_roots, twiddles_of};
use crate::laws::sine::{
    law_plane_transform_twice, law_row_transform_is_sine_transform, lemma_transform_linear,
    lemma_transform_same, transform, transform2,
};
use crate::laws::sums::{lemma_sigma_linear, lemma_sigma_zero};
use crate::model::{closed_walls, laplacian, neighbours, peak, row_residual, Flow, Model};
use crate::poisson::{
    denominator_cells, denominators, direct_solver, eigenvalue, inner, inner_cells, mode_sine,
    row_of, scaled, scaled_cells, transposed, unscale, with_inner_cells, Spectral,
};
use vstd::arithmetic::power2::pow2;
use vstd::prelude::*;

verus! {

/// Twice the square of the sine of half an angle is one minus the cosine of the angle.
pub open spec fn half_angle(n: int, o: Circle, k: int) -> bool {
    2real * (mode_sine::<real>(n, k) * mode_sine::<real>(n, k)) == 1real - o.cos(k + 1)
}

/// What the set-up of a direct solver makes for a grid of `n * n` nodes a distance `h`
/// apart, with the sine and the cosine of the real numbers.
pub open spec fn is_solver_of(s: Spectral<real>, n: int, h: real) -> bool {
    &&& n >= 3
    &&& h != 0real
    &&& trigonometry().valid()
    &&& power_of_two(2 * (n - 1))
    &&& s == direct_solver(n, h)
}

/// The same, over the parts of a circle.
spec fn fits(s: Spectral<real>, o: Circle, n: int, h: real) -> bool {
    &&& n >= 3
    &&& h != 0real
    &&& s.n == n
    &&& o.parts(n - 1)
    &&& twiddles_of(s.tw, o, n - 1)
    &&& pow2(s.levels) == 2 * (n - 1)
    &&& forall|k: int| 0 <= k < n - 2 ==> #[trigger] half_angle(n, o, k)
    &&& s.denom == denominators(n, h)
}

/// The cosines and sines of a solver are those of the parts of a circle.
proof fn lemma_fits(s: Spectral<real>, n: int, h: real)
    requires
        is_solver_of(s, n, h),
    ensures
        fits(s, circle_of(n - 1), n, h),
{
    let half = n - 1;
    let o = circle_of(half);
    let t = trigonometry();
    lemma_circle(half);
    lemma_roots(half);
    lemma_whole(2);
    lemma_whole(half);
    let hr = half as real;
    assert forall|k: int| 0 <= k < n - 2 implies #[trigger] half_angle(n, o, k) by {
        lemma_whole(k + 1);
        let a = t.pi * ((k + 1) as real) / (2real * hr);
        let (pi, kr, x) = (t.pi, (k + 1) as real, angle(half, k + 1));
        assert(a + a == x) by (nonlinear_arith)
            requires
                a == pi * kr / (2real * hr),
                x == pi * kr / hr,
                hr >= 1real,
        ;
        assert(t.adds(a, a));
        assert(t.adds(a, -a));
        assert(t.mirrors(a));
        assert(a + -a == 0real);
        let (c, sn) = ((t.c)(a), (t.s)(a));
        assert(sn * -sn == -(sn * sn)) by (nonlinear_arith);
    }
}

/// The transform of a field is its two-dimensional sine transform.
pub proof fn law_field_transform_is_plane_transform(
    s: Spectral<real>,
    o: Circle,
    a: Seq<real>,
    p: int,
    q: int,
)
    requires
        s.n >= 3,
        o.parts(s.n - 1),
        twiddles_of(s.tw, o, s.n - 1),
        pow2(s.levels) == 2 * (s.n - 1),
        0 <= p < s.n - 2,
        0 <= q < s.n - 2,
    ensures
        at(s.dst2(a), s.m(), p, q) == transform2(
            |k: int, l: int| at(a, s.m(), k - 1, l - 1),
            o,
            s.n - 1,
            p + 1,
            q + 1,
        ),
{
    let m = s.m();
    let half = s.n - 1;
    let b = |k: int, l: int| at(a, m, k - 1, l - 1);
    let z = s.row_transforms(a);
    let y = transposed(z, m);
    let x = s.row_transforms(y);
    lemma_tabulate(m, |i: int, j: int| at(x, m, j, i), p, q);
    lemma_tabulate(m, s.row_transform_cells(y), q, p);
    let row = row_of(y, m, p);
    law_row_transform_is_sine_transform(row, s.tw, o, s.levels, q);
    let f = |t: int| row[t - 1];
    let g = |l: int| transform(|k: int| b(k, l), o, half, p + 1);
    assert forall|t: int| 1 <= t < half implies #[trigger] f(t) == g(t) by {
        assert(row[t - 1] == at(y, m, t - 1, p));
        lemma_tabulate(m, |i: int, j: int| at(z, m, j, i), t - 1, p);
        lemma_tabulate(m, s.row_transform_cells(a), p, t - 1);
        let line = row_of(a, m, t - 1);
        law_row_transform_is_sine_transform(line, s.tw, o, s.levels, p);
        let u = |k: int| line[k - 1];
        let v = |k: int| b(k, t);
        assert forall|k: int| 1 <= k < half implies #[trigger] u(k) == v(k) by {}
        lemma_transform_same(u, v, o, half, p + 1);
    }
    lemma_transform_same(f, g, o, half, q + 1);
}

/// The transform of a one-dimensional second difference.
proof fn lemma_neighbours_along(
    f: spec_fn(int) -> real,
    g: spec_fn(int) -> real,
    o: Circle,
    half: int,
    i: int,
)
    requires
        o.parts(half),
        forall|k: int| 1 <= k < half ==> #[trigger] g(k) == 2real * o.cos(k) * f(k),
    ensures
        transform(f, o, half, i + 1) + transform(f, o, half, i - 1) == transform(g, o, half, i),
{
    let up = |k: int| f(k) * o.sin((i + 1) * k);
    let down = |k: int| f(k) * o.sin((i - 1) * k);
    let mid = |k: int| g(k) * o.sin(i * k);
    assert forall|k: int| 1 <= k < half implies #[trigger] mid(k) == 1real * up(k) + 1real * down(k)
        by {
        assert((i + 1) * k == i * k + k) by (nonlinear_arith);
        assert((i - 1) * k == i * k - k) by (nonlinear_arith);
        lemma_sine_neighbours(o, half, i * k, k);
        assert(g(k) == 2real * o.cos(k) * f(k));
        let (w, v, s) = (2real * o.cos(k), f(k), o.sin(i * k));
        lemma_commute(w, v);
        lemma_associate(v, w, s);
        lemma_times_plus(v, o.sin(i * k + k), o.sin(i * k - k));
    }
    lemma_sigma_linear(mid, 1real, up, 1real, down, 1, half);
}

/// The transform of the sum of the four neighbours.
proof fn lemma_neighbours_plane(
    b: spec_fn(int, int) -> real,
    o: Circle,
    half: int,
    i: int,
    j: int,
)
    requires
        o.parts(half),
    ensures
        transform2(b, o, half, i + 1, j) + transform2(b, o, half, i - 1, j) + transform2(
            b,
            o,
            half,
            i,
            j + 1,
        ) + transform2(b, o, half, i, j - 1) - 4real * transform2(b, o, half, i, j) == transform2(
            |k: int, l: int| (2real * o.cos(k) + 2real * o.cos(l) - 4real) * b(k, l),
            o,
            half,
            i,
            j,
        ),
{
    let all = |k: int, l: int| (2real * o.cos(k) + 2real * o.cos(l) - 4real) * b(k, l);
    let at_i = |l: int| transform(|k: int| b(k, l), o, half, i);
    let east = |l: int| transform(|k: int| b(k, l), o, half, i + 1);
    let west = |l: int| transform(|k: int| b(k, l), o, half, i - 1);
    let along = |l: int| transform(|k: int| 2real * o.cos(k) * b(k, l), o, half, i);
    let across = |l: int| 2real * o.cos(l) * at_i(l);
    let whole = |l: int| transform(|k: int| all(k, l), o, half, i);
    let sides = |l: int| 1real * along(l) + 1real * across(l);
    assert forall|l: int| 1 <= l < half implies #[trigger] along(l) == 1real * east(l) + 1real
        * west(l) by {
        let f = |k: int| b(k, l);
        let g = |k: int| 2real * o.cos(k) * b(k, l);
        lemma_neighbours_along(f, g, o, half, i);
    }
    lemma_transform_linear(along, 1real, east, 1real, west, o, half, j);
    lemma_neighbours_along(at_i, across, o, half, j);
    assert forall|l: int| 1 <= l < half implies #[trigger] whole(l) == 1real * sides(l) + -4real
        * at_i(l) by {
        let d = 2real * o.cos(l) - 4real;
        let f = |k: int| all(k, l);
        let g = |k: int| 2real * o.cos(k) * b(k, l);
        let h = |k: int| b(k, l);
        assert forall|k: int| 1 <= k < half implies #[trigger] f(k) == 1real * g(k) + d * h(k) by {
            let (c, v) = (2real * o.cos(k), b(k, l));
            assert(2real * o.cos(k) + 2real * o.cos(l) - 4real == c + d);
            lemma_commute(c + d, v);
            lemma_times_plus(v, c, d);
            lemma_commute(v, c);
            lemma_commute(v, d);
        }
        lemma_transform_linear(f, 1real, g, d, h, o, half, i);
        let (c, v) = (2real * o.cos(l), at_i(l));
        lemma_commute(c - 4real, v);
        lemma_times_minus(v, c, 4real);
        lemma_commute(v, c);
    }
    assert forall|l: int| 1 <= l < half implies #[trigger] sides(l) == 1real * along(l) + 1real
        * across(l) by {}
    lemma_transform_linear(sides, 1real, along, 1real, across, o, half, j);
    lemma_transform_linear(whole, 1real, sides, -4real, at_i, o, half, j);
}

/// A transform is zero on the walls.
proof fn lemma_transform_at_wall(f: spec_fn(int) -> real, o: Circle, half: int, i: int)
    requires
        o.parts(half),
        i == 0 || i == half,
    ensures
        transform(f, o, half, i) == 0real,
{
    let g = |k: int| f(k) * o.sin(i * k);
    assert forall|k: int| 1 <= k < half implies #[trigger] g(k) == 0real by {
        if i == 0 {
            assert(0 * k == 0) by (nonlinear_arith);
        } else {
            lemma_half_turns(o, half, k);
        }
        let v = f(k);
        assert(v * 0real == 0real) by (nonlinear_arith);
    }
    lemma_sigma_zero(g, 1, half);
}

proof fn lemma_plane_at_wall(b: spec_fn(int, int) -> real, o: Circle, half: int, i: int, j: int)
    requires
        o.parts(half),
        i == 0 || i == half || j == 0 || j == half,
    ensures
        transform2(b, o, half, i, j) == 0real,
{
    let f = |l: int| transform(|k: int| b(k, l), o, half, i);
    if j == 0 || j == half {
        lemma_transform_at_wall(f, o, half, j);
    } else {
        let g = |l: int| f(l) * o.sin(j * l);
        assert forall|l: int| 1 <= l < half implies #[trigger] g(l) == 0real by {
            lemma_transform_at_wall(|k: int| b(k, l), o, half, i);
            let s = o.sin(j * l);
            assert(0real * s == 0real) by (nonlinear_arith);
        }
        lemma_sigma_zero(g, 1, half);
    }
}

/// The factor of the transformed equation inverts the difference operator.
proof fn lemma_factor(
    o: Circle,
    n: int,
    h: real,
    p: int,
    q: int,
    v: real,
)
    requires
        n >= 3,
        h != 0real,
        o.parts(n - 1),
        0 <= p < n - 2,
        0 <= q < n - 2,
        half_angle(n, o, p),
        half_angle(n, o, q),
    ensures
        (2real * o.cos(p + 1) + 2real * o.cos(q + 1) - 4real) * (v * denominator_cells(n, h)(
            p,
            q,
        )) == -(unscale::<real>(n) * (h * h)) * v,
{
    lemma_whole(4);
    let h2 = h * h;
    assert(h2 != 0real) by (nonlinear_arith)
        requires
            h2 == h * h,
            h != 0real,
    ;
    let four = 4real / h2;
    assert(four * h2 == 4real) by (nonlinear_arith)
        requires
            four == 4real / h2,
            h2 != 0real,
    ;
    let (sp, sq) = (mode_sine::<real>(n, p), mode_sine::<real>(n, q));
    let (cp, cq) = (o.cos(p + 1), o.cos(q + 1));
    let (lp, lq) = (eigenvalue(h, sp), eigenvalue(h, sq));
    lemma_eigenvalue(four, h2, sp, cp);
    lemma_eigenvalue(four, h2, sq, cq);
    let lam = lp + lq;
    let mu = 2real * cp + 2real * cq - 4real;
    assert(lam * h2 == mu) by {
        lemma_commute(lam, h2);
        lemma_times_plus(h2, lp, lq);
        lemma_commute(h2, lp);
        lemma_commute(h2, lq);
    }
    lemma_unit(o, n - 1, p + 1);
    lemma_unit(o, n - 1, q + 1);
    assert(mu < 0real);
    assert(lam != 0real) by (nonlinear_arith)
        requires
            lam * h2 == mu,
            mu < 0real,
    ;
    let u = unscale::<real>(n);
    let d = (-u) / lam;
    assert(d * lam == -u) by (nonlinear_arith)
        requires
            d == (-u) / lam,
            lam != 0real,
    ;
    lemma_associate(mu, v, d);
    lemma_commute(mu, v);
    lemma_associate(v, mu, d);
    // mu * d == -u * h2
    lemma_commute(lam, h2);
    lemma_associate(h2, lam, d);
    lemma_commute(lam, d);
    let w = -u;
    assert(mu * d == h2 * w);
    assert(h2 * w == -(u * h2)) by (nonlinear_arith)
        requires
            w == -u,
    ;
    lemma_commute(v, mu * d);
}

/// An eigenvalue, by the cosine.
proof fn lemma_eigenvalue(four: real, h2: real, s: real, c: real)
    requires
        four * h2 == 4real,
        2real * (s * s) == 1real - c,
    ensures
        (-four) * s * s * h2 == 2real * c - 2real,
{
    let t = s * s;
    let f = -four;
    lemma_associate(f, s, s);
    lemma_commute(f, t);
    lemma_associate(t, f, h2);
    assert(f * h2 == -4real) by (nonlinear_arith)
        requires
            f == -four,
            four * h2 == 4real,
    ;
}

/// The scale of the transforms is undone by the factor.
proof fn lemma_unscaled(n: int)
    requires
        n >= 3,
    ensures
        unscale::<real>(n) * ((n - 1) as real * (n - 1) as real) == 4real,
{
    lemma_whole(2);
    lemma_whole(n - 1);
    let x = (n - 1) as real;
    assert(x >= 2real);
    let r = 2real / x;
    assert(r * x == 2real) by (nonlinear_arith)
        requires
            r == 2real / x,
            x >= 2real,
    ;
    lemma_associate(r * r, x, x);
    lemma_associate(r, r, x);
    lemma_commute(r, 2real);
    lemma_associate(2real, r, x);
}

/// The streamfunction that the direct solver finds, at any node of the grid.
proof fn lemma_solution(
    s: Spectral<real>,
    o: Circle,
    h: real,
    omega: Seq<real>,
    psi: Seq<real>,
    b: spec_fn(int, int) -> real,
    i: int,
    j: int,
)
    requires
        fits(s, o, s.n, h),
        closed_walls(psi, s.n),
        b == (|k: int, l: int|
            at(scaled(s.dst2(inner(omega, s.n)), s.denom, s.m()), s.m(), k - 1, l - 1)),
        0 <= i < s.n,
        0 <= j < s.n,
    ensures
        at(s.solved(omega, psi), s.n, i, j) == transform2(b, o, s.n - 1, i, j),
{
    let n = s.n;
    let m = s.m();
    let a = scaled(s.dst2(inner(omega, n)), s.denom, m);
    lemma_tabulate(n, with_inner_cells(psi, s.dst2(a), n), i, j);
    if interior(n, i, j) {
        law_field_transform_is_plane_transform(s, o, a, i - 1, j - 1);
    } else {
        lemma_nil();
        assert(at(psi, n, i, j) == crate::scalar::nil::<real>());
        lemma_plane_at_wall(b, o, n - 1, i, j);
    }
}

proof fn lemma_exact(
    s: Spectral<real>,
    o: Circle,
    h: real,
    omega: Seq<real>,
    psi: Seq<real>,
    i: int,
    j: int,
)
    requires
        fits(s, o, s.n, h),
        closed_walls(psi, s.n),
        interior(s.n, i, j),
    ensures
        laplacian(s.solved(omega, psi), s.n, h * h, i, j) == -at(omega, s.n, i, j),
{
    let n = s.n;
    let m = s.m();
    let half = n - 1;
    let hat = s.dst2(inner(omega, n));
    let a = scaled(hat, s.denom, m);
    let b = |k: int, l: int|
        at(scaled(s.dst2(inner(omega, s.n)), s.denom, s.m()), s.m(), k - 1, l - 1);
    let found = s.solved(omega, psi);
    lemma_solution(s, o, h, omega, psi, b, i, j);
    lemma_solution(s, o, h, omega, psi, b, i + 1, j);
    lemma_solution(s, o, h, omega, psi, b, i - 1, j);
    lemma_solution(s, o, h, omega, psi, b, i, j + 1);
    lemma_solution(s, o, h, omega, psi, b, i, j - 1);
    lemma_neighbours_plane(b, o, half, i, j);
    let all = |k: int, l: int| (2real * o.cos(k) + 2real * o.cos(l) - 4real) * b(k, l);
    let w = |k: int, l: int| at(inner(omega, n), m, k - 1, l - 1);
    let image = |k: int, l: int| transform2(w, o, half, k, l);
    let u = unscale::<real>(n);
    let h2 = h * h;
    let f = -(u * h2);
    let left = |l: int| transform(|k: int| all(k, l), o, half, i);
    let right = |l: int| transform(|k: int| image(k, l), o, half, i);
    assert forall|l: int| 1 <= l < half implies #[trigger] left(l) == f * right(l) + 0real * right(
        l,
    ) by {
        let al = |k: int| all(k, l);
        let il = |k: int| image(k, l);
        assert forall|k: int| 1 <= k < half implies #[trigger] al(k) == f * il(k) + 0real * il(k) by {
            lemma_tabulate(m, scaled_cells(hat, s.denom, m), k - 1, l - 1);
            lemma_tabulate(m, denominator_cells(n, h), k - 1, l - 1);
            law_field_transform_is_plane_transform(s, o, inner(omega, n), k - 1, l - 1);
            assert(half_angle(n, o, k - 1));
            assert(half_angle(n, o, l - 1));
            let v = at(hat, m, k - 1, l - 1);
            lemma_factor(o, n, h, k - 1, l - 1, v);
            assert(v == image(k, l));
            assert(0real * v == 0real) by (nonlinear_arith);
        }
        lemma_transform_linear(al, f, il, 0real, il, o, half, i);
    }
    lemma_transform_linear(left, f, right, 0real, right, o, half, j);
    let twice = transform(right, o, half, j);
    assert(0real * twice == 0real) by (nonlinear_arith);
    assert(twice == transform2(image, o, half, i, j));
    law_plane_transform_twice(w, o, half, i, j);
    lemma_tabulate(m, inner_cells(omega, n), i - 1, j - 1);
    let om = at(omega, n, i, j);
    assert(w(i, j) == om);
    lemma_unscaled(n);
    let hr = half as real;
    let k2 = hr * hr;
    lemma_last_step(u, k2, h2, twice, om);
    lemma_whole(4);
    let nb = neighbours(found, n, i, j);
    let c = at(found, n, i, j);
    assert(nb - 4real * c == f * twice);
    assert(h2 != 0real) by (nonlinear_arith)
        requires
            h2 == h * h,
            h != 0real,
    ;
    let d = nb - 4real * c;
    assert(d / h2 == -om) by (nonlinear_arith)
        requires
            d == -(h2 * om),
            h2 != 0real,
    ;
}

proof fn lemma_last_step(u: real, k2: real, h2: real, twice: real, om: real)
    requires
        u * k2 == 4real,
        4real * twice == k2 * om,
    ensures
        -(u * h2) * twice == -(h2 * om),
{
    let x = u * h2;
    // 4 * (u * twice) == u * k2 * om == 4 * om
    lemma_associate(u, k2, om);
    let y = u * twice;
    assert(u * (4real * twice) == 4real * y) by (nonlinear_arith)
        requires
            y == u * twice,
    ;
    assert(y == om);
    lemma_commute(u, h2);
    lemma_associate(h2, u, twice);
    assert((-x) * twice == -(x * twice)) by (nonlinear_arith);
}

/// The direct solver is exact: in exact arithmetic, the streamfunction that it finds has
/// the Laplacian `-omega` at every node off the walls, where it is zero on the walls.
pub proof fn law_direct_solver_exact(
    s: Spectral<real>,
    h: real,
    omega: Seq<real>,
    psi: Seq<real>,
    i: int,
    j: int,
)
    requires
        is_solver_of(s, s.n, h),
        closed_walls(psi, s.n),
        interior(s.n, i, j),
    ensures
        laplacian(s.solved(omega, psi), s.n, h * h, i, j) == -at(omega, s.n, i, j),
{
    lemma_fits(s, s.n, h);
    lemma_exact(s, circle_of(s.n - 1), h, omega, psi, i, j);
}

/// The transform of a field is its own inverse up to a factor: applied twice, it gives
/// back every value times the square of `(n - 1) / 2`.
pub proof fn law_field_transform_twice(s: Spectral<real>, h: real, a: Seq<real>, c: int)
    requires
        is_solver_of(s, s.n, h),
        a.len() == s.m() * s.m(),
        0 <= c < a.len(),
    ensures
        s.dst2(s.dst2(a)).len() == a.len(),
        s.dst2(s.dst2(a))[c] == ((s.n - 1) as real / 2real) * ((s.n - 1) as real / 2real) * a[c],
{
    let m = s.m();
    let half = s.n - 1;
    let o = circle_of(half);
    lemma_fits(s, s.n, h);
    lemma_node(m, c);
    let (p, q) = (c % m, c / m);
    let once = s.dst2(a);
    law_field_transform_is_plane_transform(s, o, once, p, q);
    let b = |k: int, l: int| at(a, m, k - 1, l - 1);
    let image = |k: int, l: int| transform2(b, o, half, k, l);
    let seen = |k: int, l: int| at(once, m, k - 1, l - 1);
    let left = |l: int| transform(|k: int| seen(k, l), o, half, p + 1);
    let right = |l: int| transform(|k: int| image(k, l), o, half, p + 1);
    assert forall|l: int| 1 <= l < half implies #[trigger] left(l) == right(l) by {
        let f = |k: int| seen(k, l);
        let g = |k: int| image(k, l);
        assert forall|k: int| 1 <= k < half implies #[trigger] f(k) == g(k) by {
            law_field_transform_is_plane_transform(s, o, a, k - 1, l - 1);
        }
        lemma_transform_same(f, g, o, half, p + 1);
    }
    lemma_transform_same(left, right, o, half, q + 1);
    law_plane_transform_twice(b, o, half, p + 1, q + 1);
    let (v, w, hr) = (at(s.dst2(once), m, p, q), at(a, m, p, q), half as real);
    assert(v == (hr / 2real) * (hr / 2real) * w) by (nonlinear_arith)
        requires
            4real * v == hr * hr * w,
    ;
    let x = s.row_transforms(transposed(s.row_transforms(once), m));
    lemma_tabulate(m, |i: int, j: int| at(x, m, j, i), p, q);
}

/// The residual that the direct solver reports is zero in exact arithmetic.
pub proof fn law_direct_residual_zero(m: Model<real>, f: Flow<real>)
    requires
        m.direct is Some,
        is_solver_of(m.direct->0, m.n, m.h),
        closed_walls(f.psi, m.n),
    ensures
        m.poisson_report(f) == 0real,
{
    let n = m.n;
    let psi = m.poisson_psi(f);
    lemma_nil();
    let row = |j: int| row_residual(psi, f.omega, n, m.h2(), j, n - 1);
    assert forall|j: int| 1 <= j < n - 1 implies #[trigger] row(j) == 0real by {
        lemma_row_zero(m, f, j, n - 1);
    }
    lemma_peak_zero(row, n - 1);
}

proof fn lemma_row_zero(m: Model<real>, f: Flow<real>, j: int, hi: int)
    requires
        m.direct is Some,
        is_solver_of(m.direct->0, m.n, m.h),
        closed_walls(f.psi, m.n),
        1 <= j < m.n - 1,
        hi <= m.n - 1,
    ensures
        row_residual(m.poisson_psi(f), f.omega, m.n, m.h2(), j, hi) == 0real,
    decreases hi,
{
    lemma_nil();
    if hi > 1 {
        lemma_row_zero(m, f, j, hi - 1);
        law_direct_solver_exact(m.direct->0, m.h, f.omega, f.psi, hi - 1, j);
    }
}

/// The peak of rows of zeros.
pub proof fn lemma_peak_zero(row: spec_fn(int) -> real, hi: int)
    requires
        forall|j: int| 1 <= j < hi ==> #[trigger] row(j) == 0real,
    ensures
        peak(crate::scalar::nil::<real>(), row, hi) == 0real,
    decreases hi,
{
    lemma_nil();
    if hi > 1 {
        lemma_peak_zero(row, hi - 1);
        assert(row(hi - 1) == 0real);
    }
}

} // verus!
