//! The sine transform: what it computes, and that it undoes itself.
use crate::laws::algebra::{lemma_associate, lemma_commute};
use crate::laws::circle::{lemma_orthogonal, lemma_turns, Circle};
use crate::laws::exact::lemma_nil;
use crate::laws::fourier::{law_fast_transform_is_dft, part_im, twiddles_of};
use crate::laws::sums::{
    lemma_sigma_linear, lemma_sigma_mirrored, lemma_sigma_same, lemma_sigma_scaled,
    lemma_sigma_shift, lemma_sigma_single, lemma_sigma_split, lemma_sigma_swap, sigma,
};
use crate::fft::Signal;
use crate::poisson::{dst1, odd_extension};
use vstd::arithmetic::power2::pow2;
use vstd::prelude::*;

verus! {

/// The sine transform of the values `f(1)`, ..., `f(half - 1)`, at `i`.
pub open spec fn transform(f: spec_fn(int) -> real, o: Circle, half: int, i: int) -> real {
    sigma(|k: int| f(k) * o.sin(i * k), 1, half)
}

/// The sine of an angle short of whole turns.
proof fn lemma_sine_back(o: Circle, half: int, k: int, t: int)
    requires
        o.parts(half),
        k >= 0,
    ensures
        o.sin(k * (2 * half - t)) == -o.sin(k * t),
{
    lemma_turns(o, half, k);
    assert(o.adds(2 * half * k, -(k * t)));
    assert(o.mirrors(k * t));
    assert(k * (2 * half - t) == 2 * half * k + -(k * t)) by (nonlinear_arith);
    let (c, s) = (o.cos(k * t), o.sin(k * t));
    assert(0real * c == 0real) by (nonlinear_arith);
    assert(1real * -s == -s);
}

/// The transform that the solver applies to a row is the sine transform of the row: the
/// sum of its values times sines.
pub proof fn law_row_transform_is_sine_transform(
    row: Seq<real>,
    tw: Signal<real>,
    o: Circle,
    levels: nat,
    k: int,
)
    requires
        o.parts(row.len() as int + 1),
        twiddles_of(tw, o, row.len() as int + 1),
        pow2(levels) == 2 * (row.len() + 1),
        0 <= k < row.len(),
    ensures
        dst1(row, tw, levels)[k] == transform(
            |t: int| row[t - 1],
            o,
            row.len() as int + 1,
            k + 1,
        ),
{
    let half = row.len() as int + 1;
    let x = odd_extension(row);
    let w = k + 1;
    law_fast_transform_is_dft(x, tw, o, half, levels, w);
    lemma_nil();
    let f = |t: int| row[t - 1];
    let g = |t: int| part_im(x, o, t, w * t);
    let e = |t: int| f(t) * o.sin(w * t);
    let minus = |t: int| -1real * e(t);
    let late = |u: int| g(u + half);
    assert forall|t: int| 0 <= t < 2 * half implies #[trigger] g(t) == -(x.re[t] * o.sin(w * t)) by {
        let c = o.cos(w * t);
        assert(0real * c == 0real) by (nonlinear_arith);
    }
    assert(g(0) == 0real) by {
        let s = o.sin(w * 0);
        assert(0real * s == 0real) by (nonlinear_arith);
    }
    assert(g(half) == 0real) by {
        let s = o.sin(w * half);
        assert(0real * s == 0real) by (nonlinear_arith);
    }
    assert forall|t: int| 1 <= t < half implies #[trigger] g(t) == minus(t) by {}
    assert forall|u: int| 1 <= u < half implies #[trigger] late(u) == minus(1 + half - 1 - u) by {
        let t = u + half;
        let back = half - u;
        assert(t == 2 * half - back);
        lemma_sine_back(o, half, w, back);
        assert(x.re[t] == -row[2 * half - t - 1]);
        let (r, s) = (row[back - 1], o.sin(w * back));
        assert((-r) * (-s) == r * s) by (nonlinear_arith);
    }
    lemma_sigma_split(g, 0, 1, 2 * half);
    lemma_sigma_split(g, 1, half, 2 * half);
    lemma_sigma_split(g, half, half + 1, 2 * half);
    assert(sigma(g, 0, 1) == sigma(g, 0, 0) + g(0));
    assert(sigma(g, half, half + 1) == sigma(g, half, half) + g(half));
    lemma_sigma_same(g, minus, 1, half);
    lemma_sigma_shift(late, g, 1, half, half);
    lemma_sigma_mirrored(late, minus, 1, half);
    lemma_sigma_scaled(minus, -1real, e, 1, half);
    let total = sigma(e, 1, half);
    let s = crate::fft::spectrum(x, tw, 0, 1, levels);
    assert(s.im[w] == -2real * total);
    let q = 1int as real / 2int as real;
    assert((-q) * (-2real * total) == total) by (nonlinear_arith)
        requires
            2real * q == 1real,
    ;
}

/// The sine transform undoes itself, up to the factor `half / 2`.
pub proof fn law_sine_transform_twice(
    f: spec_fn(int) -> real,
    o: Circle,
    half: int,
    j: int,
)
    requires
        o.parts(half),
        0 < j < half,
    ensures
        2real * transform(|k: int| transform(f, o, half, k), o, half, j) == half as real * f(j),
{
    let cell = |t: int, k: int| (f(t) * o.sin(k * t)) * o.sin(j * k);
    let first = |k: int| transform(f, o, half, k);
    let outer = |k: int| first(k) * o.sin(j * k);
    let by_k = |k: int| sigma(|t: int| cell(t, k), 1, half);
    assert forall|k: int| 1 <= k < half implies #[trigger] outer(k) == by_k(k) by {
        let sj = o.sin(j * k);
        let row = |t: int| f(t) * o.sin(k * t);
        let turned = |t: int| cell(t, k);
        assert forall|t: int| 1 <= t < half implies #[trigger] turned(t) == sj * row(t) by {
            lemma_commute(row(t), sj);
        }
        lemma_sigma_scaled(turned, sj, row, 1, half);
        lemma_commute(transform(f, o, half, k), sj);
    }
    lemma_sigma_same(outer, by_k, 1, half);
    lemma_sigma_swap(cell, 1, half, 1, half);
    let by_t = |t: int| sigma(|k: int| cell(t, k), 1, half);
    assert forall|t: int| 1 <= t < half implies #[trigger] by_t(t) == if t == j {
        f(j) * (half as real) / 2real
    } else {
        0real
    } by {
        let ft = f(t);
        let pair = |k: int| o.sin(k * t) * o.sin(k * j);
        let column = |k: int| cell(t, k);
        assert forall|k: int| 1 <= k < half implies #[trigger] column(k) == ft * pair(k) by {
            lemma_associate(ft, o.sin(k * t), o.sin(k * j));
            assert(k * j == j * k) by (nonlinear_arith);
        }
        lemma_sigma_scaled(column, ft, pair, 1, half);
        lemma_orthogonal(o, half, t, j);
        let s = sigma(pair, 1, half);
        let hr = half as real;
        if t == j {
            assert(ft * s == ft * hr / 2real) by (nonlinear_arith)
                requires
                    2real * s == hr,
            ;
        } else {
            assert(ft * s == 0real) by (nonlinear_arith)
                requires
                    2real * s == 0real,
            ;
        }
    }
    lemma_sigma_single(by_t, 1, half, j);
    let (fj, hr) = (f(j), half as real);
    assert(2real * (fj * hr / 2real) == hr * fj) by (nonlinear_arith);
}

/// The two-dimensional sine transform of the values `b(k, l)`, at `(i, j)`.
pub open spec fn transform2(
    b: spec_fn(int, int) -> real,
    o: Circle,
    half: int,
    i: int,
    j: int,
) -> real {
    transform(|l: int| transform(|k: int| b(k, l), o, half, i), o, half, j)
}

/// Equal values have equal transforms.
pub proof fn lemma_transform_same(
    f: spec_fn(int) -> real,
    g: spec_fn(int) -> real,
    o: Circle,
    half: int,
    i: int,
)
    requires
        forall|k: int| 1 <= k < half ==> #[trigger] f(k) == g(k),
    ensures
        transform(f, o, half, i) == transform(g, o, half, i),
{
    let a = |k: int| f(k) * o.sin(i * k);
    let b = |k: int| g(k) * o.sin(i * k);
    assert forall|k: int| 1 <= k < half implies #[trigger] a(k) == b(k) by {
        assert(f(k) == g(k));
    }
    lemma_sigma_same(a, b, 1, half);
}

/// The transform of a combination.
pub proof fn lemma_transform_linear(
    f: spec_fn(int) -> real,
    a: real,
    g: spec_fn(int) -> real,
    b: real,
    h: spec_fn(int) -> real,
    o: Circle,
    half: int,
    i: int,
)
    requires
        forall|k: int| 1 <= k < half ==> #[trigger] f(k) == a * g(k) + b * h(k),
    ensures
        transform(f, o, half, i) == a * transform(g, o, half, i) + b * transform(h, o, half, i),
{
    let fs = |k: int| f(k) * o.sin(i * k);
    let gs = |k: int| g(k) * o.sin(i * k);
    let hs = |k: int| h(k) * o.sin(i * k);
    assert forall|k: int| 1 <= k < half implies #[trigger] fs(k) == a * gs(k) + b * hs(k) by {
        assert(f(k) == a * g(k) + b * h(k));
        let (x, y, s) = (g(k), h(k), o.sin(i * k));
        let (ax, by) = (a * x, b * y);
        assert((ax + by) * s == ax * s + by * s) by (nonlinear_arith);
        lemma_associate(a, x, s);
        lemma_associate(b, y, s);
    }
    lemma_sigma_linear(fs, a, gs, b, hs, 1, half);
}

/// Transforms in the two directions can change places.
proof fn lemma_transforms_commute(
    b: spec_fn(int, int) -> real,
    o: Circle,
    half: int,
    i: int,
    j: int,
)
    requires
        half >= 1,
    ensures
        transform(|k: int| transform(|l: int| b(k, l), o, half, j), o, half, i) == transform2(
            b,
            o,
            half,
            i,
            j,
        ),
{
    let cell = |k: int, l: int| (b(k, l) * o.sin(i * k)) * o.sin(j * l);
    let across = |k: int| transform(|l: int| b(k, l), o, half, j);
    let outer = |k: int| across(k) * o.sin(i * k);
    let by_k = |k: int| sigma(|l: int| cell(k, l), 1, half);
    assert forall|k: int| 1 <= k < half implies #[trigger] outer(k) == by_k(k) by {
        let s = o.sin(i * k);
        let bk = |l: int| b(k, l);
        let row = |l: int| bk(l) * o.sin(j * l);
        let turned = |l: int| cell(k, l);
        assert forall|l: int| 1 <= l < half implies #[trigger] turned(l) == s * row(l) by {
            let (v, t) = (b(k, l), o.sin(j * l));
            lemma_commute(v, s);
            lemma_associate(s, v, t);
        }
        lemma_sigma_scaled(turned, s, row, 1, half);
        lemma_commute(sigma(row, 1, half), s);
    }
    lemma_sigma_same(outer, by_k, 1, half);
    let along = |l: int| transform(|k: int| b(k, l), o, half, i);
    let inner = |l: int| along(l) * o.sin(j * l);
    let by_l = |l: int| sigma(|k: int| cell(k, l), 1, half);
    assert forall|l: int| 1 <= l < half implies #[trigger] inner(l) == by_l(l) by {
        let s = o.sin(j * l);
        let bl = |k: int| b(k, l);
        let col = |k: int| bl(k) * o.sin(i * k);
        let turned = |k: int| cell(k, l);
        assert forall|k: int| 1 <= k < half implies #[trigger] turned(k) == s * col(k) by {
            lemma_commute(col(k), s);
        }
        lemma_sigma_scaled(turned, s, col, 1, half);
        lemma_commute(sigma(col, 1, half), s);
    }
    lemma_sigma_same(inner, by_l, 1, half);
    lemma_sigma_swap(cell, 1, half, 1, half);
}

/// The two-dimensional sine transform undoes itself, up to the factor `(half / 2)^2`.
pub proof fn law_plane_transform_twice(
    b: spec_fn(int, int) -> real,
    o: Circle,
    half: int,
    i: int,
    j: int,
)
    requires
        o.parts(half),
        0 < i < half,
        0 < j < half,
    ensures
        4real * transform2(|k: int, l: int| transform2(b, o, half, k, l), o, half, i, j) == (
        half as real) * (half as real) * b(i, j),
{
    let hr = half as real;
    let row = |k: int, t: int| transform(|u: int| b(u, t), o, half, k);
    let image = |k: int, l: int| transform2(b, o, half, k, l);
    let inner = |l: int| transform(|k: int| image(k, l), o, half, i);
    let half_way = |l: int| hr / 2real * b(i, l);
    let once = |l: int| transform(half_way, o, half, l);
    assert forall|l: int| 1 <= l < half implies #[trigger] inner(l) == once(l) by {
        let left = |k: int| image(k, l);
        let right = |k: int| transform(|t: int| row(k, t), o, half, l);
        assert forall|k: int| 1 <= k < half implies #[trigger] left(k) == right(k) by {
            let f = |t: int| transform(|u: int| b(u, t), o, half, k);
            let g = |t: int| row(k, t);
            lemma_transform_same(f, g, o, half, l);
        }
        lemma_transform_same(left, right, o, half, i);
        lemma_transforms_commute(row, o, half, i, l);
        let q = |t: int| transform(|k: int| row(k, t), o, half, i);
        assert forall|t: int| 1 <= t < half implies #[trigger] q(t) == half_way(t) by {
            let bt = |u: int| b(u, t);
            law_sine_transform_twice(bt, o, half, i);
            let f = |k: int| row(k, t);
            let g = |k: int| transform(bt, o, half, k);
            lemma_transform_same(f, g, o, half, i);
            let (v, w) = (q(t), b(i, t));
            assert(v == hr / 2real * w) by (nonlinear_arith)
                requires
                    2real * v == hr * w,
            ;
        }
        lemma_transform_same(q, half_way, o, half, l);
    }
    lemma_transform_same(inner, once, o, half, j);
    law_sine_transform_twice(half_way, o, half, j);
    let (v, w) = (transform(inner, o, half, j), b(i, j));
    assert(4real * v == hr * hr * w) by (nonlinear_arith)
        requires
            2real * v == hr * (hr / 2real * w),
    ;
}

} // verus!
