//! The sections of airfoils in exact arithmetic.
use crate::geometry::{camber, clamped, thickness};
use crate::laws::algebra::lemma_associate;
use crate::laws::exact::{is_root, lemma_nil, lemma_whole};
use crate::laws::shape::law_closed_edges;
use vstd::prelude::*;

verus! {

/// The half-thickness is proportional to the thickness of the section.
pub proof fn law_thickness_proportional(xn: real, a: real, t: real)
    ensures
        thickness(xn, a * t) == a * thickness(xn, t),
{
    lemma_whole(5);
    let poly = thickness(xn, 1real / 5real);
    lemma_section(xn, t);
    lemma_section(xn, a * t);
    let b = 5real * t;
    assert(5real * (a * t) == a * b) by (nonlinear_arith)
        requires
            b == 5real * t,
    ;
    lemma_associate(a, b, poly);
}

/// Any section is five times its thickness the section that is a fifth thick.
proof fn lemma_section(xn: real, t: real)
    ensures
        thickness(xn, t) == 5real * t * thickness(xn, 1real / 5real),
{
    lemma_whole(5);
    let x = clamped(xn);
    let p = thickness(xn, 1real / 5real);
    let f = 5real * (1real / 5real);
    assert(f == 1real);
    let q = section(x);
    assert(thickness(xn, t) == 5real * t * q);
    assert(p == f * q);
    assert(1real * q == q);
}

spec fn section(x: real) -> real {
    let r = <real as crate::scalar::Arith>::root(x);
    (2969int as real / 10000int as real) * r - (1260int as real / 10000int as real) * x - (
    3516int as real / 10000int as real) * x * x + (2843int as real / 10000int as real) * x * x * x
        - (1036int as real / 10000int as real) * x * x * x * x
}

/// Along the chord the section that is a fifth thick is the polynomial of the 4-digit family
/// in the square root `r` of the position, with the closed trailing edge. Off the chord there
/// is none.
pub proof fn law_thickness_polynomial(r: real, xn: real, t: real)
    ensures
        0real <= r <= 1real ==> 10000real * thickness(r * r, 1real / 5real) == 2969real * r
            - 1260real * (r * r) - 3516real * (r * r * r * r) + 2843real * (r * r * r * r * r * r)
            - 1036real * (r * r * r * r * r * r * r * r),
        xn <= 0real ==> thickness(xn, t) == 0real,
        1real <= xn ==> thickness(xn, t) == 0real,
{
    lemma_nil();
    lemma_whole(1);
    if 0real <= r <= 1real {
        let x = r * r;
        assert(0real <= x <= 1real) by (nonlinear_arith)
            requires
                x == r * r,
                0real <= r <= 1real,
        ;
        assert(clamped(x) == x);
        assert(is_root(x, r));
        let s = <real as crate::scalar::Arith>::root(x);
        assert(is_root(x, s));
        assert(s == r) by (nonlinear_arith)
            requires
                s * s == r * r,
                0real <= s,
                0real <= r,
        ;
        lemma_whole(5);
        let f = 5real * (1real / 5real);
        assert(f == 1real);
        let q = section(x);
        assert(thickness(x, 1real / 5real) == f * q);
        assert(1real * q == q);
        let a = 2969int as real / 10000int as real;
        let b = 1260int as real / 10000int as real;
        let c = 3516int as real / 10000int as real;
        let d = 2843int as real / 10000int as real;
        let e = 1036int as real / 10000int as real;
        let (x2, x3, x4) = (r * r * r * r, r * r * r * r * r * r, r * r * r * r * r * r * r * r);
        assert(c * x * x == c * x2) by (nonlinear_arith)
            requires
                x == r * r,
                x2 == r * r * r * r,
        ;
        assert(x2 == x * x) by (nonlinear_arith)
            requires
                x == r * r,
                x2 == r * r * r * r,
        ;
        assert(x3 == x2 * x) by (nonlinear_arith)
            requires
                x == r * r,
                x2 == r * r * r * r,
                x3 == r * r * r * r * r * r,
        ;
        assert(x4 == x3 * x) by (nonlinear_arith)
            requires
                x == r * r,
                x3 == r * r * r * r * r * r,
                x4 == r * r * r * r * r * r * r * r,
        ;
        assert(d * x * x == d * x2) by (nonlinear_arith)
            requires
                x2 == x * x,
        ;
        lemma_associate(d, x2, x);
        assert(e * x * x == e * x2) by (nonlinear_arith)
            requires
                x2 == x * x,
        ;
        lemma_associate(e, x2, x);
        lemma_associate(e, x3, x);
        assert(q == a * r - b * x - c * x2 + d * x3 - e * x4);
    }
    law_closed_edges(t);
    if xn <= 0real {
        assert(clamped(xn) == clamped(0real));
    }
    if 1real <= xn {
        assert(clamped(xn) == clamped(1real));
    }
}

/// The mean line falls off from its camber `m` at `p` with the square of the distance, to the
/// chord at both edges. With its camber at the leading edge a section has none.
pub proof fn law_mean_line_parabolas(m: real, p: real, xn: real)
    requires
        0real <= p < 1real,
    ensures
        p == 0real ==> camber(xn, m, p) == 0real,
        xn <= p && 0real < p ==> p * p * (m - camber(xn, m, p)) == m * ((p - xn) * (p - xn)),
        xn >= p && 0real < p ==> (1real - p) * (1real - p) * (m - camber(xn, m, p)) == m * ((xn - p) * (xn - p)),
{
    lemma_nil();
    lemma_whole(1);
    lemma_whole(2);
    if p == 0real {
    } else if m == 0real {
        let (a, b) = (p * p, (1real - p) * (1real - p));
        let (c, d) = ((p - xn) * (p - xn), (xn - p) * (xn - p));
        assert(a * 0real == 0real && b * 0real == 0real && 0real * c == 0real && 0real * d == 0real)
            by (nonlinear_arith);
    } else {
        let s = p * p;
        let z = (1real - p) * (1real - p);
        assert(s != 0real && z != 0real) by (nonlinear_arith)
            requires
                s == p * p,
                z == (1real - p) * (1real - p),
                0real < p < 1real,
        ;
        let (g, k) = (m / s, m / z);
        assert(g * s == m && k * z == m) by (nonlinear_arith)
            requires
                g == m / s,
                k == m / z,
                s != 0real,
                z != 0real,
        ;
        let y = 2real * p * xn - xn * xn;
        let v = (1real - 2real * p) + 2real * p * xn - xn * xn;
        let w = (p - xn) * (p - xn);
        assert((xn - p) * (xn - p) == w) by (nonlinear_arith)
            requires
                w == (p - xn) * (p - xn),
        ;
        assert(s - y == w && z - v == w) by (nonlinear_arith)
            requires
                s == p * p,
                z == (1real - p) * (1real - p),
                y == 2real * p * xn - xn * xn,
                v == (1real - 2real * p) + 2real * p * xn - xn * xn,
                w == (p - xn) * (p - xn),
        ;
        lemma_fall(s, g, m, y, w);
        lemma_fall(z, k, m, v, w);
        if xn == p {
            assert(w == 0real) by (nonlinear_arith)
                requires
                    w == (p - xn) * (p - xn),
                    xn == p,
            ;
            assert(camber(xn, m, p) == k * v);
            assert(z * (m - k * v) == m * w);
            let c = m - k * v;
            assert(m * 0real == 0real) by (nonlinear_arith);
            assert(c == 0real) by (nonlinear_arith)
                requires
                    z * c == 0real,
                    z != 0real,
            ;
            assert(s * 0real == 0real) by (nonlinear_arith);
        }
    }
}

proof fn lemma_fall(s: real, g: real, m: real, y: real, w: real)
    requires
        g * s == m,
        s - y == w,
    ensures
        s * (m - g * y) == m * w,
{
    assert(s * (m - g * y) == m * w) by (nonlinear_arith)
        requires
            g * s == m,
            s - y == w,
    ;
}

} // verus!
