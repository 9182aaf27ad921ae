//! Cosines and sines of the equal parts of a circle.
use crate::laws::exact::trigonometry;
use crate::laws::sums::{
    lemma_sigma_linear, lemma_sigma_ones, lemma_sigma_same, lemma_sigma_scaled, lemma_telescope,
    sigma,
};
use vstd::prelude::*;

verus! {

/// Cosine and sine of `k` parts of a circle.
pub struct Circle {
    pub c: spec_fn(int) -> real,
    pub s: spec_fn(int) -> real,
}

impl Circle {
    pub open spec fn cos(self, k: int) -> real {
        (self.c)(k)
    }

    pub open spec fn sin(self, k: int) -> real {
        (self.s)(k)
    }

    /// Angle addition.
    pub open spec fn adds(self, a: int, b: int) -> bool {
        &&& self.cos(a + b) == self.cos(a) * self.cos(b) - self.sin(a) * self.sin(b)
        &&& self.sin(a + b) == self.sin(a) * self.cos(b) + self.cos(a) * self.sin(b)
    }

    /// The opposite angle.
    pub open spec fn mirrors(self, a: int) -> bool {
        &&& self.cos(-a) == self.cos(a)
        &&& self.sin(-a) == -self.sin(a)
    }

    /// The circle has `2 * half` parts: `half` parts are a half turn, and no fewer than
    /// all parts are a full turn.
    pub open spec fn parts(self, half: int) -> bool {
        &&& half >= 1
        &&& self.cos(0) == 1real
        &&& self.sin(0) == 0real
        &&& self.cos(half) == -1real
        &&& self.sin(half) == 0real
        &&& forall|a: int, b: int| #[trigger] self.adds(a, b)
        &&& forall|a: int| #[trigger] self.mirrors(a)
        &&& forall|r: int| 0 < r < 2 * half ==> #[trigger] self.cos(r) != 1real
    }
}

/// The angle of `k` parts of a half turn that has `half` parts.
pub open spec fn angle(half: int, k: int) -> real {
    trigonometry().pi * (k as real) / half as real
}

/// The circle of `2 * half` parts.
pub open spec fn circle_of(half: int) -> Circle {
    Circle {
        c: |k: int| (trigonometry().c)(angle(half, k)),
        s: |k: int| (trigonometry().s)(angle(half, k)),
    }
}

/// Every number of parts has its circle.
pub proof fn lemma_circle(half: int)
    requires
        half >= 1,
        trigonometry().valid(),
    ensures
        circle_of(half).parts(half),
{
    let t = trigonometry();
    let o = circle_of(half);
    let (pi, h) = (t.pi, half as real);
    assert(angle(half, 0) == 0real) by (nonlinear_arith)
        requires
            angle(half, 0) == pi * 0real / h,
            h >= 1real,
    ;
    assert(angle(half, half) == pi) by (nonlinear_arith)
        requires
            angle(half, half) == pi * h / h,
            h >= 1real,
    ;
    assert forall|a: int, b: int| #[trigger] o.adds(a, b) by {
        let (x, y, z) = (angle(half, a), angle(half, b), angle(half, a + b));
        let (ar, br) = (a as real, b as real);
        assert((a + b) as real == ar + br);
        assert(z == x + y) by (nonlinear_arith)
            requires
                z == pi * (ar + br) / h,
                x == pi * ar / h,
                y == pi * br / h,
                h >= 1real,
        ;
        assert(t.adds(x, y));
    }
    assert forall|a: int| #[trigger] o.mirrors(a) by {
        let (x, z) = (angle(half, a), angle(half, -a));
        let ar = a as real;
        assert((-a) as real == -ar);
        assert(z == -x) by (nonlinear_arith)
            requires
                z == pi * (-ar) / h,
                x == pi * ar / h,
                h >= 1real,
        ;
        assert(t.mirrors(x));
    }
    assert forall|r: int| 0 < r < 2 * half implies #[trigger] o.cos(r) != 1real by {
        let x = angle(half, r);
        let rr = r as real;
        assert(x * h == pi * rr) by (nonlinear_arith)
            requires
                x == pi * rr / h,
                h >= 1real,
        ;
        assert(0real < x) by (nonlinear_arith)
            requires
                x * h == pi * rr,
                0real < pi,
                0real < rr,
                h >= 1real,
        ;
        assert(x < pi + pi) by (nonlinear_arith)
            requires
                x * h == pi * rr,
                0real < pi,
                rr < 2real * h,
                h >= 1real,
        ;
        assert((t.c)(x) != 1real);
    }
}

/// Cosine and sine lie on the unit circle.
pub proof fn lemma_unit(o: Circle, half: int, a: int)
    requires
        o.parts(half),
    ensures
        o.cos(a) * o.cos(a) + o.sin(a) * o.sin(a) == 1real,
        o.cos(a) <= 1real,
{
    assert(o.adds(a, -a));
    assert(o.mirrors(a));
    assert(a + -a == 0);
    let (c, s) = (o.cos(a), o.sin(a));
    assert(s * -s == -(s * s)) by (nonlinear_arith);
    assert(c <= 1real) by (nonlinear_arith)
        requires
            c * c + s * s == 1real,
    ;
}

/// A number of full turns changes nothing.
pub proof fn lemma_turns(o: Circle, half: int, u: int)
    requires
        o.parts(half),
        u >= 0,
    ensures
        o.cos(2 * half * u) == 1real,
        o.sin(2 * half * u) == 0real,
    decreases u,
{
    if u == 0 {
        assert(2 * half * 0 == 0);
    } else {
        lemma_turns(o, half, u - 1);
        let before = 2 * half * (u - 1);
        assert(2 * half * u == before + (half + half)) by (nonlinear_arith)
            requires
                before == 2 * half * (u - 1),
        ;
        assert(o.adds(half, half));
        assert(o.adds(before, half + half));
        assert(-1real * -1real == 1real);
    }
}

/// Half turns: an even number changes nothing, an odd number changes the sign.
pub proof fn lemma_half_turns(o: Circle, half: int, r: int)
    requires
        o.parts(half),
        r >= 0,
    ensures
        o.sin(half * r) == 0real,
        o.cos(half * r) == if r % 2 == 0 {
            1real
        } else {
            -1real
        },
{
    let u = r / 2;
    lemma_turns(o, half, u);
    if r % 2 == 0 {
        assert(half * r == 2 * half * u) by (nonlinear_arith)
            requires
                r == 2 * u,
        ;
    } else {
        assert(half * r == 2 * half * u + half) by (nonlinear_arith)
            requires
                r == 2 * u + 1,
        ;
        assert(o.adds(2 * half * u, half));
    }
}

/// Twice a product of sines is the difference of two cosines.
pub proof fn lemma_sine_product(o: Circle, half: int, a: int, b: int)
    requires
        o.parts(half),
    ensures
        2real * (o.sin(a) * o.sin(b)) == o.cos(a - b) - o.cos(a + b),
{
    assert(o.adds(a, b));
    assert(o.adds(a, -b));
    assert(o.mirrors(b));
    assert(a + -b == a - b);
    let (x, y) = (o.sin(a), o.sin(b));
    assert(x * -y == -(x * y)) by (nonlinear_arith);
}

/// Neighbours of a sine add up to a multiple of it.
pub proof fn lemma_sine_neighbours(o: Circle, half: int, a: int, k: int)
    requires
        o.parts(half),
    ensures
        o.sin(a + k) + o.sin(a - k) == 2real * o.cos(k) * o.sin(a),
{
    assert(o.adds(a, k));
    assert(o.adds(a, -k));
    assert(o.mirrors(k));
    assert(a + -k == a - k);
    let (x, y, c, s) = (o.cos(a), o.sin(k), o.cos(k), o.sin(a));
    assert(x * -y == -(x * y)) by (nonlinear_arith);
    assert(s * c + s * c == 2real * c * s) by (nonlinear_arith);
}

/// Neighbours of a cosine add up to a multiple of it.
pub proof fn lemma_cosine_neighbours(o: Circle, half: int, a: int, k: int)
    requires
        o.parts(half),
    ensures
        o.cos(a + k) + o.cos(a - k) == 2real * o.cos(k) * o.cos(a),
{
    assert(o.adds(a, k));
    assert(o.adds(a, -k));
    assert(o.mirrors(k));
    assert(a + -k == a - k);
    let (x, y, c, d) = (o.sin(a), o.sin(k), o.cos(k), o.cos(a));
    assert(x * -y == -(x * y)) by (nonlinear_arith);
    assert(d * c + d * c == 2real * c * d) by (nonlinear_arith);
}

/// The sum of the cosines of the multiples of `r` parts, over half a turn: minus one for
/// even `r`, zero for odd `r`.
pub proof fn lemma_cosine_sum(o: Circle, half: int, r: int)
    requires
        o.parts(half),
        0 < r < 2 * half,
    ensures
        sigma(|k: int| o.cos(k * r), 1, half) == if r % 2 == 0 {
            -1real
        } else {
            0real
        },
{
    let f = |k: int| o.cos(k * r);
    let step = |k: int| o.cos(k * r) - o.cos((k + 1) * r);
    let g = |k: int| step(k) - step(k - 1);
    let c = o.cos(r);
    let e = o.cos(half * r);
    assert forall|k: int| 1 <= k < half implies #[trigger] g(k) == (2real - 2real * c) * f(k)
        + 0real * f(k) by {
        lemma_cosine_neighbours(o, half, k * r, r);
        assert((k + 1) * r == k * r + r) by (nonlinear_arith);
        assert((k - 1) * r == k * r - r) by (nonlinear_arith);
        let x = o.cos(k * r);
        assert((2real - 2real * c) * x == 2real * x - 2real * c * x) by (nonlinear_arith);
        assert(0real * x == 0real) by (nonlinear_arith);
        assert(k - 1 + 1 == k);
    }
    lemma_sigma_linear(g, 2real - 2real * c, f, 0real, f, 1, half);
    let total = sigma(f, 1, half);
    assert(0real * total == 0real) by (nonlinear_arith);
    lemma_telescope(g, step, 1, half);
    assert(0 * r == 0 && 1 * r == r);
    lemma_half_turns(o, half, r);
    assert((half - 1) * r == half * r - r) by (nonlinear_arith);
    assert(o.adds(half * r, -r));
    assert(half * r + -r == half * r - r);
    assert(o.mirrors(r));
    let sr = o.sin(r);
    assert(0real * -sr == 0real) by (nonlinear_arith);
    assert(sigma(g, 1, half) == step(half - 1) - step(0));
    assert(half - 1 + 1 == half);
    assert(step(half - 1) == e * c - e);
    assert(step(0) == 1real - c);
    let d = 1real - c;
    assert((2real - 2real * c) * total == 2real * (d * total)) by (nonlinear_arith)
        requires
            d == 1real - c,
    ;
    assert(d != 0real);
    if r % 2 == 0 {
        assert(1real * c == c);
        assert(total == -1real) by (nonlinear_arith)
            requires
                2real * (d * total) == -2real * d,
                d != 0real,
        ;
    } else {
        assert(-1real * c == -c);
        assert(total == 0real) by (nonlinear_arith)
            requires
                2real * (d * total) == 0real,
                d != 0real,
        ;
    }
}

/// The sines of the multiples of two frequencies are orthogonal over half a turn.
pub proof fn lemma_orthogonal(o: Circle, half: int, a: int, b: int)
    requires
        o.parts(half),
        0 < a < half,
        0 < b < half,
    ensures
        2real * sigma(|k: int| o.sin(k * a) * o.sin(k * b), 1, half) == if a == b {
            half as real
        } else {
            0real
        },
{
    let f = |k: int| o.sin(k * a) * o.sin(k * b);
    let lo = |k: int| o.cos(k * (a - b));
    let hi = |k: int| o.cos(k * (a + b));
    let twice = |k: int| 2real * f(k);
    assert forall|k: int| 1 <= k < half implies #[trigger] twice(k) == 1real * lo(k) + -1real * hi(
        k,
    ) by {
        lemma_sine_product(o, half, k * a, k * b);
        assert(k * a - k * b == k * (a - b)) by (nonlinear_arith);
        assert(k * a + k * b == k * (a + b)) by (nonlinear_arith);
    }
    lemma_sigma_linear(twice, 1real, lo, -1real, hi, 1, half);
    lemma_sigma_scaled(twice, 2real, f, 1, half);
    lemma_cosine_sum(o, half, a + b);
    if a == b {
        assert forall|k: int| 1 <= k < half implies #[trigger] lo(k) == 1real by {
            assert(k * (a - b) == 0) by (nonlinear_arith)
                requires
                    a == b,
            ;
        }
        lemma_sigma_ones(lo, 1, half);
    } else if a > b {
        lemma_cosine_sum(o, half, a - b);
    } else {
        lemma_cosine_sum(o, half, b - a);
        let other = |k: int| o.cos(k * (b - a));
        assert forall|k: int| 1 <= k < half implies #[trigger] lo(k) == other(k) by {
            assert(o.mirrors(k * (b - a)));
            assert(k * (a - b) == -(k * (b - a))) by (nonlinear_arith);
        }
        lemma_sigma_same(lo, other, 1, half);
    }
}

} // verus!
