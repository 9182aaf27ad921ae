//! The differences are those of the equations: exact on fields that are parabolas around a
//! node.
use crate::grid::at;
use crate::laws::exact::lemma_whole;
use crate::model::{arakawa, laplacian, neighbours, tendency, velocity_u, velocity_v};
use vstd::prelude::*;

verus! {

/// A value and the derivatives of first and second order at a node.
pub struct Jet {
    pub value: real,
    pub x: real,
    pub y: real,
    pub xx: real,
    pub xy: real,
    pub yy: real,
}

impl Jet {
    /// The parabola with these derivatives, `a` cells east and `b` cells north of the node.
    pub open spec fn at(self, h: real, a: real, b: real) -> real {
        self.value + a * (h * self.x) + b * (h * self.y) + (a * a * (h * h * self.xx) + 2real * (a
            * b) * (h * h * self.xy) + b * b * (h * h * self.yy)) / 2real
    }
}

/// Around the node `(i, j)` the field is the parabola with these derivatives.
pub open spec fn follows(f: Seq<real>, n: int, h: real, i: int, j: int, d: Jet) -> bool {
    forall|a: int, b: int|
        -1 <= a <= 1 && -1 <= b <= 1 ==> #[trigger] at(f, n, i + a, j + b) == d.at(
            h,
            a as real,
            b as real,
        )
}


/// The parabola a whole cell away, if at all, along each axis.
proof fn lemma_point(d: Jet, h: real, a: real, b: real)
    requires
        a == 0real || a == 1real || a == -1real,
        b == 0real || b == 1real || b == -1real,
    ensures
        ({
            let (x, y) = (h * d.x, h * d.y);
            let (p, r, q) = (h * h * d.xx, h * h * d.xy, h * h * d.yy);
            let ax = if a == 0real { 0real } else if a == 1real { x } else { -x };
            let by = if b == 0real { 0real } else if b == 1real { y } else { -y };
            let ap = if a == 0real { 0real } else { p };
            let bq = if b == 0real { 0real } else { q };
            let rr = if a == 0real || b == 0real { 0real } else if a == b { r } else { -r };
            d.at(h, a, b) == d.value + ax + by + (ap + bq) / 2real + rr
        }),
{
    let (x, y) = (h * d.x, h * d.y);
    let (p, r, q) = (h * h * d.xx, h * h * d.xy, h * h * d.yy);
    let (s, t, u) = (a * a, a * b, b * b);
    assert(a == 0real ==> s == 0real && t == 0real) by (nonlinear_arith)
        requires
            s == a * a,
            t == a * b,
    ;
    assert(b == 0real ==> u == 0real && t == 0real) by (nonlinear_arith)
        requires
            u == b * b,
            t == a * b,
    ;
    assert(a == 1real || a == -1real ==> s == 1real) by (nonlinear_arith)
        requires
            s == a * a,
    ;
    assert(b == 1real || b == -1real ==> u == 1real) by (nonlinear_arith)
        requires
            u == b * b,
    ;
    assert(a == 1real ==> t == b) by (nonlinear_arith)
        requires
            t == a * b,
    ;
    assert(a == -1real ==> t == -b) by (nonlinear_arith)
        requires
            t == a * b,
    ;
    lemma_sign(a, x);
    lemma_sign(b, y);
    lemma_sign(s, p);
    lemma_sign(u, q);
    lemma_sign(t, r);
    assert(2real * t * r == 2real * (t * r)) by (nonlinear_arith);
}

proof fn lemma_sign(a: real, x: real)
    ensures
        a == 0real ==> a * x == 0real,
        a == 1real ==> a * x == x,
        a == -1real ==> a * x == -x,
{
    assert(a == 0real ==> a * x == 0real) by (nonlinear_arith);
    assert(a == 1real ==> a * x == x) by (nonlinear_arith);
    assert(a == -1real ==> a * x == -x) by (nonlinear_arith);
}

/// The nine values in terms of the scaled derivatives.
proof fn lemma_values(f: Seq<real>, n: int, h: real, i: int, j: int, d: Jet)
    requires
        follows(f, n, h, i, j, d),
    ensures
        ({
            let (x, y) = (h * d.x, h * d.y);
            let (p, r, q) = (h * h * d.xx, h * h * d.xy, h * h * d.yy);
            let c = d.value;
            &&& at(f, n, i, j) == c
            &&& at(f, n, i + 1, j) == c + x + p / 2real
            &&& at(f, n, i - 1, j) == c - x + p / 2real
            &&& at(f, n, i, j + 1) == c + y + q / 2real
            &&& at(f, n, i, j - 1) == c - y + q / 2real
            &&& at(f, n, i + 1, j + 1) == c + x + y + (p + q) / 2real + r
            &&& at(f, n, i - 1, j + 1) == c - x + y + (p + q) / 2real - r
            &&& at(f, n, i + 1, j - 1) == c + x - y + (p + q) / 2real - r
            &&& at(f, n, i - 1, j - 1) == c - x - y + (p + q) / 2real + r
        }),
{
    let (x, y) = (h * d.x, h * d.y);
    let (p, r, q) = (h * h * d.xx, h * h * d.xy, h * h * d.yy);
    assert(at(f, n, i + 0, j + 0) == d.at(h, 0real, 0real));
    assert(at(f, n, i + 1, j + 0) == d.at(h, 1real, 0real));
    assert(at(f, n, i + -1, j + 0) == d.at(h, -1real, 0real));
    assert(at(f, n, i + 0, j + 1) == d.at(h, 0real, 1real));
    assert(at(f, n, i + 0, j + -1) == d.at(h, 0real, -1real));
    assert(at(f, n, i + 1, j + 1) == d.at(h, 1real, 1real));
    assert(at(f, n, i + -1, j + 1) == d.at(h, -1real, 1real));
    assert(at(f, n, i + 1, j + -1) == d.at(h, 1real, -1real));
    assert(at(f, n, i + -1, j + -1) == d.at(h, -1real, -1real));
    lemma_point(d, h, 0real, 0real);
    lemma_point(d, h, 1real, 0real);
    lemma_point(d, h, -1real, 0real);
    lemma_point(d, h, 0real, 1real);
    lemma_point(d, h, 0real, -1real);
    lemma_point(d, h, 1real, 1real);
    lemma_point(d, h, -1real, 1real);
    lemma_point(d, h, 1real, -1real);
    lemma_point(d, h, -1real, -1real);
}

proof fn lemma_square(h: real)
    requires
        h != 0real,
    ensures
        h * h != 0real,
{
    assert(h * h != 0real) by (nonlinear_arith)
        requires
            h != 0real,
    ;
}

/// The discrete Laplacian is the Laplacian, and the discrete velocity is `u = dpsi/dy`,
/// `v = -dpsi/dx`.
pub proof fn law_differences_exact(f: Seq<real>, n: int, h: real, i: int, j: int, d: Jet)
    requires
        h != 0real,
        follows(f, n, h, i, j, d),
    ensures
        laplacian(f, n, h * h, i, j) == d.xx + d.yy,
        velocity_u(f, n, h, i, j) == d.y,
        velocity_v(f, n, h, i, j) == -d.x,
{
    lemma_values(f, n, h, i, j, d);
    lemma_square(h);
    lemma_whole(2);
    lemma_whole(4);
    let h2 = h * h;
    let s = d.xx + d.yy;
    assert(h2 * d.xx + h2 * d.yy == s * h2) by (nonlinear_arith)
        requires
            s == d.xx + d.yy,
    ;
    let t = s * h2;
    assert(neighbours(f, n, i, j) - 4real * at(f, n, i, j) == t);
    assert(t / h2 == s) by (nonlinear_arith)
        requires
            t == s * h2,
            h2 != 0real,
    ;
    let w = 2real * h;
    let (dy, dx) = (d.y, d.x);
    assert(2real * (h * dy) == dy * w && -(2real * (h * dx)) == (-dx) * w) by (nonlinear_arith)
        requires
            w == 2real * h,
    ;
    let (a, b) = (dy * w, (-dx) * w);
    assert(a / w == dy && b / w == -dx) by (nonlinear_arith)
        requires
            a == dy * w,
            b == (-dx) * w,
            w != 0real,
    ;
}

proof fn lemma_pieces(c: real, a: real, b: real, x: real, y: real, r: real)
    ensures
        (2real * a) * (2real * y) - (2real * b) * (2real * x) == 4real * (a * y - b * x),
        (c + a) * (2real * y + 2real * r) - (c - a) * (2real * y - 2real * r) - (c + b) * (2real * x
            + 2real * r) + (c - b) * (2real * x - 2real * r) == 4real * (a * y - b * x),
{
    let (ay, bx, cr) = (a * y, b * x, c * r);
    assert((2real * a) * (2real * y) == 4real * ay) by (nonlinear_arith)
        requires
            ay == a * y,
    ;
    assert((2real * b) * (2real * x) == 4real * bx) by (nonlinear_arith)
        requires
            bx == b * x,
    ;
    assert((c + a) * (2real * y + 2real * r) - (c - a) * (2real * y - 2real * r) == 4real * ay
        + 4real * cr) by (nonlinear_arith)
        requires
            ay == a * y,
            cr == c * r,
    ;
    assert((c + b) * (2real * x + 2real * r) - (c - b) * (2real * x - 2real * r) == 4real * bx
        + 4real * cr) by (nonlinear_arith)
        requires
            bx == b * x,
            cr == c * r,
    ;
}

/// The vorticity is carried by the flow and diffuses: where the streamfunction is linear
/// around a node, which is a uniform flow `(u, v)`, and the vorticity is a parabola, the rate
/// of change is `-u dw/dx - v dw/dy + nu lap w`.
pub proof fn law_rate_is_transport(
    psi: Seq<real>,
    omega: Seq<real>,
    n: int,
    h: real,
    nu: real,
    i: int,
    j: int,
    p: Jet,
    w: Jet,
)
    requires
        h != 0real,
        follows(psi, n, h, i, j, p),
        follows(omega, n, h, i, j, w),
        p.xx == 0real,
        p.xy == 0real,
        p.yy == 0real,
    ensures
        ({
            let (u, v) = (p.y, -p.x);
            tendency(psi, omega, n, h, nu, i, j) == -(u * w.x) - v * w.y + nu * (w.xx + w.yy)
        }),
{
    lemma_values(psi, n, h, i, j, p);
    lemma_values(omega, n, h, i, j, w);
    law_differences_exact(omega, n, h, i, j, w);
    lemma_square(h);
    lemma_whole(1);
    lemma_whole(12);
    let h2 = h * h;
    assert(h2 * 0real == 0real) by (nonlinear_arith);
    let (a, b, x, y) = (h * p.x, h * p.y, h * w.x, h * w.y);
    let r = h2 * w.xy;
    let c = p.value;
    lemma_pieces(c, a, b, x, y, r);
    let (pp, qq, v) = (h2 * w.xx, h2 * w.yy, w.value);
    let (no, so) = (v + y + qq / 2real, v - y + qq / 2real);
    let (ea, we) = (v + x + pp / 2real, v - x + pp / 2real);
    let (ta, tb) = (2real * a, 2real * b);
    let (ay, bx) = (a * y, b * x);
    assert(no * ta - so * ta == 4real * ay) by (nonlinear_arith)
        requires
            no - so == 2real * y,
            ta == 2real * a,
            ay == a * y,
    ;
    assert(ea * tb - we * tb == 4real * bx) by (nonlinear_arith)
        requires
            ea - we == 2real * x,
            tb == 2real * b,
            bx == b * x,
    ;
    let jac = arakawa(psi, omega, n, i, j);
    assert(jac == 12real * (ay - bx));
    let g = p.x * w.y - p.y * w.x;
    let (px, py, wx, wy) = (p.x, p.y, w.x, w.y);
    assert(ay == h2 * (px * wy)) by (nonlinear_arith)
        requires
            ay == (h * px) * (h * wy),
            h2 == h * h,
    ;
    assert(bx == h2 * (py * wx)) by (nonlinear_arith)
        requires
            bx == (h * py) * (h * wx),
            h2 == h * h,
    ;
    let (e, f) = (px * wy, py * wx);
    assert(jac == g * (12real * h2)) by (nonlinear_arith)
        requires
            jac == 12real * (h2 * e - h2 * f),
            g == e - f,
    ;
    let k = 12real * h2;
    let z = 1real / k;
    assert(jac * z == g) by (nonlinear_arith)
        requires
            jac == g * k,
            z == 1real / k,
            k != 0real,
    ;
    let vv = -px;
    assert(vv * wy == -(px * wy)) by (nonlinear_arith)
        requires
            vv == -px,
    ;
}

} // verus!
