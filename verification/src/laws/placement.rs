//! Where an obstacle stands and which points it covers, in exact arithmetic.
use crate::geometry::{
    camber, degrees, local, naca_code, names_airfoil, placed_y, radians, thickness, Object,
    Obstacle,
};
use crate::laws::algebra::{
    lemma_associate, lemma_commute, lemma_products, lemma_quotient, lemma_swap, lemma_times_minus,
    lemma_times_plus,
};
use crate::laws::exact::{is_arcsine, lemma_nil, lemma_whole, trigonometry};
use crate::text::{all_digits, digit_of};
use vstd::prelude::*;

verus! {

/// The digits of a code: hundredths of camber, tenths of its position, hundredths of
/// thickness. Anything else is a section of twelve hundredths without camber.
pub proof fn law_code_digits(code: Seq<char>)
    ensures
        ({
            let (m, p, t) = naca_code::<real>(code);
            let well = code.len() == 4 && all_digits(code);
            &&& well ==> 100real * m == digit_of(code[0]) as real
            &&& well ==> 10real * p == digit_of(code[1]) as real
            &&& well ==> 100real * t == (10 * digit_of(code[2]) + digit_of(code[3])) as real
            &&& !well ==> m == 0real && p == 0real && 100real * t == 12real
        }),
{
    lemma_nil();
    lemma_quotient(12int as real, 100int as real);
    if code.len() == 4 && all_digits(code) {
        lemma_quotient(digit_of(code[0]) as real, 100int as real);
        lemma_quotient(digit_of(code[1]) as real, 10int as real);
        lemma_quotient((10 * digit_of(code[2]) + digit_of(code[3])) as real, 100int as real);
    }
}

/// A half turn is 180 degrees, and the two conversions undo each other.
pub proof fn law_degrees(x: real)
    requires
        trigonometry().valid(),
    ensures
        180real * radians(x) == x * trigonometry().pi,
        degrees(radians(x)) == x,
        radians(degrees(x)) == x,
{
    lemma_whole(180);
    let pi = trigonometry().pi;
    let (a, b) = (pi / 180real, 180real / pi);
    assert(180real * a == pi);
    assert(b * pi == 180real) by (nonlinear_arith)
        requires
            b == 180real / pi,
            0real < pi,
    ;
    assert(180real * (x * a) == x * pi) by (nonlinear_arith)
        requires
            180real * a == pi,
    ;
    assert(b * (180real * a) == 180real * (b * a)) by (nonlinear_arith);
    lemma_commute(a, b);
    lemma_associate(x, a, b);
    lemma_associate(x, b, a);
    lemma_commute(a, b);
    assert(x * 1real == x);
}

/// A cylinder covers the points that are no farther from its centre than its radius.
pub proof fn law_cylinder_is_disc(xc: real, yc: real, r: real, d: real, a: real, b: real)
    requires
        0real <= r,
        0real <= d,
        a * a + b * b == 1real,
    ensures
        (Object::Cylinder { xc, yc, r }).holds(xc + d * a, yc + d * b) <==> d <= r,
{
    let (x, y) = (d * a, d * b);
    assert(xc + x - xc == x && yc + y - yc == y);
    let (aa, bb, dd) = (a * a, b * b, d * d);
    lemma_products(d, a, d, a);
    lemma_products(d, b, d, b);
    lemma_times_plus(dd, aa, bb);
    assert(dd * 1real == dd);
    if d <= r {
        assert(d * d <= r * r) by (nonlinear_arith)
            requires
                0real <= d <= r,
        ;
    } else {
        assert(r * r < d * d) by (nonlinear_arith)
            requires
                0real <= r < d,
        ;
    }
}

/// The point `s` along the chord and `q` across it lies in an airfoil where `s` is on the
/// chord and `q` is no farther from the mean line than the half-thickness. The chord points
/// downstream and, at a positive angle, down.
pub proof fn law_airfoil_covers(
    x_le: real,
    y_le: real,
    chord: real,
    sin_a: real,
    cos_a: real,
    m: real,
    p: real,
    t: real,
    s: real,
    q: real,
)
    requires
        0real < chord,
        sin_a * sin_a + cos_a * cos_a == 1real,
    ensures
        ({
            let wing = Object::Naca4 { x_le, y_le, chord, sin_a, cos_a, m, p, t };
            let (x, y) = (s * cos_a + q * sin_a, q * cos_a - s * sin_a);
            let at = s / chord;
            let (mean, half) = (camber(at, m, p) * chord, thickness(at, t) * chord);
            wing.holds(x_le + x, y_le + y) <==> 0real <= s <= chord && mean - half <= q <= mean
                + half
        }),
{
    lemma_nil();
    let (x, y) = (s * cos_a + q * sin_a, q * cos_a - s * sin_a);
    assert(x_le + x - x_le == x && y_le + y - y_le == y);
    let (ss, cc, sc) = (sin_a * sin_a, cos_a * cos_a, sin_a * cos_a);
    lemma_times_plus(cos_a, s * cos_a, q * sin_a);
    lemma_times_plus(sin_a, s * cos_a, q * sin_a);
    lemma_times_minus(cos_a, q * cos_a, s * sin_a);
    lemma_times_minus(sin_a, q * cos_a, s * sin_a);
    lemma_swap(cos_a, s, cos_a);
    lemma_swap(cos_a, q, sin_a);
    lemma_swap(sin_a, s, cos_a);
    lemma_swap(sin_a, q, sin_a);
    lemma_swap(cos_a, q, cos_a);
    lemma_swap(cos_a, s, sin_a);
    lemma_swap(sin_a, q, cos_a);
    lemma_swap(sin_a, s, sin_a);
    lemma_commute(sin_a, cos_a);
    assert(cos_a * x == s * cc + q * sc);
    assert(sin_a * y == q * sc - s * ss);
    assert(sin_a * x == s * sc + q * ss);
    assert(cos_a * y == q * cc - s * sc);
    lemma_times_plus(s, cc, ss);
    lemma_times_plus(q, cc, ss);
    assert(s * 1real == s && q * 1real == q);
    assert(local(x, y, sin_a, cos_a) == (s, q));
}

/// A quarter turn has no cosine.
proof fn lemma_quarter()
    requires
        trigonometry().valid(),
    ensures
        (trigonometry().c)(trigonometry().pi / 2real) == 0real,
        0real < (trigonometry().s)(trigonometry().pi / 2real),
{
    let t = trigonometry();
    let p = t.pi / 2real;
    assert(t.adds(p, p) && t.adds(p, -p) && t.mirrors(p));
    assert(p + p == t.pi && p + -p == 0real);
    let (c, s) = ((t.c)(p), (t.s)(p));
    assert(0real < (t.s)(p));
    let (cc, ss) = (c * c, s * s);
    assert(s * -s == -ss) by (nonlinear_arith)
        requires
            ss == s * s,
    ;
    assert(cc - ss == -1real && cc + ss == 1real);
    assert(c == 0real) by (nonlinear_arith)
        requires
            c * c == 0real,
    ;
}

/// From minus to plus a quarter turn the sine grows.
proof fn lemma_sine_grows(a: real, b: real)
    requires
        trigonometry().valid(),
        a < b,
        -trigonometry().pi <= a + a,
        b + b <= trigonometry().pi,
    ensures
        (trigonometry().s)(a) < (trigonometry().s)(b),
{
    let t = trigonometry();
    let (m, d, p) = ((a + b) / 2real, (b - a) / 2real, t.pi / 2real);
    lemma_quarter();
    assert(m + d == b && m + -d == a);
    assert(t.adds(m, d) && t.adds(m, -d) && t.mirrors(d) && t.adds(p, -m) && t.mirrors(m));
    let (sm, cm, sd, cd) = ((t.s)(m), (t.c)(m), (t.s)(d), (t.c)(d));
    assert(0real < sd);
    // the cosine between is positive
    let sp = (t.s)(p);
    assert(0real < (t.s)(p + -m));
    let sn = (t.s)(-m);
    assert((t.s)(p + -m) == sp * cm + 0real * sn);
    assert(0real * sn == 0real) by (nonlinear_arith);
    assert(0real < cm) by (nonlinear_arith)
        requires
            0real < sp * cm,
            0real < sp,
    ;
    assert((t.s)(b) == sm * cd + cm * sd);
    assert((t.s)(a) == sm * cd + cm * (-sd));
    assert(0real < cm * sd && cm * (-sd) == -(cm * sd)) by (nonlinear_arith)
        requires
            0real < cm,
            0real < sd,
    ;
}

/// The arcsine undoes the sine from minus to plus a quarter turn.
proof fn lemma_arcsine(x: real)
    requires
        trigonometry().valid(),
        -trigonometry().pi <= x + x <= trigonometry().pi,
    ensures
        <real as crate::scalar::Arith>::arcsine(<real as crate::scalar::Arith>::sine(x)) == x,
{
    let s = <real as crate::scalar::Arith>::sine(x);
    assert(is_arcsine(s, x));
    let a = <real as crate::scalar::Arith>::arcsine(s);
    assert(is_arcsine(s, a));
    if a < x {
        lemma_sine_grows(a, x);
    }
    if x < a {
        lemma_sine_grows(x, a);
    }
}

/// The height of an obstacle: the one that is asked for, else half a cell above the middle of
/// the channel.
pub proof fn law_placement(y: real, ly: real, h: real)
    ensures
        placed_y(Some(y), ly, h) == y,
        2real * placed_y(None::<real>, ly, h) == ly + h,
{
    let q = 1int as real / 2int as real;
    assert(2real * (q * ly) == ly && 2real * (q * h) == h) by (nonlinear_arith)
        requires
            2real * q == 1real,
    ;
}

/// A cylinder is as long as its diameter. Its streamline runs at the height of its centre, the
/// wake starts at its rear end, and it is described by its diameter.
pub proof fn law_cylinder_made(cfg: Obstacle<real>, ly: real, h: real)
    requires
        !names_airfoil(cfg.object@),
    ensures
        ({
            let o = Object::made(cfg, ly, h);
            let y = placed_y(cfg.obj_y, ly, h);
            &&& o is Cylinder
            &&& o->xc == cfg.obj_x
            &&& o->yc == y
            &&& o.length() == cfg.diam
            &&& o.height() == y
            &&& 2real * (o.anchor().0 - cfg.obj_x) == cfg.diam
            &&& o.anchor().1 == y
            &&& o.anchor().2 == cfg.diam
            &&& o.description() == "cylinder (D = "@ + <real as crate::scalar::Arith>::printed(
                cfg.diam,
                3,
            ) + ")"@
        }),
{
    lemma_whole(2);
    let q = 1int as real / 2int as real;
    let d = cfg.diam;
    assert(2real * (q * d) == d) by (nonlinear_arith)
        requires
            2real * q == 1real,
    ;
}

/// An airfoil is as long as its chord. Its streamline runs at the height of its leading edge,
/// the wake starts at its trailing edge, and it is described by its chord and its angle of
/// attack. Its section is that of its code.
pub proof fn law_airfoil_made(cfg: Obstacle<real>, ly: real, h: real)
    requires
        trigonometry().valid(),
        names_airfoil(cfg.object@),
        -90real <= cfg.aoa <= 90real,
    ensures
        ({
            let o = Object::made(cfg, ly, h);
            let y = placed_y(cfg.obj_y, ly, h);
            let angle = cfg.aoa * trigonometry().pi / 180real;
            let (s, c) = ((trigonometry().s)(angle), (trigonometry().c)(angle));
            let tail = " airfoil (chord = "@ + <real as crate::scalar::Arith>::printed(
                cfg.chord,
                3,
            ) + ", AoA = "@ + <real as crate::scalar::Arith>::printed(cfg.aoa, 1) + " deg)"@;
            &&& o is Naca4
            &&& o->x_le == cfg.obj_x
            &&& o->y_le == y
            &&& o->sin_a == s && o->cos_a == c
            &&& (o->m, o->p, o->t) == naca_code::<real>(cfg.naca@)
            &&& o.length() == cfg.chord
            &&& o.height() == y
            &&& o.anchor() == (cfg.obj_x + cfg.chord * c, y - cfg.chord * s, cfg.chord)
            &&& tail.is_suffix_of(o.description())
        }),
{
    let pi = trigonometry().pi;
    let x = cfg.aoa;
    law_degrees(x);
    let a = radians(x);
    assert(a == x * pi / 180real);
    let y = x * pi;
    assert(-90real * pi <= y <= 90real * pi) by (nonlinear_arith)
        requires
            y == x * pi,
            -90real <= x <= 90real,
            0real < pi,
    ;
    lemma_arcsine(a);
    let o = Object::made(cfg, ly, h);
    let text = o.description();
    let tail = " airfoil (chord = "@ + <real as crate::scalar::Arith>::printed(cfg.chord, 3)
        + ", AoA = "@ + <real as crate::scalar::Arith>::printed(cfg.aoa, 1) + " deg)"@;
    assert(text.skip(text.len() - tail.len()) =~= tail);
    assert(tail =~= text.subrange(text.len() - tail.len(), text.len() as int));
}

} // verus!
