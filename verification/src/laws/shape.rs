//! The shapes of obstacles in exact arithmetic.
use crate::geometry::{camber, clamped, local, thickness, Object};
use crate::laws::algebra::{lemma_associate, lemma_commute, lemma_times_plus};
use crate::laws::exact::{is_nearest, is_root, lemma_nil, lemma_whole};
use crate::scalar::{keeps_hundredths, there_and_back};
use crate::text::{digit_char, digit_of, digits_text, is_digit, signed_text, two_digits};
use vstd::prelude::*;

verus! {

proof fn lemma_root_unit()
    ensures
        <real as crate::scalar::Arith>::root(0real) == 0real,
        <real as crate::scalar::Arith>::root(1real) == 1real,
{
    assert(0real * 0real == 0real);
    assert(is_root(0real, 0real));
    let r = <real as crate::scalar::Arith>::root(0real);
    assert(is_root(0real, r));
    assert(r == 0real) by (nonlinear_arith)
        requires
            r * r == 0real,
    ;
    assert(1real * 1real == 1real);
    assert(is_root(1real, 1real));
    let s = <real as crate::scalar::Arith>::root(1real);
    assert(is_root(1real, s));
    assert(s == 1real) by (nonlinear_arith)
        requires
            s * s == 1real,
            0real <= s,
    ;
}

/// An airfoil is closed at both ends: it has no thickness at the leading and at the
/// trailing edge.
pub proof fn law_closed_edges(t: real)
    ensures
        thickness(0real, t) == 0real,
        thickness(1real, t) == 0real,
{
    lemma_root_unit();
    lemma_nil();
    lemma_whole(1);
    lemma_whole(5);
    let a = 2969int as real / 10000int as real;
    let b = 1260int as real / 10000int as real;
    let c = 3516int as real / 10000int as real;
    let d = 2843int as real / 10000int as real;
    let e = 1036int as real / 10000int as real;
    let f = 5real * t;
    assert(clamped(0real) == 0real && clamped(1real) == 1real);
    assert(a * 0real - b * 0real - c * 0real * 0real + d * 0real * 0real * 0real - e * 0real * 0real
        * 0real * 0real == 0real);
    assert(a * 1real - b * 1real - c * 1real * 1real + d * 1real * 1real * 1real - e * 1real * 1real
        * 1real * 1real == 0real);
    assert(f * 0real == 0real) by (nonlinear_arith);
}

/// The mean line of an airfoil: a section without camber has none, and with its camber
/// `m` at `p` it starts and ends on the chord and is `m` at `p`.
pub proof fn law_mean_line(m: real, p: real, xn: real)
    ensures
        m == 0real ==> camber(xn, m, p) == 0real,
        0real < p < 1real ==> camber(0real, m, p) == 0real,
        0real < p < 1real ==> camber(1real, m, p) == 0real,
        0real < p < 1real ==> camber(p, m, p) == m,
{
    lemma_nil();
    lemma_whole(1);
    lemma_whole(2);
    if 0real < p < 1real && m != 0real {
        let g = m / (p * p);
        assert(2real * p * 0real - 0real * 0real == 0real) by (nonlinear_arith);
        assert(g * 0real == 0real) by (nonlinear_arith);
        let s = (1real - p) * (1real - p);
        let k = m / s;
        assert((1real - 2real * p) + 2real * p * 1real - 1real * 1real == 0real) by (nonlinear_arith);
        assert(k * 0real == 0real) by (nonlinear_arith);
        assert((1real - 2real * p) + 2real * p * p - p * p == s) by (nonlinear_arith)
            requires
                s == (1real - p) * (1real - p),
        ;
        assert(s != 0real) by (nonlinear_arith)
            requires
                s == (1real - p) * (1real - p),
                p < 1real,
        ;
        assert(k * s == m) by (nonlinear_arith)
            requires
                k == m / s,
                s != 0real,
        ;
    }
}

/// In exact arithmetic hundredths are kept.
pub proof fn law_exact_keeps_hundredths()
    ensures
        keeps_hundredths::<real>(),
{
    assert forall|d: int, unit: int|
        0 <= d && (unit == 100 || unit == 10) implies #[trigger] there_and_back::<real>(d, unit)
        == d by {
        lemma_whole(unit);
        let (x, u) = (d as real, unit as real);
        assert(x / u * u == x) by (nonlinear_arith)
            requires
                u != 0real,
        ;
        assert(is_nearest(x, d));
        let k = <real as crate::scalar::Arith>::nearest(x);
        assert(is_nearest(x, k));
        let kr = k as real;
        assert(x - 1real < kr && kr < x + 1real);
        assert(d - 1 < k < d + 1);
    }
}

proof fn lemma_digit(c: char)
    requires
        is_digit(c),
    ensures
        digit_char(digit_of(c)) == c,
        0 <= digit_of(c) < 10,
        signed_text(digit_of(c)) == seq![c],
{
}

/// The description of an airfoil begins with its code, leading zeros and all.
pub proof fn law_description_begins_with_code<A: crate::scalar::Arith>(
    object: Object<A>,
    code: Seq<char>,
)
    requires
        object.has_code(code),
        keeps_hundredths::<A>(),
    ensures
        ("NACA "@ + code + " airfoil (chord = "@).is_prefix_of(object.description()),
{
    assert(is_digit(code[0]) && is_digit(code[1]) && is_digit(code[2]) && is_digit(code[3]));
    lemma_digit(code[0]);
    lemma_digit(code[1]);
    lemma_digit(code[2]);
    lemma_digit(code[3]);
    let (a, b) = (digit_of(code[0]), digit_of(code[1]));
    let k = 10 * digit_of(code[2]) + digit_of(code[3]);
    assert(there_and_back::<A>(a, 100) == a);
    assert(there_and_back::<A>(b, 10) == b);
    assert(there_and_back::<A>(k, 100) == k);
    assert(two_digits(k) =~= seq![code[2], code[3]]) by {
        reveal_strlit("0");
        reveal_with_fuel(digits_text, 3);
        if k < 10 {
            assert(digit_of(code[2]) == 0);
        } else {
            assert(k / 10 == digit_of(code[2]) && k % 10 == digit_of(code[3]));
        }
    }
    assert(signed_text(a) + signed_text(b) + two_digits(k) =~= code);
    let text = object.description();
    let head = "NACA "@ + code + " airfoil (chord = "@;
    assert("NACA "@ + signed_text(a) + signed_text(b) + two_digits(k) + " airfoil (chord = "@
        =~= head);
    assert(text.take(head.len() as int) =~= head);
}

/// The centre of a cylinder is a point of it.
pub proof fn law_cylinder_centre(xc: real, yc: real, r: real)
    ensures
        (Object::Cylinder { xc, yc, r }).holds(xc, yc),
{
    assert(0real * 0real == 0real);
    assert(r * r >= 0real) by (nonlinear_arith);
}

/// The leading edge and the trailing edge, where the wake is seeded, are points of an
/// airfoil.
pub proof fn law_airfoil_edges(
    x_le: real,
    y_le: real,
    chord: real,
    sin_a: real,
    cos_a: real,
    m: real,
    p: real,
    t: real,
)
    requires
        0real < chord,
        sin_a * sin_a + cos_a * cos_a == 1real,
        0real < p < 1real || m == 0real,
    ensures
        (Object::Naca4 { x_le, y_le, chord, sin_a, cos_a, m, p, t }).holds(x_le, y_le),
        (Object::Naca4 { x_le, y_le, chord, sin_a, cos_a, m, p, t }).holds(
            x_le + chord * cos_a,
            y_le - chord * sin_a,
        ),
{
    lemma_nil();
    law_closed_edges(t);
    law_mean_line(m, p, 0real);
    law_mean_line(m, p, 1real);
    assert(cos_a * 0real == 0real && sin_a * 0real == 0real && 0real * chord == 0real)
        by (nonlinear_arith);
    assert(0real / chord == 0real) by (nonlinear_arith)
        requires
            0real < chord,
    ;
    assert(chord / chord == 1real) by (nonlinear_arith)
        requires
            0real < chord,
    ;
    assert(local(0real, 0real, sin_a, cos_a) == (0real, 0real));
    let (dx, dy) = (chord * cos_a, -(chord * sin_a));
    // along the chord
    lemma_commute(chord, cos_a);
    lemma_commute(chord, sin_a);
    lemma_associate(cos_a, cos_a, chord);
    lemma_associate(sin_a, sin_a, chord);
    lemma_commute(cos_a * cos_a, chord);
    lemma_commute(sin_a * sin_a, chord);
    lemma_times_plus(chord, cos_a * cos_a, sin_a * sin_a);
    assert(cos_a * dx == cos_a * cos_a * chord);
    let q = sin_a * chord;
    assert(sin_a * -q == -(sin_a * q)) by (nonlinear_arith);
    assert(cos_a * -q == -(cos_a * q)) by (nonlinear_arith);
    assert(chord * 1real == chord);
    assert(cos_a * dx - sin_a * dy == chord);
    // across the chord
    lemma_associate(sin_a, cos_a, chord);
    lemma_associate(cos_a, sin_a, chord);
    lemma_commute(sin_a, cos_a);
    assert(sin_a * dx + cos_a * dy == 0real);
    assert(x_le + chord * cos_a - x_le == dx);
    assert(y_le - chord * sin_a - y_le == dy);
    assert(local(dx, dy, sin_a, cos_a) == (chord, 0real));
}

} // verus!
