//! Wind-tunnel obstacle geometry.
//!
//! An [`Object`] answers whether a world point lies inside the solid body. Two
//! shapes are supported: a circular cylinder and a NACA 4-digit airfoil (with chord,
//! position and angle of attack).
use crate::laws::shape::law_description_begins_with_code;
use crate::scalar::{nil, whole, zero, Arith, Scalar};
use crate::text::{
    all_digits, digit_of, is_digit, reads, signed_text, two_digits, write_signed, write_two_digits,
};
use vstd::prelude::*;

verus! {

/// What an obstacle is made from.
pub struct Obstacle<T> {
    /// "naca", "airfoil" or "wing" for an airfoil; anything else is a cylinder
    pub object: String,
    pub obj_x: T,
    /// height of the centre or leading edge; half a cell above mid-channel if absent
    pub obj_y: Option<T>,
    /// 4-digit code of the airfoil
    pub naca: String,
    /// angle of attack in degrees
    pub aoa: T,
    pub chord: T,
    pub diam: T,
}

#[derive(Clone)]
pub enum Object<T> {
    Cylinder { xc: T, yc: T, r: T },
    /// NACA 4-digit airfoil. Local frame: leading edge at the origin, chord along the
    /// local x axis; placed at an angle of attack (positive = nose up) by rotating the
    /// local frame clockwise about the leading edge.
    Naca4 {
        x_le: T,
        y_le: T,
        chord: T,
        sin_a: T,
        cos_a: T,
        /// max camber (fraction of chord)
        m: T,
        /// position of max camber (fraction of chord)
        p: T,
        /// max thickness (fraction of chord)
        t: T,
    },
}

impl<T: Scalar> Default for Obstacle<T> {
    /// A cylinder a fifth of the channel wide, one channel height from the inflow.
    fn default() -> (r: Obstacle<T>)
        ensures
            r.object@ == "cylinder"@,
            r.obj_x == whole::<T>(1),
            r.obj_y is None,
            r.naca@ == "0012"@,
            r.aoa == nil::<T>(),
            r.chord == whole::<T>(1),
            r.diam == T::ratio(1, 5),
    {
        Obstacle {
            object: "cylinder".to_owned(),
            obj_x: T::from_ratio(1, 1),
            obj_y: None,
            naca: "0012".to_owned(),
            aoa: zero(),
            chord: T::from_ratio(1, 1),
            diam: T::from_ratio(1, 5),
        }
    }
}

/// Degrees as radians.
pub open spec fn radians<A: Arith>(degrees: A) -> A {
    degrees * (A::half_turn() / whole::<A>(180))
}

/// Radians as degrees.
pub open spec fn degrees<A: Arith>(radians: A) -> A {
    radians * (whole::<A>(180) / A::half_turn())
}

/// Camber, its position and thickness of a 4-digit code: "2412" is 2% at 40%, 12%
/// thick. Anything malformed is a symmetric section, 12% thick.
pub open spec fn naca_code<A: Arith>(s: Seq<char>) -> (A, A, A) {
    if s.len() == 4 && all_digits(s) {
        (
            A::ratio(digit_of(s[0]), 100),
            A::ratio(digit_of(s[1]), 10),
            A::ratio(10 * digit_of(s[2]) + digit_of(s[3]), 100),
        )
    } else {
        (nil(), nil(), A::ratio(12, 100))
    }
}

/// A number held in the range from zero to one.
pub open spec fn clamped<A: Arith>(x: A) -> A {
    if x < nil::<A>() {
        nil()
    } else if whole::<A>(1) < x {
        whole(1)
    } else {
        x
    }
}

/// NACA half-thickness (fraction of chord) at `xn` of the chord, with a closed
/// trailing edge.
pub open spec fn thickness<A: Arith>(xn: A, t: A) -> A {
    let x = clamped(xn);
    whole::<A>(5) * t * (A::ratio(2969, 10000) * x.root() - A::ratio(1260, 10000) * x - A::ratio(
        3516,
        10000,
    ) * x * x + A::ratio(2843, 10000) * x * x * x - A::ratio(1036, 10000) * x * x * x * x)
}

/// Whether a number is zero.
pub open spec fn vanishes<A: Arith>(x: A) -> bool {
    x <= nil::<A>() && nil::<A>() <= x
}

/// NACA mean-camber line (fraction of chord) at `xn` of the chord.
pub open spec fn camber<A: Arith>(xn: A, m: A, p: A) -> A {
    let one = whole::<A>(1);
    let two = whole::<A>(2);
    if vanishes(m) || vanishes(p) {
        nil()
    } else if xn < p {
        (m / (p * p)) * (two * p * xn - xn * xn)
    } else {
        (m / ((one - p) * (one - p))) * ((one - two * p) + two * p * xn - xn * xn)
    }
}

/// Whether the object is an airfoil by its name.
pub open spec fn names_airfoil(object: Seq<char>) -> bool {
    object == "naca"@ || object == "airfoil"@ || object == "wing"@
}

/// The height that an obstacle is placed at.
pub open spec fn placed_y<A: Arith>(obj_y: Option<A>, ly: A, h: A) -> A {
    match obj_y {
        Some(y) => y,
        None => A::ratio(1, 2) * ly + A::ratio(1, 2) * h,
    }
}

/// Along and across the chord, from the leading edge.
pub open spec fn local<A: Arith>(dx: A, dy: A, sin_a: A, cos_a: A) -> (A, A) {
    (cos_a * dx - sin_a * dy, sin_a * dx + cos_a * dy)
}

impl<A: Arith> Object<A> {
    /// The object that a description asks for, in a channel of height `ly` with the grid
    /// distance `h`.
    pub open spec fn made(cfg: Obstacle<A>, ly: A, h: A) -> Object<A> {
        if names_airfoil(cfg.object@) {
            let (m, p, t) = naca_code::<A>(cfg.naca@);
            Object::Naca4 {
                x_le: cfg.obj_x,
                y_le: placed_y(cfg.obj_y, ly, h),
                chord: cfg.chord,
                sin_a: radians(cfg.aoa).sine(),
                cos_a: radians(cfg.aoa).cosine(),
                m,
                p,
                t,
            }
        } else {
            Object::Cylinder {
                xc: cfg.obj_x,
                yc: placed_y(cfg.obj_y, ly, h),
                r: A::ratio(1, 2) * cfg.diam,
            }
        }
    }

    /// Characteristic length for the Reynolds number: the diameter or the chord.
    pub open spec fn length(self) -> A {
        match self {
            Object::Cylinder { r, .. } => whole::<A>(2) * r,
            Object::Naca4 { chord, .. } => chord,
        }
    }

    /// The height that fixes the streamfunction of the body.
    pub open spec fn height(self) -> A {
        match self {
            Object::Cylinder { yc, .. } => yc,
            Object::Naca4 { y_le, .. } => y_le,
        }
    }

    /// A point just downstream of the body, and the length of the body.
    pub open spec fn anchor(self) -> (A, A, A) {
        match self {
            Object::Cylinder { xc, yc, r } => (xc + r, yc, whole::<A>(2) * r),
            Object::Naca4 { x_le, y_le, chord, sin_a, cos_a, .. } => (
                x_le + chord * cos_a,
                y_le - chord * sin_a,
                chord,
            ),
        }
    }

    /// Whether the object is the airfoil of a 4-digit code.
    pub open spec fn has_code(self, code: Seq<char>) -> bool {
        match self {
            Object::Cylinder { .. } => false,
            Object::Naca4 { m, p, t, .. } => {
                &&& code.len() == 4
                &&& all_digits(code)
                &&& (m, p, t) == naca_code::<A>(code)
            },
        }
    }

    /// One line about the object.
    pub open spec fn description(self) -> Seq<char> {
        match self {
            Object::Cylinder { r, .. } => "cylinder (D = "@ + (whole::<A>(2) * r).printed(3)
                + ")"@,
            Object::Naca4 { chord, m, p, t, sin_a, .. } => "NACA "@ + signed_text(
                (m * whole::<A>(100)).nearest(),
            ) + signed_text((p * whole::<A>(10)).nearest()) + two_digits(
                (t * whole::<A>(100)).nearest(),
            ) + " airfoil (chord = "@ + chord.printed(3) + ", AoA = "@ + degrees(
                sin_a.arcsine(),
            ).printed(1) + " deg)"@,
        }
    }

    /// Whether the point lies in the body.
    pub open spec fn holds(self, x: A, y: A) -> bool {
        match self {
            Object::Cylinder { xc, yc, r } => (x - xc) * (x - xc) + (y - yc) * (y - yc) <= r * r,
            Object::Naca4 { x_le, y_le, chord, sin_a, cos_a, m, p, t } => {
                let (lx, ly) = local(x - x_le, y - y_le, sin_a, cos_a);
                let xn = lx / chord;
                let half = thickness(xn, t) * chord;
                let mean = camber(xn, m, p) * chord;
                &&& !(lx < nil::<A>())
                &&& !(chord < lx)
                &&& mean - half <= ly
                &&& ly <= mean + half
            },
        }
    }
}

fn digit_at(s: &str, k: usize) -> (r: Option<u64>)
    requires
        k < s@.len(),
    ensures
        r == if is_digit(s@[k as int]) {
            Some(digit_of(s@[k as int]) as u64)
        } else {
            None
        },
{
    let c = s.get_char(k);
    if c < '0' || c > '9' {
        None
    } else {
        Some(c as u64 - '0' as u64)
    }
}

/// Parses a 4-digit NACA code.
pub fn parse_naca<T: Scalar>(code: &String) -> (r: (T, T, T))
    ensures
        r == naca_code::<T>(code@),
{
    let s = code.as_str();
    if s.unicode_len() == 4 {
        let digits: (Option<u64>, Option<u64>, Option<u64>, Option<u64>) = (
            digit_at(s, 0),
            digit_at(s, 1),
            digit_at(s, 2),
            digit_at(s, 3),
        );
        match digits {
            (Some(a), Some(b), Some(c), Some(d)) => {
                assert(all_digits(code@)) by {
                    assert forall|k: int| 0 <= k < 4 implies is_digit(#[trigger] code@[k]) by {
                        assert(k == 0 || k == 1 || k == 2 || k == 3);
                    }
                }
                return (
                    T::from_ratio(a, 100),
                    T::from_ratio(b, 10),
                    T::from_ratio(10 * c + d, 100),
                );
            },
            _ => {
                assert(!is_digit(code@[0]) || !is_digit(code@[1]) || !is_digit(code@[2])
                    || !is_digit(code@[3]));
            },
        }
    }
    (zero(), zero(), T::from_ratio(12, 100))
}

fn clamp<T: Scalar>(x: T) -> (r: T)
    ensures
        r == clamped(x),
{
    let one: T = T::from_ratio(1, 1);
    if x.less_than(zero()) {
        zero()
    } else if one.less_than(x) {
        one
    } else {
        x
    }
}

/// NACA half-thickness distribution.
pub fn naca_thickness<T: Scalar>(xn: T, t: T) -> (r: T)
    ensures
        r == thickness(xn, t),
{
    T::lawful();
    let x: T = clamp(xn);
    T::from_ratio(5, 1) * t * (T::from_ratio(2969, 10000) * x.sqrt() - T::from_ratio(1260, 10000)
        * x - T::from_ratio(3516, 10000) * x * x + T::from_ratio(2843, 10000) * x * x * x
        - T::from_ratio(1036, 10000) * x * x * x * x)
}

fn is_zero<T: Scalar>(x: T) -> (r: bool)
    ensures
        r == vanishes(x),
{
    x.at_most(zero()) && zero::<T>().at_most(x)
}

/// NACA mean-camber line.
pub fn naca_camber<T: Scalar>(xn: T, m: T, p: T) -> (r: T)
    ensures
        r == camber(xn, m, p),
{
    T::lawful();
    let one: T = T::from_ratio(1, 1);
    let two: T = T::from_ratio(2, 1);
    if is_zero(m) || is_zero(p) {
        zero()
    } else if xn.less_than(p) {
        (m / (p * p)) * (two * p * xn - xn * xn)
    } else {
        (m / ((one - p) * (one - p))) * ((one - two * p) + two * p * xn - xn * xn)
    }
}

impl<T: Scalar> Object<T> {
    /// The obstacle of a channel of height `ly` on a grid of distance `h`.
    pub fn from_config(cfg: &Obstacle<T>, ly: T, h: T) -> (r: Object<T>)
        ensures
            r == Object::made(*cfg, ly, h),
            names_airfoil(cfg.object@) ==> {
                let code = naca_code::<T>(cfg.naca@);
                r == (Object::Naca4 {
                    x_le: cfg.obj_x,
                    y_le: placed_y(cfg.obj_y, ly, h),
                    chord: cfg.chord,
                    sin_a: radians(cfg.aoa).sine(),
                    cos_a: radians(cfg.aoa).cosine(),
                    m: code.0,
                    p: code.1,
                    t: code.2,
                })
            },
            !names_airfoil(cfg.object@) ==> r == (Object::Cylinder {
                xc: cfg.obj_x,
                yc: placed_y(cfg.obj_y, ly, h),
                r: T::ratio(1, 2) * cfg.diam,
            }),
    {
        T::lawful();
        let half: T = T::from_ratio(1, 2);
        let yc: T = match cfg.obj_y {
            Some(y) => y,
            None => half * ly + half * h,
        };
        if reads(&cfg.object, "naca") || reads(&cfg.object, "airfoil") || reads(
            &cfg.object,
            "wing",
        ) {
            let (m, p, t): (T, T, T) = parse_naca(&cfg.naca);
            let a: T = cfg.aoa * (T::pi() / T::from_ratio(180, 1));
            Object::Naca4 {
                x_le: cfg.obj_x,
                y_le: yc,
                chord: cfg.chord,
                sin_a: a.sin(),
                cos_a: a.cos(),
                m,
                p,
                t,
            }
        } else {
            Object::Cylinder { xc: cfg.obj_x, yc, r: half * cfg.diam }
        }
    }

    /// Characteristic length for the Reynolds number (diameter / chord).
    pub fn char_length(&self) -> (r: T)
        ensures
            r == self.length(),
    {
        T::lawful();
        match self {
            Object::Cylinder { r, .. } => T::from_ratio(2, 1) * *r,
            Object::Naca4 { chord, .. } => *chord,
        }
    }

    /// Whether the world point lies inside the solid body.
    pub fn contains(&self, x: T, y: T) -> (r: bool)
        ensures
            r == self.holds(x, y),
    {
        T::lawful();
        match self {
            Object::Cylinder { xc, yc, r } => {
                let dx: T = x - *xc;
                let dy: T = y - *yc;
                (dx * dx + dy * dy).at_most(*r * *r)
            },
            Object::Naca4 { x_le, y_le, chord, sin_a, cos_a, m, p, t } => {
                let px: T = x - *x_le;
                let py: T = y - *y_le;
                let lx: T = *cos_a * px - *sin_a * py;
                let ly: T = *sin_a * px + *cos_a * py;
                if lx.less_than(zero()) || chord.less_than(lx) {
                    return false;
                }
                let xn: T = lx / *chord;
                let yt: T = naca_thickness(xn, *t) * *chord;
                let mean: T = naca_camber(xn, *m, *p) * *chord;
                (mean - yt).at_most(ly) && ly.at_most(mean + yt)
            },
        }
    }

    /// Height that fixes the streamfunction value carried by the body.
    pub fn y_ref(&self) -> (r: T)
        ensures
            r == self.height(),
    {
        match self {
            Object::Cylinder { yc, .. } => *yc,
            Object::Naca4 { y_le, .. } => *y_le,
        }
    }

    /// Anchor just downstream of the body, used to seed the wake: its position and the
    /// length of the body.
    pub fn wake_anchor(&self) -> (r: (T, T, T))
        ensures
            r == self.anchor(),
    {
        T::lawful();
        match self {
            Object::Cylinder { xc, yc, r } => (*xc + *r, *yc, T::from_ratio(2, 1) * *r),
            Object::Naca4 { x_le, y_le, chord, sin_a, cos_a, .. } => (
                *x_le + *chord * *cos_a,
                *y_le - *chord * *sin_a,
                *chord,
            ),
        }
    }

    /// One line about the object.
    pub fn describe(&self) -> (r: String)
        ensures
            r@ == self.description(),
            forall|code: Seq<char>|
                #![trigger self.has_code(code)]
                self.has_code(code) ==> ("NACA "@ + code + " airfoil (chord = "@).is_prefix_of(r@),
    {
        T::lawful();
        T::faithful();
        proof {
            assert forall|code: Seq<char>| #[trigger] self.has_code(code) implies ("NACA "@ + code
                + " airfoil (chord = "@).is_prefix_of(self.description()) by {
                law_description_begins_with_code(*self, code);
            }
        }
        match self {
            Object::Cylinder { r, .. } => {
                let size: String = (T::from_ratio(2, 1) * *r).print(3);
                "cylinder (D = ".to_owned().concat(size.as_str()).concat(")")
            },
            Object::Naca4 { chord, m, p, t, sin_a, .. } => {
                let camber: String = write_signed((*m * T::from_ratio(100, 1)).rounded());
                let position: String = write_signed((*p * T::from_ratio(10, 1)).rounded());
                let thickness: String = write_two_digits((*t * T::from_ratio(100, 1)).rounded());
                let length: String = chord.print(3);
                let angle: T = sin_a.asin() * (T::from_ratio(180, 1) / T::pi());
                let tilt: String = angle.print(1);
                "NACA ".to_owned().concat(camber.as_str()).concat(position.as_str()).concat(
                    thickness.as_str(),
                ).concat(" airfoil (chord = ").concat(length.as_str()).concat(", AoA = ").concat(
                    tilt.as_str(),
                ).concat(" deg)")
            },
        }
    }
}

} // verus!
