//! Fixed-point numbers: a reproducible arithmetic that gives the same bits on
//! every machine.
use crate::scalar::{keeps_hundredths, there_and_back, whole, Arith, Scalar};
use crate::text::{
    counted, digits_text, padded_text, parse_count, write_count, write_padded,
};
use std::ops::{Add, Div, Mul, Neg, Sub};
use vstd::prelude::*;
use vstd::std_specs::ops::{AddSpecImpl, DivSpecImpl, MulSpecImpl, NegSpecImpl, SubSpecImpl};

verus! {

/// Number of steps of a [`Fixed`] per unit.
pub const ONE: i128 = 4294967296;

/// The number `raw / ONE`. Results are rounded down to a multiple of `1 / ONE` and
/// held at the ends of the range where they lie outside it.
#[derive(Clone, Copy, Debug, PartialEq, Eq, Structural)]
pub struct Fixed {
    pub raw: i64,
}

/// The value of the range that is nearest to `x`.
pub open spec fn held(x: int) -> Fixed {
    if x < i64::MIN {
        Fixed { raw: i64::MIN }
    } else if x > i64::MAX {
        Fixed { raw: i64::MAX }
    } else {
        Fixed { raw: x as i64 }
    }
}

/// The quotient `x / y` rounded down.
pub open spec fn floor_quotient(x: int, y: int) -> int {
    if y > 0 {
        x / y
    } else {
        (-x) / (-y)
    }
}

/// `r` is the square root of `x` rounded down.
pub open spec fn is_floor_root(x: int, r: int) -> bool {
    0 <= r && r * r <= x < (r + 1) * (r + 1)
}

/// The square root of `x` rounded down.
pub open spec fn floor_root(x: int) -> int {
    choose|r: int| is_floor_root(x, r)
}

impl Arith for Fixed {
    open spec fn spec_add(self, rhs: Fixed) -> Fixed {
        held(self.raw + rhs.raw)
    }

    open spec fn spec_sub(self, rhs: Fixed) -> Fixed {
        held(self.raw - rhs.raw)
    }

    open spec fn spec_mul(self, rhs: Fixed) -> Fixed {
        held((self.raw * rhs.raw) / (ONE as int))
    }

    /// A quotient by zero takes the end of the range that the dividend points to.
    open spec fn spec_euclidean_or_real_div(self, rhs: Fixed) -> Fixed {
        if rhs.raw == 0 {
            Fixed {
                raw: if self.raw < 0 {
                    i64::MIN
                } else {
                    i64::MAX
                },
            }
        } else {
            held(floor_quotient(self.raw * (ONE as int), rhs.raw as int))
        }
    }

    open spec fn spec_neg(self) -> Fixed {
        held(-self.raw)
    }

    open spec fn spec_lt(self, rhs: Fixed) -> bool {
        self.raw < rhs.raw
    }

    open spec fn spec_le(self, rhs: Fixed) -> bool {
        self.raw <= rhs.raw
    }

    open spec fn ratio(num: int, den: int) -> Fixed {
        if den == 0 {
            Fixed { raw: i64::MAX }
        } else {
            held(floor_quotient(num * (ONE as int), den))
        }
    }

    /// A negative number has the root zero.
    open spec fn root(self) -> Fixed {
        if self.raw <= 0 {
            Fixed { raw: 0 }
        } else {
            held(floor_root(self.raw * (ONE as int)))
        }
    }

    open spec fn tiny() -> Fixed {
        Fixed { raw: 1 }
    }

    open spec fn half_turn() -> Fixed {
        Fixed { raw: HALF_TURN as i64 }
    }

    open spec fn sine(self) -> Fixed {
        sine_of(self.raw as int)
    }

    /// A quarter turn later the sine is what the cosine is now.
    open spec fn cosine(self) -> Fixed {
        sine_of(self.raw + QUARTER_TURN)
    }

    /// By a cubic times a root, good to four places. Beyond one the angle is a quarter
    /// turn.
    open spec fn arcsine(self) -> Fixed {
        if self.raw < 0 {
            -arcsine_up(-self)
        } else {
            arcsine_up(self)
        }
    }

    /// Halves are rounded away from zero.
    open spec fn nearest(self) -> int {
        let size = if self.raw < 0 {
            -self.raw
        } else {
            self.raw as int
        };
        let k = (size + HALF) / (ONE as int);
        if self.raw < 0 {
            -k
        } else if k > i32::MAX {
            i32::MAX as int
        } else {
            k
        }
    }

    open spec fn printed(self, places: int) -> Seq<char> {
        if self.raw < 0 {
            "-"@ + places_text(-self.raw, places)
        } else {
            places_text(self.raw as int, places)
        }
    }
}

/// Half of [`ONE`].
pub const HALF: i128 = 2147483648;

/// Steps in a half turn and in a quarter turn of radians.
pub const HALF_TURN: i128 = 13493037705;

pub const QUARTER_TURN: i128 = 6746518852;

/// The sine of an angle from zero to a quarter turn, by the first terms of its series.
pub open spec fn sine_up(x: Fixed) -> Fixed {
    let q = x * x;
    let one = Fixed::ratio(1, 1);
    x * (one - q / Fixed::ratio(6, 1) * (one - q / Fixed::ratio(20, 1) * (one - q / Fixed::ratio(
        42,
        1,
    ) * (one - q / Fixed::ratio(72, 1) * (one - q / Fixed::ratio(110, 1) * (one - q / Fixed::ratio(
        156,
        1,
    )))))))
}

/// The sine of an angle below a half turn.
pub open spec fn sine_half(raw: int) -> Fixed {
    if raw <= QUARTER_TURN {
        sine_up(held(raw))
    } else {
        sine_up(held(HALF_TURN - raw))
    }
}

/// The sine of any angle: whole turns are taken off, and the second half of a turn is
/// the first with the sign changed.
pub open spec fn sine_of(raw: int) -> Fixed {
    let r = raw % (2 * HALF_TURN);
    if r < HALF_TURN {
        sine_half(r)
    } else {
        -sine_half(r - HALF_TURN)
    }
}

/// The angle of a sine that is not negative.
pub open spec fn arcsine_up(x: Fixed) -> Fixed {
    let one = Fixed::ratio(1, 1);
    let quarter = Fixed { raw: QUARTER_TURN as i64 };
    if one.raw <= x.raw {
        quarter
    } else {
        quarter - (one - x).root() * (Fixed::ratio(15707288, 10000000) - x * (Fixed::ratio(
            2121144,
            10000000,
        ) - x * (Fixed::ratio(742610, 10000000) - x * Fixed::ratio(187293, 10000000))))
    }
}

/// Ten to a power.
pub open spec fn tens(places: int) -> int
    decreases places,
{
    if places <= 0 {
        1
    } else {
        10 * tens(places - 1)
    }
}

/// `size / ONE` in decimals, rounded to so many places.
pub open spec fn places_text(size: int, places: int) -> Seq<char> {
    let unit = tens(places);
    let steps = (size * unit + HALF) / (ONE as int);
    if places <= 0 {
        digits_text(steps)
    } else {
        digits_text(steps / unit) + "."@ + padded_text(steps % unit, places)
    }
}

fn sine_up_of(x: Fixed) -> (r: Fixed)
    ensures
        r == sine_up(x),
{
    let q: Fixed = x * x;
    let one: Fixed = Fixed::from_ratio(1, 1);
    x * (one - q / Fixed::from_ratio(6, 1) * (one - q / Fixed::from_ratio(20, 1) * (one - q
        / Fixed::from_ratio(42, 1) * (one - q / Fixed::from_ratio(72, 1) * (one - q
        / Fixed::from_ratio(110, 1) * (one - q / Fixed::from_ratio(156, 1)))))))
}

fn sine_half_of(raw: i128) -> (r: Fixed)
    requires
        0 <= raw < HALF_TURN,
    ensures
        r == sine_half(raw as int),
{
    if raw <= QUARTER_TURN {
        sine_up_of(hold(raw))
    } else {
        sine_up_of(hold(HALF_TURN - raw))
    }
}

fn sine_at(raw: i128) -> (r: Fixed)
    requires
        -0x1_0000_0000_0000_0000 <= raw <= 0x1_0000_0000_0000_0000,
    ensures
        r == sine_of(raw as int),
{
    let turn: i128 = 2 * HALF_TURN;
    let turns: i128 = divide_down(raw, turn);
    proof {
        vstd::arithmetic::div_mod::lemma_fundamental_div_mod(raw as int, turn as int);
        vstd::arithmetic::div_mod::lemma_mod_bound(raw as int, turn as int);
    }
    let rest: i128 = raw - turns * turn;
    if rest < HALF_TURN {
        sine_half_of(rest)
    } else {
        sine_half_of(rest - HALF_TURN).neg()
    }
}

fn arcsine_up_of(x: Fixed) -> (r: Fixed)
    ensures
        r == arcsine_up(x),
{
    let one: Fixed = Fixed::from_ratio(1, 1);
    let quarter: Fixed = Fixed { raw: QUARTER_TURN as i64 };
    if one.raw <= x.raw {
        quarter
    } else {
        quarter - (one - x).sqrt() * (Fixed::from_ratio(15707288, 10000000) - x * (
        Fixed::from_ratio(2121144, 10000000) - x * (Fixed::from_ratio(742610, 10000000) - x
            * Fixed::from_ratio(187293, 10000000))))
    }
}

fn ten_to(places: usize) -> (r: u128)
    requires
        places <= 9,
    ensures
        r == tens(places as int),
        1 <= r <= 1000000000,
{
    proof {
        reveal_with_fuel(tens, 11);
    }
    let mut r: u128 = 1;
    let mut k: usize = 0;
    while k < places
        invariant
            k <= places <= 9,
            r == tens(k as int),
            1 <= r,
            forall|c: int| 0 <= c <= 9 ==> #[trigger] tens(c) <= 1000000000,
        decreases places - k,
    {
        assert(tens(k + 1) == 10 * tens(k as int));
        r = 10 * r;
        k = k + 1;
    }
    r
}

fn write_places(size: u128, places: usize) -> (r: String)
    requires
        size <= 0x8000_0000_0000_0000,
        places <= 9,
    ensures
        r@ == places_text(size as int, places as int),
{
    let unit: u128 = ten_to(places);
    assert(size * unit <= 0x8000_0000_0000_0000 * 1000000000) by (nonlinear_arith)
        requires
            0 <= size <= 0x8000_0000_0000_0000,
            1 <= unit <= 1000000000,
    ;
    let steps: u128 = (size * unit + HALF as u128) / (ONE as u128);
    if places == 0 {
        write_count(steps)
    } else {
        let head: String = write_count(steps / unit);
        let tail: String = write_padded(steps % unit, places);
        head.concat(".").concat(tail.as_str())
    }
}

fn hold(x: i128) -> (r: Fixed)
    ensures
        r == held(x as int),
{
    if x < -9223372036854775808 {
        Fixed { raw: i64::MIN }
    } else if x > 9223372036854775807 {
        Fixed { raw: i64::MAX }
    } else {
        Fixed { raw: x as i64 }
    }
}

proof fn lemma_floor_root_unique(x: int, a: int, b: int)
    requires
        is_floor_root(x, a),
        is_floor_root(x, b),
    ensures
        a == b,
{
    assert(a < b + 1 && b < a + 1) by (nonlinear_arith)
        requires
            0 <= a,
            0 <= b,
            a * a < (b + 1) * (b + 1),
            b * b < (a + 1) * (a + 1),
    ;
}

/// The quotient `x / y` rounded down.
fn divide_down(x: i128, y: i128) -> (r: i128)
    requires
        y != 0,
        -0x4000_0000_0000_0000_0000_0000_0000_0000 <= x
            <= 0x4000_0000_0000_0000_0000_0000_0000_0000,
        -0x8000_0000_0000_0000 <= y <= 0x8000_0000_0000_0000,
    ensures
        r == floor_quotient(x as int, y as int),
{
    let (num, den): (i128, i128) = if y > 0 {
        (x, y)
    } else {
        (-x, -y)
    };
    let d: u128 = den as u128;
    if num >= 0 {
        let q: u128 = (num as u128) / d;
        assert(q <= num) by (nonlinear_arith)
            requires
                q == (num as int) / (d as int),
                num >= 0,
                d > 0,
        ;
        q as i128
    } else {
        let m: u128 = (-num) as u128;
        let q: u128 = (m + d - 1) / d;
        proof {
            lemma_round_up(m as int, d as int);
        }
        -(q as i128)
    }
}

proof fn lemma_round_up(m: int, d: int)
    requires
        m > 0,
        d > 0,
    ensures
        -((m + d - 1) / d) == (-m) / d,
        0 <= (m + d - 1) / d <= m,
{
    let q = (m + d - 1) / d;
    let r = (m + d - 1) % d;
    vstd::arithmetic::div_mod::lemma_fundamental_div_mod(m + d - 1, d);
    vstd::arithmetic::div_mod::lemma_mod_bound(m + d - 1, d);
    assert(-m == (-q) * d + (d - 1 - r)) by (nonlinear_arith)
        requires
            m + d - 1 == d * q + r,
    ;
    vstd::arithmetic::div_mod::lemma_fundamental_div_mod_converse(-m, d, -q, d - 1 - r);
    assert(0 <= q <= m) by (nonlinear_arith)
        requires
            m + d - 1 == d * q + r,
            0 <= r < d,
            m > 0,
            d > 0,
    ;
}

/// The square root of `x` rounded down, found bit by bit.
fn root_down(x: u128) -> (r: u128)
    requires
        0 < x < 0x8000_0000_0000_0000_0000_0000,
    ensures
        is_floor_root(x as int, r as int),
{
    let mut lo: u128 = 0;
    let mut hi: u128 = 0x1_0000_0000_0000;
    while lo + 1 < hi
        invariant
            lo < hi <= 0x1_0000_0000_0000,
            lo * lo <= x,
            x < hi * hi,
        decreases hi - lo,
    {
        let mid: u128 = (lo + hi) / 2;
        assert(mid * mid <= 0x1_0000_0000_0000 * 0x1_0000_0000_0000) by (nonlinear_arith)
            requires
                0 <= mid <= 0x1_0000_0000_0000,
        ;
        if mid * mid <= x {
            lo = mid;
        } else {
            hi = mid;
        }
    }
    lo
}

impl AddSpecImpl for Fixed {
    open spec fn obeys_add_spec() -> bool {
        true
    }

    open spec fn add_req(self, rhs: Fixed) -> bool {
        true
    }

    open spec fn add_spec(self, rhs: Fixed) -> Fixed {
        self + rhs
    }
}

impl Add for Fixed {
    type Output = Fixed;

    fn add(self, rhs: Fixed) -> (r: Fixed) {
        hold(self.raw as i128 + rhs.raw as i128)
    }
}

impl SubSpecImpl for Fixed {
    open spec fn obeys_sub_spec() -> bool {
        true
    }

    open spec fn sub_req(self, rhs: Fixed) -> bool {
        true
    }

    open spec fn sub_spec(self, rhs: Fixed) -> Fixed {
        self - rhs
    }
}

impl Sub for Fixed {
    type Output = Fixed;

    fn sub(self, rhs: Fixed) -> (r: Fixed) {
        hold(self.raw as i128 - rhs.raw as i128)
    }
}

impl MulSpecImpl for Fixed {
    open spec fn obeys_mul_spec() -> bool {
        true
    }

    open spec fn mul_req(self, rhs: Fixed) -> bool {
        true
    }

    open spec fn mul_spec(self, rhs: Fixed) -> Fixed {
        self * rhs
    }
}

impl Mul for Fixed {
    type Output = Fixed;

    fn mul(self, rhs: Fixed) -> (r: Fixed) {
        let (a, b): (i128, i128) = (self.raw as i128, rhs.raw as i128);
        assert(-0x4000_0000_0000_0000_0000_0000_0000_0000 <= a * b
            <= 0x4000_0000_0000_0000_0000_0000_0000_0000) by (nonlinear_arith)
            requires
                -0x8000_0000_0000_0000 <= a <= 0x8000_0000_0000_0000,
                -0x8000_0000_0000_0000 <= b <= 0x8000_0000_0000_0000,
        ;
        hold(divide_down(a * b, ONE))
    }
}

impl DivSpecImpl for Fixed {
    open spec fn obeys_div_spec() -> bool {
        true
    }

    open spec fn div_req(self, rhs: Fixed) -> bool {
        true
    }

    open spec fn div_spec(self, rhs: Fixed) -> Fixed {
        self / rhs
    }
}

impl Div for Fixed {
    type Output = Fixed;

    fn div(self, rhs: Fixed) -> (r: Fixed) {
        if rhs.raw == 0 {
            Fixed {
                raw: if self.raw < 0 {
                    i64::MIN
                } else {
                    i64::MAX
                },
            }
        } else {
            hold(divide_down(self.raw as i128 * ONE, rhs.raw as i128))
        }
    }
}

impl NegSpecImpl for Fixed {
    open spec fn obeys_neg_spec() -> bool {
        true
    }

    open spec fn neg_req(self) -> bool {
        true
    }

    open spec fn neg_spec(self) -> Fixed {
        -self
    }
}

impl Neg for Fixed {
    type Output = Fixed;

    fn neg(self) -> (r: Fixed) {
        hold(-(self.raw as i128))
    }
}

proof fn lemma_keeps_hundredths()
    ensures
        keeps_hundredths::<Fixed>(),
{
    assert forall|d: int, unit: int|
        0 <= d < 100 && (unit == 100 || unit == 10) implies #[trigger] there_and_back::<Fixed>(d, unit)
        == d by {
        let one = ONE as int;
        let q = (d * one) / unit;
        assert(0 <= d * one - q * unit < unit && q >= 0);
        let a = Fixed::ratio(d, unit);
        assert(a.raw == q);
        let w = whole::<Fixed>(unit);
        assert(w.raw == unit * one);
        assert(q * (unit * one) == (q * unit) * one) by (nonlinear_arith);
        let p = q * unit;
        assert((p * one) / one == p) by (nonlinear_arith)
            requires
                one == 4294967296,
        ;
        assert(d * one - unit < p <= d * one);
    }
}

impl Scalar for Fixed {
    /// The bytes of `raw` in two's complement.
    open spec fn le_byte(self, k: int) -> u8 {
        vstd::bytes::spec_u64_to_le_bytes(self.raw as u64)[k]
    }

    /// Only whole numbers are written as text.
    open spec fn parsed(text: Seq<char>) -> Option<Fixed> {
        match counted(text) {
            Some(k) => Some(Fixed::ratio(k as int, 1)),
            None => None,
        }
    }

    fn from_ratio(num: u64, den: u64) -> (r: Fixed) {
        if den == 0 {
            return Fixed { raw: i64::MAX };
        }
        assert(num * ONE <= 0x1_0000_0000_0000_0000 * 0x1_0000_0000) by (nonlinear_arith)
            requires
                num <= 0x1_0000_0000_0000_0000,
                ONE == 0x1_0000_0000,
        ;
        let q: u128 = (num as u128 * ONE as u128) / (den as u128);
        assert(q <= num * ONE) by (nonlinear_arith)
            requires
                q == (num * ONE) / (den as int),
                den > 0,
                num >= 0,
        ;
        hold(q as i128)
    }

    fn sqrt(self) -> (r: Fixed) {
        if self.raw <= 0 {
            return Fixed { raw: 0 };
        }
        let x: u128 = self.raw as u128 * ONE as u128;
        let r: u128 = root_down(x);
        proof {
            lemma_floor_root_unique(x as int, r as int, floor_root(x as int));
            assert(r <= x) by (nonlinear_arith)
                requires
                    r * r <= x,
                    r >= 0,
            ;
        }
        hold(r as i128)
    }

    fn pi() -> (r: Fixed) {
        Fixed { raw: HALF_TURN as i64 }
    }

    fn sin(self) -> (r: Fixed) {
        sine_at(self.raw as i128)
    }

    fn cos(self) -> (r: Fixed) {
        sine_at(self.raw as i128 + QUARTER_TURN)
    }

    fn asin(self) -> (r: Fixed) {
        if self.raw < 0 {
            arcsine_up_of(self.neg()).neg()
        } else {
            arcsine_up_of(self)
        }
    }

    fn rounded(self) -> (r: i32) {
        let size: i128 = if self.raw < 0 {
            -(self.raw as i128)
        } else {
            self.raw as i128
        };
        let k: u128 = (size as u128 + HALF as u128) / (ONE as u128);
        if self.raw < 0 {
            (-(k as i128)) as i32
        } else if k > 2147483647 {
            i32::MAX
        } else {
            k as i32
        }
    }

    fn print(self, places: usize) -> (r: String) {
        if self.raw < 0 {
            let size: u128 = (-(self.raw as i128)) as u128;
            let text: String = write_places(size, places);
            "-".to_owned().concat(text.as_str())
        } else {
            write_places(self.raw as u128, places)
        }
    }

    fn smallest() -> (r: Fixed) {
        Fixed { raw: 1 }
    }

    fn less_than(self, rhs: Fixed) -> (r: bool) {
        self.raw < rhs.raw
    }

    fn at_most(self, rhs: Fixed) -> (r: bool) {
        self.raw <= rhs.raw
    }

    fn to_le_bytes(self) -> (r: Vec<u8>) {
        proof {
            vstd::bytes::lemma_auto_spec_u64_to_from_le_bytes();
        }
        let bytes: Vec<u8> = vstd::bytes::u64_to_le_bytes(self.raw as u64);
        assert(bytes@ =~= Seq::new(8, |k: int| self.le_byte(k)));
        bytes
    }

    fn parse(text: &String) -> (r: Option<Fixed>) {
        match parse_count(text) {
            Some(k) => Some(Fixed::from_ratio(k as u64, 1)),
            None => None,
        }
    }

    fn lawful() {
    }

    fn faithful() {
        proof {
            lemma_keeps_hundredths();
        }
    }
}

} // verus!
