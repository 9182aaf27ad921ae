//! The arithmetic that the solver is written over.
//!
//! Every formula of the crate is a spec function that is generic over [`Arith`],
//! so one and the same formula can be read in two ways: in the arithmetic of a
//! machine number ([`Scalar`]), which is what the executable code computes, and
//! in exact real arithmetic, which is where the laws of the numerical scheme live.
use std::ops::{Add, Div, Mul, Neg, Sub};
use vstd::pervasive::arbitrary;
use vstd::prelude::*;
use vstd::std_specs::ops::{AddSpec, DivSpec, MulSpec, NegSpec, SubSpec};

verus! {

/// What a formula may ask of a number. In specifications the operators `+`, `-`,
/// `*`, `/`, `<` and `<=` on such a number stand for the methods below. An instance
/// says what they are; an instance that does not leaves each of them an unknown function
/// of its operands.
pub trait Arith: Sized {
    /// `self + rhs`
    open spec fn spec_add(self, rhs: Self) -> Self {
        arbitrary::<spec_fn(int, Self, Self) -> Self>()(0, self, rhs)
    }

    /// `self - rhs`
    open spec fn spec_sub(self, rhs: Self) -> Self {
        arbitrary::<spec_fn(int, Self, Self) -> Self>()(1, self, rhs)
    }

    /// `self * rhs`
    open spec fn spec_mul(self, rhs: Self) -> Self {
        arbitrary::<spec_fn(int, Self, Self) -> Self>()(2, self, rhs)
    }

    /// `self / rhs`
    open spec fn spec_euclidean_or_real_div(self, rhs: Self) -> Self {
        arbitrary::<spec_fn(int, Self, Self) -> Self>()(3, self, rhs)
    }

    /// `-self`
    open spec fn spec_neg(self) -> Self {
        arbitrary::<spec_fn(int, Self) -> Self>()(0, self)
    }

    /// `self < rhs`
    open spec fn spec_lt(self, rhs: Self) -> bool {
        arbitrary::<spec_fn(int, Self, Self) -> bool>()(0, self, rhs)
    }

    /// `self <= rhs`
    open spec fn spec_le(self, rhs: Self) -> bool {
        arbitrary::<spec_fn(int, Self, Self) -> bool>()(1, self, rhs)
    }

    /// The number that stands for the fraction `num / den`.
    open spec fn ratio(num: int, den: int) -> Self {
        arbitrary::<spec_fn(int, int) -> Self>()(num, den)
    }

    /// The square root.
    open spec fn root(self) -> Self {
        arbitrary::<spec_fn(int, Self) -> Self>()(1, self)
    }

    /// Half a turn, in radians.
    open spec fn half_turn() -> Self {
        arbitrary::<spec_fn(int) -> Self>()(1)
    }

    /// The sine of an angle in radians.
    open spec fn sine(self) -> Self {
        arbitrary::<spec_fn(int, Self) -> Self>()(2, self)
    }

    /// The cosine of an angle in radians.
    open spec fn cosine(self) -> Self {
        arbitrary::<spec_fn(int, Self) -> Self>()(3, self)
    }

    /// The angle in radians, from minus to plus a quarter turn, whose sine the number is.
    open spec fn arcsine(self) -> Self {
        arbitrary::<spec_fn(int, Self) -> Self>()(4, self)
    }

    /// The nearest whole number.
    open spec fn nearest(self) -> int {
        arbitrary::<spec_fn(Self) -> int>()(self)
    }

    /// The number as decimal text with so many places behind the point.
    open spec fn printed(self, places: int) -> Seq<char> {
        arbitrary::<spec_fn(Self, int) -> Seq<char>>()(self, places)
    }

    /// A positive number that is negligible beside every field value; it keeps a
    /// relative measure from dividing by zero.
    open spec fn tiny() -> Self {
        arbitrary::<spec_fn(int) -> Self>()(0)
    }
}

/// A machine number with total, deterministic arithmetic.
///
/// `f64` in a wrapper type of the caller is the intended instance, where all NaN
/// values count as one number; [`crate::fixed::Fixed`] is an instance in this crate.
pub trait Scalar: Arith + Copy + Send + Sync + Add<Output = Self> + Sub<Output = Self> + Mul<
    Output = Self,
> + Div<Output = Self> + Neg<Output = Self> {
    /// Byte `k` of the eight bytes of the number, the lowest first.
    open spec fn le_byte(self, k: int) -> u8 {
        arbitrary::<spec_fn(Self, int) -> u8>()(self, k)
    }

    /// The number that a text denotes, if it denotes one.
    open spec fn parsed(text: Seq<char>) -> Option<Self> {
        arbitrary::<spec_fn(Seq<char>) -> Option<Self>>()(text)
    }

    fn from_ratio(num: u64, den: u64) -> (r: Self)
        ensures
            r == Self::ratio(num as int, den as int),
    ;

    fn sqrt(self) -> (r: Self)
        ensures
            r == self.root(),
    ;

    fn pi() -> (r: Self)
        ensures
            r == Self::half_turn(),
    ;

    fn sin(self) -> (r: Self)
        ensures
            r == self.sine(),
    ;

    fn cos(self) -> (r: Self)
        ensures
            r == self.cosine(),
    ;

    fn asin(self) -> (r: Self)
        ensures
            r == self.arcsine(),
    ;

    fn rounded(self) -> (r: i32)
        ensures
            r == self.nearest(),
    ;

    fn print(self, places: usize) -> (r: String)
        requires
            places <= 9,
        ensures
            r@ == self.printed(places as int),
    ;

    fn smallest() -> (r: Self)
        ensures
            r == Self::tiny(),
    ;

    fn less_than(self, rhs: Self) -> (r: bool)
        ensures
            r == (self < rhs),
    ;

    fn at_most(self, rhs: Self) -> (r: bool)
        ensures
            r == (self <= rhs),
    ;

    fn to_le_bytes(self) -> (r: Vec<u8>)
        ensures
            r@ == Seq::new(8, |k: int| self.le_byte(k)),
    ;

    fn parse(text: &String) -> (r: Option<Self>)
        ensures
            r == Self::parsed(text@),
    ;

    /// Does nothing. Its contract says that the operators are total and compute what
    /// [`Arith`] says, so a call of it stands before each use of them.
    fn lawful()
        ensures
            <Self as AddSpec>::obeys_add_spec(),
            forall|a: Self, b: Self| #[trigger] a.add_req(b),
            forall|a: Self, b: Self| #[trigger] a.add_spec(b) == a + b,
            <Self as SubSpec>::obeys_sub_spec(),
            forall|a: Self, b: Self| #[trigger] a.sub_req(b),
            forall|a: Self, b: Self| #[trigger] a.sub_spec(b) == a - b,
            <Self as MulSpec>::obeys_mul_spec(),
            forall|a: Self, b: Self| #[trigger] a.mul_req(b),
            forall|a: Self, b: Self| #[trigger] a.mul_spec(b) == a * b,
            <Self as DivSpec>::obeys_div_spec(),
            forall|a: Self, b: Self| #[trigger] a.div_req(b),
            forall|a: Self, b: Self| #[trigger] a.div_spec(b) == a / b,
            <Self as NegSpec>::obeys_neg_spec(),
            forall|a: Self| #[trigger] a.neg_req(),
            forall|a: Self| #[trigger] a.neg_spec() == -a,
    ;

    /// Does nothing. Its contract says that comparison orders the numbers and that
    /// rounding gives back the digits of hundredths and tenths.
    fn faithful()
        ensures
            ordered::<Self>(),
            keeps_hundredths::<Self>(),
    ;
}

/// Whether a number can be compared; only a value that stands for no number cannot.
pub open spec fn proper<A: Arith>(a: A) -> bool {
    a <= a
}

/// Comparison is a total order of the numbers that can be compared.
pub open spec fn ordered<A: Arith>() -> bool {
    &&& proper(nil::<A>())
    &&& forall|a: A, b: A| #[trigger]
        a.spec_lt(b) ==> proper(a) && proper(b) && a <= b && !(b <= a)
    &&& forall|a: A, b: A|
        proper(a) && proper(b) ==> #[trigger] a.spec_lt(b) || b <= a
    &&& forall|a: A, b: A, c: A|
        #![trigger a.spec_le(b), b.spec_le(c)]
        a <= b && b <= c ==> a <= c
}

/// The whole number nearest to `d / unit * unit`.
pub open spec fn there_and_back<A: Arith>(d: int, unit: int) -> int {
    (A::ratio(d, unit) * whole::<A>(unit)).nearest()
}

/// Numbers of so many hundredths or tenths are rounded back to their digits.
pub open spec fn keeps_hundredths<A: Arith>() -> bool {
    &&& forall|d: int| 0 <= d < 100 ==> #[trigger] there_and_back::<A>(d, 100) == d
    &&& forall|d: int| 0 <= d < 10 ==> #[trigger] there_and_back::<A>(d, 10) == d
}

/// The little-endian bytes of a number.
pub open spec fn le_bytes<T: Scalar>(x: T) -> Seq<u8> {
    Seq::new(8, |k: int| x.le_byte(k))
}

/// The whole number `k`.
pub open spec fn whole<A: Arith>(k: int) -> A {
    A::ratio(k, 1)
}

/// Zero.
pub open spec fn nil<A: Arith>() -> A {
    A::ratio(0, 1)
}

/// The larger of two numbers: `b` where `a < b`, else `a`.
pub open spec fn larger<A: Arith>(a: A, b: A) -> A {
    if a < b {
        b
    } else {
        a
    }
}

/// The smaller of two numbers; a number that is not even at most itself gives way.
pub open spec fn smaller<A: Arith>(a: A, b: A) -> A {
    if b < a {
        b
    } else if a <= a {
        a
    } else {
        b
    }
}

/// The absolute value.
pub open spec fn magnitude<A: Arith>(a: A) -> A {
    if a < nil::<A>() {
        -a
    } else {
        a
    }
}

pub fn zero<T: Scalar>() -> (r: T)
    ensures
        r == nil::<T>(),
{
    T::from_ratio(0, 1)
}

/// The whole number `k` as a machine number.
pub fn count<T: Scalar>(k: usize) -> (r: T)
    ensures
        r == whole::<T>(k as int),
{
    T::from_ratio(k as u64, 1)
}

pub fn max_of<T: Scalar>(a: T, b: T) -> (r: T)
    ensures
        r == larger(a, b),
{
    if a.less_than(b) {
        b
    } else {
        a
    }
}

pub fn min_of<T: Scalar>(a: T, b: T) -> (r: T)
    ensures
        r == smaller(a, b),
{
    if b.less_than(a) {
        b
    } else if a.at_most(a) {
        a
    } else {
        b
    }
}

pub fn abs_of<T: Scalar>(a: T) -> (r: T)
    ensures
        r == magnitude(a),
{
    T::lawful();
    if a.less_than(zero()) {
        a.neg()
    } else {
        a
    }
}

} // verus!
