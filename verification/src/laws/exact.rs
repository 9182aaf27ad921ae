//! Exact arithmetic: the formulas of the crate read over the real numbers.
use vstd::prelude::*;

verus! {

pub open spec fn sum(a: real, b: real) -> real {
    a + b
}

pub open spec fn difference(a: real, b: real) -> real {
    a - b
}

pub open spec fn product(a: real, b: real) -> real {
    a * b
}

pub open spec fn quotient(a: real, b: real) -> real {
    a / b
}

pub open spec fn opposite(a: real) -> real {
    -a
}

pub open spec fn below(a: real, b: real) -> bool {
    a < b
}

pub open spec fn not_above(a: real, b: real) -> bool {
    a <= b
}

pub open spec fn is_root(x: real, r: real) -> bool {
    0real <= r && r * r == x
}

/// The half turn, the sine and the cosine.
pub struct Trigonometry {
    pub pi: real,
    pub s: spec_fn(real) -> real,
    pub c: spec_fn(real) -> real,
}

impl Trigonometry {
    /// Angle addition.
    pub open spec fn adds(self, a: real, b: real) -> bool {
        &&& (self.c)(a + b) == (self.c)(a) * (self.c)(b) - (self.s)(a) * (self.s)(b)
        &&& (self.s)(a + b) == (self.s)(a) * (self.c)(b) + (self.c)(a) * (self.s)(b)
    }

    /// The opposite angle.
    pub open spec fn mirrors(self, a: real) -> bool {
        (self.c)(-a) == (self.c)(a) && (self.s)(-a) == -(self.s)(a)
    }

    /// What makes the two functions the cosine and the sine, and `pi` the half turn. The
    /// last two clauses fix the sign of the sine and the unit of the angle, the radian:
    /// the sine of a small angle is the angle.
    pub open spec fn valid(self) -> bool {
        &&& 0real < self.pi
        &&& (self.c)(0real) == 1real
        &&& (self.s)(0real) == 0real
        &&& (self.c)(self.pi) == -1real
        &&& (self.s)(self.pi) == 0real
        &&& forall|a: real, b: real| #[trigger] self.adds(a, b)
        &&& forall|a: real| #[trigger] self.mirrors(a)
        &&& forall|a: real| 0real < a < self.pi + self.pi ==> #[trigger] (self.c)(a) != 1real
        &&& forall|a: real| 0real < a < self.pi ==> 0real < #[trigger] (self.s)(a) < a
        &&& forall|a: real| 0real < a < self.pi ==> a * (self.c)(a) < #[trigger] (self.s)(a)
    }
}

/// The sine and the cosine of the real numbers. That there are such functions is analysis;
/// a law that rests on it says so by asking that this pair is valid.
pub open spec fn trigonometry() -> Trigonometry {
    choose|t: Trigonometry| t.valid()
}

/// `a` is the angle, from minus to plus a quarter turn, whose sine is `x`.
pub open spec fn is_arcsine(x: real, a: real) -> bool {
    &&& (trigonometry().s)(a) == x
    &&& -trigonometry().pi <= a + a <= trigonometry().pi
}

/// `k` is the whole number nearest to `x`; halves are rounded away from zero.
pub open spec fn is_nearest(x: real, k: int) -> bool {
    let (lo, hi) = (2real * x - 1real, 2real * x + 1real);
    let twice = 2real * k as real;
    if x >= 0real {
        lo < twice <= hi
    } else {
        lo <= twice < hi
    }
}

impl crate::scalar::Arith for real {
    open spec fn spec_add(self, rhs: real) -> real {
        sum(self, rhs)
    }

    open spec fn spec_sub(self, rhs: real) -> real {
        difference(self, rhs)
    }

    open spec fn spec_mul(self, rhs: real) -> real {
        product(self, rhs)
    }

    open spec fn spec_euclidean_or_real_div(self, rhs: real) -> real {
        quotient(self, rhs)
    }

    open spec fn spec_neg(self) -> real {
        opposite(self)
    }

    open spec fn spec_lt(self, rhs: real) -> bool {
        below(self, rhs)
    }

    open spec fn spec_le(self, rhs: real) -> bool {
        not_above(self, rhs)
    }

    open spec fn ratio(num: int, den: int) -> real {
        quotient(num as real, den as real)
    }

    open spec fn root(self) -> real {
        choose|r: real| is_root(self, r)
    }

    open spec fn half_turn() -> real {
        trigonometry().pi
    }

    open spec fn sine(self) -> real {
        (trigonometry().s)(self)
    }

    open spec fn cosine(self) -> real {
        (trigonometry().c)(self)
    }

    open spec fn arcsine(self) -> real {
        choose|a: real| is_arcsine(self, a)
    }

    open spec fn nearest(self) -> int {
        choose|k: int| is_nearest(self, k)
    }

    open spec fn tiny() -> real {
        quotient(1real, 1000000000000000000000000000000real)
    }
}

/// The integers among the numbers.
pub proof fn lemma_whole(k: int)
    ensures
        crate::scalar::whole::<real>(k) == k as real,
{
    let x = k as real;
    assert(x / 1real == x) by (nonlinear_arith);
}

/// Zero among the numbers.
pub proof fn lemma_nil()
    ensures
        crate::scalar::nil::<real>() == 0real,
{
    lemma_whole(0);
}

} // verus!
