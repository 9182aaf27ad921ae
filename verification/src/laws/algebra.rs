//! Small steps of real algebra.
use vstd::prelude::*;

verus! {

pub proof fn lemma_commute(x: real, y: real)
    ensures
        x * y == y * x,
{
    assert(x * y == y * x) by (nonlinear_arith);
}

pub proof fn lemma_times_plus(a: real, x: real, y: real)
    ensures
        a * (x + y) == a * x + a * y,
{
    assert(a * (x + y) == a * x + a * y) by (nonlinear_arith);
}

pub proof fn lemma_times_minus(a: real, x: real, y: real)
    ensures
        a * (x - y) == a * x - a * y,
{
    assert(a * (x - y) == a * x - a * y) by (nonlinear_arith);
}

pub proof fn lemma_minus_times(x: real, y: real, a: real)
    ensures
        (x - y) * a == x * a - y * a,
{
    assert((x - y) * a == x * a - y * a) by (nonlinear_arith);
}

pub proof fn lemma_opposite(a: real, x: real, y: real)
    ensures
        a * (x - y) == -(a * (y - x)),
{
    assert(a * (x - y) == -(a * (y - x))) by (nonlinear_arith);
}

pub proof fn lemma_associate(a: real, x: real, y: real)
    ensures
        a * (x * y) == a * x * y,
        a * -(x * y) == -(a * x * y),
{
    assert(a * (x * y) == a * x * y) by (nonlinear_arith);
    let t = x * y;
    assert(a * -t == -(a * t)) by (nonlinear_arith);
}

pub proof fn lemma_times_four(a: real, x: real, y: real, z: real, w: real)
    ensures
        a * (x + y + z + w) == a * x + a * y + a * z + a * w,
{
    lemma_times_plus(a, x, y);
    lemma_times_plus(a, x + y, z);
    lemma_times_plus(a, x + y + z, w);
}

/// A factor moved to the front.
pub proof fn lemma_swap(a: real, b: real, c: real)
    ensures
        a * (b * c) == b * (a * c),
{
    lemma_associate(a, b, c);
    lemma_associate(b, a, c);
    lemma_commute(a, b);
}

/// A product of products, factor by factor.
pub proof fn lemma_products(a: real, b: real, c: real, d: real)
    ensures
        (a * b) * (c * d) == (a * c) * (b * d),
{
    lemma_associate(a * b, c, d);
    lemma_associate(a, b, c);
    lemma_commute(b, c);
    lemma_associate(a, c, b);
    lemma_associate(a * c, b, d);
}

/// A quotient times its divisor.
pub proof fn lemma_quotient(a: real, b: real)
    requires
        b != 0real,
    ensures
        a / b * b == a,
        b * (a / b) == a,
{
    assert(a / b * b == a) by (nonlinear_arith)
        requires
            b != 0real,
    ;
    lemma_commute(b, a / b);
}

} // verus!
