//! Radix-2 Cooley-Tukey transform for power-of-two lengths (forward only; the
//! inverse sine transform is built from the forward transform as well).
use crate::scalar::{count, whole, Arith, Scalar};
use std::ops::Neg;
use vstd::arithmetic::div_mod::{lemma_fundamental_div_mod, lemma_fundamental_div_mod_converse};
use vstd::arithmetic::power2::{lemma_pow2_adds, lemma_pow2_pos, lemma_pow2_unfold, pow2};
use vstd::prelude::*;

verus! {

/// Complex values, their real and imaginary parts apart.
#[verifier::ext_equal]
pub struct Signal<A> {
    pub re: Seq<A>,
    pub im: Seq<A>,
}

pub open spec fn power_of_two(n: int) -> bool {
    exists|b: nat| n == #[trigger] pow2(b)
}

/// The exponent of a power of two.
pub open spec fn levels_of(n: int) -> nat {
    choose|b: nat| n == #[trigger] pow2(b)
}

/// A power of two has one exponent.
pub proof fn lemma_levels(n: int, b: nat)
    requires
        n == pow2(b),
    ensures
        power_of_two(n),
        levels_of(n) == b,
{
    let c = levels_of(n);
    assert(n == pow2(c));
    if b < c {
        vstd::arithmetic::power2::lemma_pow2_strictly_increases(b, c);
    } else if c < b {
        vstd::arithmetic::power2::lemma_pow2_strictly_increases(c, b);
    }
}

/// The lowest `b` bits of `i` in reverse order.
pub open spec fn reversed(b: nat, i: int) -> int
    decreases b,
{
    if b == 0 {
        0
    } else {
        (i % 2) * pow2((b - 1) as nat) + reversed((b - 1) as nat, i / 2)
    }
}

/// The angle of the twiddle factor `k` of a transform of length `n`, clockwise.
pub open spec fn twiddle_angle<A: Arith>(n: int, k: int) -> A {
    (-whole::<A>(2)) * A::half_turn() * whole::<A>(k) / whole::<A>(n)
}

/// The twiddle factors `exp(-2*pi*i*k/n)` for `k` below `n / 2`.
pub open spec fn roots_of_unity<A: Arith>(n: int) -> Signal<A> {
    Signal {
        re: Seq::new((n / 2) as nat, |k: int| twiddle_angle::<A>(n, k).cosine()),
        im: Seq::new((n / 2) as nat, |k: int| twiddle_angle::<A>(n, k).sine()),
    }
}

/// The real part of the product of the twiddle factor `k` and a complex value.
pub open spec fn turned_re<A: Arith>(tw: Signal<A>, k: int, re: A, im: A) -> A {
    tw.re[k] * re - tw.im[k] * im
}

/// The imaginary part of that product.
pub open spec fn turned_im<A: Arith>(tw: Signal<A>, k: int, re: A, im: A) -> A {
    tw.re[k] * im + tw.im[k] * re
}

/// Joins the transforms of the even and of the odd members of a signal of twice
/// their length. The twiddle factors stand `stride` apart.
pub open spec fn joined<A: Arith>(
    even: Signal<A>,
    odd: Signal<A>,
    tw: Signal<A>,
    stride: int,
    half: int,
) -> Signal<A> {
    Signal {
        re: Seq::new(
            (2 * half) as nat,
            |k: int|
                if k < half {
                    even.re[k] + turned_re(tw, k * stride, odd.re[k], odd.im[k])
                } else {
                    even.re[k - half] - turned_re(
                        tw,
                        (k - half) * stride,
                        odd.re[k - half],
                        odd.im[k - half],
                    )
                },
        ),
        im: Seq::new(
            (2 * half) as nat,
            |k: int|
                if k < half {
                    even.im[k] + turned_im(tw, k * stride, odd.re[k], odd.im[k])
                } else {
                    even.im[k - half] - turned_im(
                        tw,
                        (k - half) * stride,
                        odd.re[k - half],
                        odd.im[k - half],
                    )
                },
        ),
    }
}

/// The transform of the `2^b` members `offset`, `offset + stride`,
/// `offset + 2 * stride`, ... of `x`, by splitting them into even and odd members.
pub open spec fn spectrum<A: Arith>(
    x: Signal<A>,
    tw: Signal<A>,
    offset: int,
    stride: int,
    b: nat,
) -> Signal<A>
    decreases b,
{
    if b == 0 {
        Signal { re: seq![x.re[offset]], im: seq![x.im[offset]] }
    } else {
        joined(
            spectrum(x, tw, offset, 2 * stride, (b - 1) as nat),
            spectrum(x, tw, offset + stride, 2 * stride, (b - 1) as nat),
            tw,
            stride,
            pow2((b - 1) as nat) as int,
        )
    }
}

proof fn lemma_reversed_range(b: nat, i: int)
    requires
        0 <= i < pow2(b),
    ensures
        0 <= reversed(b, i) < pow2(b),
    decreases b,
{
    lemma_pow2_pos(b);
    if b > 0 {
        let c = (b - 1) as nat;
        lemma_pow2_unfold(b);
        lemma_reversed_range(c, i / 2);
        let p = pow2(c) as int;
        let d = i % 2;
        assert(0 <= d * p <= p) by (nonlinear_arith)
            requires
                0 <= d <= 1,
                p >= 0,
        ;
    }
}

/// Reversing from the other end: the highest bit of `b` becomes the lowest.
proof fn lemma_reversed_top(b: nat, i: int)
    requires
        b > 0,
        0 <= i < pow2((b - 1) as nat),
    ensures
        reversed(b, i) == 2 * reversed((b - 1) as nat, i),
        reversed(b, i + pow2((b - 1) as nat)) == 2 * reversed((b - 1) as nat, i) + 1,
    decreases b,
{
    let c = (b - 1) as nat;
    lemma_pow2_pos(c);
    if c == 0 {
        vstd::arithmetic::power2::lemma2_to64();
        assert(reversed(1, 0) == (0int % 2) * pow2(0) + reversed(0, 0));
        assert(reversed(1, 1) == (1int % 2) * pow2(0) + reversed(0, 0));
        assert((1int % 2) * pow2(0) == 1) by (nonlinear_arith)
            requires
                pow2(0) == 1,
        ;
        assert((0int % 2) * pow2(0) == 0) by (nonlinear_arith);
    } else {
        let e = (c - 1) as nat;
        lemma_pow2_unfold(c);
        let p = pow2(c) as int;
        let q = pow2(e) as int;
        assert(p == 2 * q);
        lemma_reversed_top(c, i / 2);
        assert((i + p) / 2 == i / 2 + q);
        assert((i + p) % 2 == i % 2);
        let d = i % 2;
        assert(d * p == 2 * (d * q)) by (nonlinear_arith)
            requires
                p == 2 * q,
        ;
        assert(reversed(c, i) == d * q + reversed(e, i / 2));
    }
}

/// Reversing the bits twice gives back the number.
pub proof fn lemma_reversed_twice(b: nat, i: int)
    requires
        0 <= i < pow2(b),
    ensures
        0 <= reversed(b, i) < pow2(b),
        reversed(b, reversed(b, i)) == i,
    decreases b,
{
    lemma_reversed_range(b, i);
    if b == 0 {
        vstd::arithmetic::power2::lemma2_to64();
    } else {
        let c = (b - 1) as nat;
        lemma_pow2_unfold(b);
        lemma_reversed_twice(c, i / 2);
        let r = reversed(c, i / 2);
        lemma_reversed_top(b, r);
        let p = pow2(c) as int;
        let d = i % 2;
        if d == 0 {
            assert(d * p == 0) by (nonlinear_arith)
                requires
                    d == 0,
            ;
        } else {
            assert(d * p == p) by (nonlinear_arith)
                requires
                    d == 1,
            ;
        }
    }
}

/// The exponent of a power of two.
pub fn exponent(n: usize) -> (r: Option<usize>)
    ensures
        match r {
            Some(b) => n == pow2(b as nat),
            None => !power_of_two(n as int),
        },
{
    let mut p: usize = 1;
    let mut b: usize = 0;
    proof {
        vstd::arithmetic::power2::lemma2_to64();
        assert forall|e: nat| #[trigger] pow2(e) == n implies e >= 0 && n > 0 by {
            lemma_pow2_pos(e);
        }
    }
    if n == 0 {
        return None;
    }
    while p < n
        invariant
            p <= n,
            p == pow2(b as nat),
            b < p,
            forall|e: nat| #[trigger] pow2(e) == n ==> e >= b,
        decreases n - p,
    {
        proof {
            assert forall|e: nat| #[trigger] pow2(e) == n implies e > b by {}
            assert forall|e: nat| e > b && #[trigger] pow2(e) == n implies n >= 2 * p by {
                lemma_pow2_unfold((b + 1) as nat);
                if e > b + 1 {
                    vstd::arithmetic::power2::lemma_pow2_strictly_increases((b + 1) as nat, e);
                }
            }
        }
        if p > n / 2 {
            return None;
        }
        proof {
            lemma_pow2_unfold((b + 1) as nat);
        }
        p = 2 * p;
        b = b + 1;
    }
    Some(b)
}

/// The plan of a transform of length `n`.
pub struct Fft<T> {
    n: usize,
    bits: usize,
    rev: Vec<usize>,
    tw_re: Vec<T>,
    tw_im: Vec<T>,
}

/// What one pass of butterflies leaves at index `c`, from the values before it.
pub open spec fn passed<A: Arith>(
    x: Signal<A>,
    tw: Signal<A>,
    half: int,
    step: int,
    c: int,
) -> (A, A) {
    let r = c % (2 * half);
    if r < half {
        (
            x.re[c] + turned_re(tw, r * step, x.re[c + half], x.im[c + half]),
            x.im[c] + turned_im(tw, r * step, x.re[c + half], x.im[c + half]),
        )
    } else {
        (
            x.re[c - half] - turned_re(tw, (r - half) * step, x.re[c], x.im[c]),
            x.im[c - half] - turned_im(tw, (r - half) * step, x.re[c], x.im[c]),
        )
    }
}

/// Each block of `2^l` values holds the transform of the members of `x` that it
/// stands for.
spec fn level<A: Arith>(y: Signal<A>, x: Signal<A>, tw: Signal<A>, b: nat, l: nat) -> bool {
    forall|block: int, t: int|
        0 <= block < pow2((b - l) as nat) && 0 <= t < pow2(l) ==> {
            let s = spectrum(x, tw, reversed((b - l) as nat, block), pow2((b - l) as nat) as int, l);
            &&& #[trigger] crate::grid::at(y.re, pow2(l) as int, t, block) == s.re[t]
            &&& crate::grid::at(y.im, pow2(l) as int, t, block) == s.im[t]
        }
}

pub proof fn lemma_spectrum_len<A: Arith>(
    x: Signal<A>,
    tw: Signal<A>,
    offset: int,
    stride: int,
    b: nat,
)
    ensures
        spectrum(x, tw, offset, stride, b).re.len() == pow2(b),
        spectrum(x, tw, offset, stride, b).im.len() == pow2(b),
{
    vstd::arithmetic::power2::lemma2_to64();
    if b > 0 {
        lemma_pow2_unfold(b);
    }
}

/// A pass lifts every block to the next level.
proof fn lemma_pass<A: Arith>(
    y: Signal<A>,
    z: Signal<A>,
    x: Signal<A>,
    tw: Signal<A>,
    b: nat,
    l: nat,
)
    requires
        l < b,
        y.re.len() == pow2(b),
        y.im.len() == pow2(b),
        z.re.len() == pow2(b),
        z.im.len() == pow2(b),
        level(y, x, tw, b, l),
        forall|c: int|
            0 <= c < pow2(b) ==> (#[trigger] z.re[c], z.im[c]) == passed(
                y,
                tw,
                pow2(l) as int,
                pow2((b - l - 1) as nat) as int,
                c,
            ),
    ensures
        level(z, x, tw, b, l + 1),
{
    let half = pow2(l) as int;
    let len = pow2(l + 1) as int;
    let d = (b - l) as nat;
    let e = (b - l - 1) as nat;
    let step = pow2(e) as int;
    lemma_pow2_pos(l);
    lemma_pow2_pos(e);
    lemma_pow2_unfold(l + 1);
    lemma_pow2_unfold(d);
    lemma_pow2_adds(e, l + 1);
    assert(len == 2 * half);
    assert(pow2(d) == 2 * step);
    assert(e + (l + 1) == b);
    assert(step * len == pow2(b));
    assert forall|block: int, t: int| 0 <= block < pow2(e) && 0 <= t < pow2(l + 1) implies {
        let s = spectrum(x, tw, reversed(e, block), pow2(e) as int, l + 1);
        &&& #[trigger] crate::grid::at(z.re, pow2(l + 1) as int, t, block) == s.re[t]
        &&& crate::grid::at(z.im, pow2(l + 1) as int, t, block) == s.im[t]
    } by {
        let c = block * len + t;
        lemma_fundamental_div_mod_converse(c, len, block, t);
        assert(0 <= c < step * len) by (nonlinear_arith)
            requires
                c == block * len + t,
                0 <= block <= step - 1,
                0 <= t < len,
        ;
        let o = reversed(e, block);
        // The two halves of the block are the blocks 2 * block and 2 * block + 1 below.
        assert(reversed(d, 2 * block) == o) by {
            assert((2 * block) % 2 == 0 && (2 * block) / 2 == block);
            assert(((2 * block) % 2) * pow2(e) == 0) by (nonlinear_arith)
                requires
                    (2 * block) % 2 == 0,
            ;
        }
        assert(reversed(d, 2 * block + 1) == o + step) by {
            assert((2 * block + 1) % 2 == 1 && (2 * block + 1) / 2 == block);
            assert(((2 * block + 1) % 2) * pow2(e) == step) by (nonlinear_arith)
                requires
                    (2 * block + 1) % 2 == 1,
                    step == pow2(e),
            ;
        }
        let r = if t < half {
            t
        } else {
            t - half
        };
        let lower = block * len + r;
        assert((2 * block) * half + r == lower && (2 * block + 1) * half + r == lower + half)
            by (nonlinear_arith)
            requires
                lower == block * len + r,
                len == 2 * half,
        ;
        assert(crate::grid::at(y.re, half, r, 2 * block) == y.re[lower]);
        assert(crate::grid::at(y.re, half, r, 2 * block + 1) == y.re[lower + half]);
        let even = spectrum(x, tw, o, 2 * step, l);
        let odd = spectrum(x, tw, o + step, 2 * step, l);
        assert(y.re[lower] == even.re[r] && y.im[lower] == even.im[r]);
        assert(y.re[lower + half] == odd.re[r] && y.im[lower + half] == odd.im[r]);
        assert((z.re[c], z.im[c]) == passed(y, tw, half, step, c));
        let s = spectrum(x, tw, o, step, l + 1);
        assert(s == joined(even, odd, tw, step, half));
        assert(c % (2 * half) == t);
        assert(z.re[c] == s.re[t]);
        assert(z.im[c] == s.im[t]);
    }
}

impl<T: Scalar> Fft<T> {
    pub closed spec fn wf(&self) -> bool {
        &&& self.n == pow2(self.bits as nat)
        &&& self.rev@.len() == self.n
        &&& forall|i: int|
            0 <= i < self.n ==> #[trigger] self.rev@[i] == reversed(self.bits as nat, i)
        &&& self.n / 2 <= self.tw_re@.len()
        &&& self.n / 2 <= self.tw_im@.len()
    }

    /// The length of the signals that the plan is for.
    pub closed spec fn len(&self) -> int {
        self.n as int
    }

    pub closed spec fn levels(&self) -> nat {
        self.bits as nat
    }

    /// The twiddle factors.
    pub closed spec fn twiddles(&self) -> Signal<T> {
        Signal { re: self.tw_re@, im: self.tw_im@ }
    }

    pub proof fn lemma_len(&self)
        requires
            self.wf(),
        ensures
            self.len() == pow2(self.levels()),
            0 < self.len() <= usize::MAX,
    {
        lemma_pow2_pos(self.levels());
    }

    /// Plans a transform of length `n`.
    pub fn new(n: usize) -> (r: Fft<T>)
        requires
            power_of_two(n as int),
        ensures
            r.wf(),
            r.len() == n,
            n == pow2(r.levels()),
            r.levels() == levels_of(n as int),
            r.twiddles() == roots_of_unity::<T>(n as int),
    {
        let bits: usize = match exponent(n) {
            Some(b) => b,
            None => 0,
        };
        let ghost b = bits as nat;
        let mut rev: Vec<usize> = Vec::with_capacity(n);
        proof {
            lemma_levels(n as int, b);
            lemma_pow2_pos(b);
            if b > 0 {
                lemma_pow2_unfold(b);
            } else {
                vstd::arithmetic::power2::lemma2_to64();
            }
            lemma_reversed_zero(b);
        }
        rev.push(0);
        let mut i: usize = 1;
        while i < n
            invariant
                1 <= i <= n,
                n == pow2(b),
                b == bits,
                n > 1 ==> b > 0 && n == 2 * pow2((b - 1) as nat),
                rev@.len() == i,
                forall|k: int| 0 <= k < i ==> #[trigger] rev@[k] == reversed(b, k),
            decreases n - i,
        {
            let shifted: usize = rev[i / 2] / 2;
            proof {
                let p = pow2((b - 1) as nat) as int;
                let k = i as int / 2;
                assert(rev@[k] == reversed(b, k));
                lemma_reversed_top(b, k);
                lemma_reversed_range((b - 1) as nat, k);
                let d = i as int % 2;
                assert(d * p == if d == 1 { p } else { 0 }) by (nonlinear_arith)
                    requires
                        d == 0 || d == 1,
                ;
                assert(reversed(b, i as int) == d * p + reversed((b - 1) as nat, k));
            }
            let value: usize = if i % 2 == 1 {
                shifted + n / 2
            } else {
                shifted
            };
            rev.push(value);
            i = i + 1;
        }
        let mut tw_re: Vec<T> = Vec::with_capacity(n / 2);
        let mut tw_im: Vec<T> = Vec::with_capacity(n / 2);
        let mut k: usize = 0;
        while k < n / 2
            invariant
                k <= n / 2,
                tw_re@.len() == k,
                tw_im@.len() == k,
                forall|c: int|
                    0 <= c < k ==> #[trigger] tw_re@[c] == twiddle_angle::<T>(
                        n as int,
                        c,
                    ).cosine(),
                forall|c: int|
                    0 <= c < k ==> #[trigger] tw_im@[c] == twiddle_angle::<T>(n as int, c).sine(),
            decreases n / 2 - k,
        {
            T::lawful();
            let angle: T = count::<T>(2).neg() * T::pi() * count::<T>(k) / count::<T>(n);
            tw_re.push(angle.cos());
            tw_im.push(angle.sin());
            k = k + 1;
        }
        assert(tw_re@ =~= roots_of_unity::<T>(n as int).re);
        assert(tw_im@ =~= roots_of_unity::<T>(n as int).im);
        Fft { n, bits, rev, tw_re, tw_im }
    }

    /// Puts the values in bit-reversed order.
    fn permute(&self, re: &mut Vec<T>, im: &mut Vec<T>)
        requires
            self.wf(),
            old(re)@.len() == self.len(),
            old(im)@.len() == self.len(),
        ensures
            final(re)@.len() == self.len(),
            final(im)@.len() == self.len(),
            forall|c: int|
                0 <= c < self.len() ==> #[trigger] final(re)@[c] == old(re)@[reversed(
                    self.levels(),
                    c,
                )],
            forall|c: int|
                0 <= c < self.len() ==> #[trigger] final(im)@[c] == old(im)@[reversed(
                    self.levels(),
                    c,
                )],
    {
        let n: usize = self.n;
        let ghost b = self.levels();
        let ghost x = Signal { re: re@, im: im@ };
        let mut i: usize = 0;
        proof {
            assert forall|c: int| 0 <= c < n implies 0 <= #[trigger] reversed(b, c) < n by {
                lemma_reversed_range(b, c);
            }
        }
        while i < n
            invariant
                self.wf(),
                n == self.n,
                b == self.levels(),
                i <= n,
                forall|c: int| 0 <= c < n ==> 0 <= #[trigger] reversed(b, c) < n,
                re@.len() == n,
                im@.len() == n,
                x.re.len() == n,
                x.im.len() == n,
                forall|c: int|
                    0 <= c < n ==> #[trigger] re@[c] == if c < i || reversed(b, c) < i {
                        x.re[reversed(b, c)]
                    } else {
                        x.re[c]
                    },
                forall|c: int|
                    0 <= c < n ==> #[trigger] im@[c] == if c < i || reversed(b, c) < i {
                        x.im[reversed(b, c)]
                    } else {
                        x.im[c]
                    },
            decreases n - i,
        {
            let j: usize = self.rev[i];
            proof {
                lemma_reversed_twice(b, i as int);
                assert forall|c: int| 0 <= c < n && #[trigger] reversed(b, c) == i implies c
                    == j by {
                    lemma_reversed_twice(b, c);
                }
            }
            if j > i {
                let (ri, rj): (T, T) = (re[i], re[j]);
                let (ii, ij): (T, T) = (im[i], im[j]);
                re.set(i, rj);
                re.set(j, ri);
                im.set(i, ij);
                im.set(j, ii);
            }
            i = i + 1;
        }
    }

    /// One butterfly: the values at `a` and `b` become their sum and difference, the
    /// second one turned by the twiddle factor `k` first.
    fn butterfly(&self, re: &mut Vec<T>, im: &mut Vec<T>, a: usize, b: usize, k: usize)
        requires
            a < b < old(re)@.len(),
            old(im)@.len() == old(re)@.len(),
            k < self.twiddles().re.len(),
            k < self.twiddles().im.len(),
        ensures
            final(re)@ == old(re)@.update(
                b as int,
                old(re)@[a as int] - turned_re(
                    self.twiddles(),
                    k as int,
                    old(re)@[b as int],
                    old(im)@[b as int],
                ),
            ).update(
                a as int,
                old(re)@[a as int] + turned_re(
                    self.twiddles(),
                    k as int,
                    old(re)@[b as int],
                    old(im)@[b as int],
                ),
            ),
            final(im)@ == old(im)@.update(
                b as int,
                old(im)@[a as int] - turned_im(
                    self.twiddles(),
                    k as int,
                    old(re)@[b as int],
                    old(im)@[b as int],
                ),
            ).update(
                a as int,
                old(im)@[a as int] + turned_im(
                    self.twiddles(),
                    k as int,
                    old(re)@[b as int],
                    old(im)@[b as int],
                ),
            ),
    {
        T::lawful();
        let wr: T = self.tw_re[k];
        let wi: T = self.tw_im[k];
        let tr: T = wr * re[b] - wi * im[b];
        let ti: T = wr * im[b] + wi * re[b];
        let (ra, ia): (T, T) = (re[a], im[a]);
        re.set(b, ra - tr);
        im.set(b, ia - ti);
        re.set(a, ra + tr);
        im.set(a, ia + ti);
    }

    /// One pass of butterflies over all blocks of `2 * half` values.
    fn pass(&self, re: &mut Vec<T>, im: &mut Vec<T>, half: usize, step: usize)
        requires
            self.wf(),
            old(re)@.len() == self.len(),
            old(im)@.len() == self.len(),
            half > 0,
            2 * half * step == self.len(),
        ensures
            final(re)@.len() == self.len(),
            final(im)@.len() == self.len(),
            forall|c: int|
                0 <= c < self.len() ==> (#[trigger] final(re)@[c], final(im)@[c]) == passed(
                    Signal { re: old(re)@, im: old(im)@ },
                    self.twiddles(),
                    half as int,
                    step as int,
                    c,
                ),
    {
        let n: usize = self.n;
        let ghost x = Signal { re: re@, im: im@ };
        let ghost tw = self.twiddles();
        let ghost len = 2 * half;
        let mut base: usize = 0;
        proof {
            self.lemma_len();
        }
        assert(2 * half <= n) by (nonlinear_arith)
            requires
                2 * half * step == n,
                n > 0,
                half > 0,
        ;
        assert(n as int % len == 0) by {
            assert(n == len * step);
            vstd::arithmetic::div_mod::lemma_mod_multiples_basic(step as int, len);
            assert(step * len == len * step) by (nonlinear_arith);
        }
        while base < n
            invariant
                self.wf(),
                n == self.len(),
                tw == self.twiddles(),
                len == 2 * half,
                half > 0,
                2 * half * step == n,
                2 * half <= n,
                base <= n,
                base as int % len == 0,
                n as int % len == 0,
                re@.len() == n,
                im@.len() == n,
                x.re.len() == n,
                x.im.len() == n,
                forall|c: int|
                    0 <= c < base ==> (#[trigger] re@[c], im@[c]) == passed(
                        x,
                        tw,
                        half as int,
                        step as int,
                        c,
                    ),
                forall|c: int|
                    base <= c < n ==> #[trigger] re@[c] == x.re[c],
                forall|c: int| base <= c < n ==> #[trigger] im@[c] == x.im[c],
            decreases n - base,
        {
            proof {
                lemma_room(base as int, n as int, len);
            }
            let mut j: usize = 0;
            let mut k: usize = 0;
            assert(0int * step == 0) by (nonlinear_arith);
            while j < half
                invariant
                    self.wf(),
                    n == self.len(),
                    tw == self.twiddles(),
                    len == 2 * half,
                    half > 0,
                    2 * half * step == n,
                    base + 2 * half <= n,
                    base as int % len == 0,
                    j <= half,
                    k == j * step,
                    re@.len() == n,
                    im@.len() == n,
                    x.re.len() == n,
                    x.im.len() == n,
                    forall|c: int|
                        0 <= c < base ==> (#[trigger] re@[c], im@[c]) == passed(
                            x,
                            tw,
                            half as int,
                            step as int,
                            c,
                        ),
                    forall|c: int|
                        base <= c < base + j || base + half <= c < base + half + j ==> (
                            #[trigger] re@[c],
                            im@[c],
                        ) == passed(x, tw, half as int, step as int, c),
                    forall|c: int|
                        base + j <= c < base + half || base + half + j <= c < n ==> #[trigger] re@[c]
                            == x.re[c],
                    forall|c: int|
                        base + j <= c < base + half || base + half + j <= c < n ==> #[trigger] im@[c]
                            == x.im[c],
                decreases half - j,
            {
                let a: usize = base + j;
                let b: usize = a + half;
                proof {
                    assert(j * step < n / 2 && (j + 1) * step == j * step + step && step <= n
                        && (j + 1) * step <= n / 2) by (nonlinear_arith)
                        requires
                            2 * half * step == n,
                            0 <= j < half,
                            n > 0,
                            step >= 0,
                    ;
                    lemma_offset(base as int, len, j as int);
                    lemma_offset(base as int, len, j + half);
                    assert(re@[a as int] == x.re[a as int]);
                    assert(im@[a as int] == x.im[a as int]);
                    assert(re@[b as int] == x.re[b as int]);
                    assert(im@[b as int] == x.im[b as int]);
                }
                self.butterfly(re, im, a, b, k);
                k = k + step;
                j = j + 1;
            }
            proof {
                lemma_next_block(base as int, len);
            }
            base = base + 2 * half;
        }
    }

    /// In-place forward transform of the complex values `re`, `im`.
    pub fn transform(&self, re: &mut Vec<T>, im: &mut Vec<T>)
        requires
            self.wf(),
            old(re)@.len() == self.len(),
            old(im)@.len() == self.len(),
        ensures
            (Signal { re: final(re)@, im: final(im)@ }) == spectrum(
                Signal { re: old(re)@, im: old(im)@ },
                self.twiddles(),
                0,
                1,
                self.levels(),
            ),
    {
        let n: usize = self.n;
        let ghost b = self.levels();
        let ghost tw = self.twiddles();
        let ghost x = Signal { re: re@, im: im@ };
        self.permute(re, im);
        let mut half: usize = 1;
        let mut l: usize = 0;
        proof {
            vstd::arithmetic::power2::lemma2_to64();
            assert forall|block: int, t: int| 0 <= block < pow2(b) && 0 <= t < pow2(0) implies {
                let s = spectrum(x, tw, reversed(b, block), pow2(b) as int, 0);
                &&& #[trigger] crate::grid::at(re@, pow2(0) as int, t, block) == s.re[t]
                &&& crate::grid::at(im@, pow2(0) as int, t, block) == s.im[t]
            } by {
                assert(block * 1 + t == block);
                assert(re@[block] == x.re[reversed(b, block)]);
                assert(im@[block] == x.im[reversed(b, block)]);
            }
        }
        while half < n
            invariant
                self.wf(),
                n == self.len(),
                b == self.levels(),
                n == pow2(b),
                tw == self.twiddles(),
                l <= b,
                half == pow2(l as nat),
                re@.len() == n,
                im@.len() == n,
                level(Signal { re: re@, im: im@ }, x, tw, b, l as nat),
            decreases n - half,
        {
            let ghost y = Signal { re: re@, im: im@ };
            proof {
                assert(l != b);
                lemma_pow2_pos(l as nat);
                lemma_pow2_unfold((l + 1) as nat);
                lemma_pow2_adds((l + 1) as nat, (b - l - 1) as nat);
                lemma_pow2_pos((b - l - 1) as nat);
                let step = pow2((b - l - 1) as nat) as int;
                assert((l + 1) + (b - l - 1) == b);
                assert(n == 2 * half * step);
                vstd::arithmetic::div_mod::lemma_div_by_multiple(step, 2 * half);
                assert(step * (2 * half) == 2 * half * step) by (nonlinear_arith);
                assert(2 * half <= n) by (nonlinear_arith)
                    requires
                        n == 2 * half * step,
                        step >= 1,
                        half >= 0,
                ;
            }
            let step: usize = n / (2 * half);
            self.pass(re, im, half, step);
            proof {
                lemma_pass(y, Signal { re: re@, im: im@ }, x, tw, b, l as nat);
            }
            half = 2 * half;
            l = l + 1;
        }
        proof {
            if l < b {
                vstd::arithmetic::power2::lemma_pow2_strictly_increases(l as nat, b);
            }
            assert(l == b);
            vstd::arithmetic::power2::lemma2_to64();
            let s = spectrum(x, tw, 0, 1, b);
            lemma_spectrum_len(x, tw, 0, 1, b);
            lemma_reversed_zero(0);
            assert forall|t: int| 0 <= t < n implies re@[t] == s.re[t] && im@[t] == s.im[t] by {
                assert(0int * pow2(b) == 0) by (nonlinear_arith);
                let y = Signal { re: re@, im: im@ };
                assert(crate::grid::at(y.re, pow2(l as nat) as int, t, 0) == re@[t]);
                assert(reversed((b - l) as nat, 0) == 0);
                assert(pow2((b - l) as nat) == 1);
            }
            assert(re@ =~= s.re);
            assert(im@ =~= s.im);
        }
    }
}

/// A whole block fits before `n`.
proof fn lemma_room(base: int, n: int, len: int)
    requires
        0 <= base < n,
        len > 0,
        base % len == 0,
        n % len == 0,
    ensures
        base + len <= n,
{
    lemma_fundamental_div_mod(base, len);
    lemma_fundamental_div_mod(n, len);
    assert(base + len <= n) by (nonlinear_arith)
        requires
            base == len * (base / len),
            n == len * (n / len),
            base < n,
            len > 0,
    ;
}

proof fn lemma_next_block(base: int, len: int)
    requires
        len > 0,
        base % len == 0,
    ensures
        (base + len) % len == 0,
{
    vstd::arithmetic::div_mod::lemma_mod_add_multiples_vanish(base, len);
}

proof fn lemma_offset(base: int, len: int, r: int)
    requires
        0 <= r < len,
        base % len == 0,
    ensures
        (base + r) % len == r,
{
    lemma_fundamental_div_mod(base, len);
    assert((base / len) * len == len * (base / len)) by (nonlinear_arith);
    lemma_fundamental_div_mod_converse(base + r, len, base / len, r);
}

proof fn lemma_reversed_zero(b: nat)
    ensures
        reversed(b, 0) == 0,
    decreases b,
{
    if b > 0 {
        lemma_reversed_zero((b - 1) as nat);
        assert((0int % 2) * pow2((b - 1) as nat) == 0) by (nonlinear_arith);
    }
}

} // verus!
