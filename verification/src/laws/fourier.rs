//! The fast transform is the discrete Fourier transform.
use crate::fft::{joined, roots_of_unity, spectrum, turned_im, turned_re, Signal};
use crate::laws::algebra::{lemma_associate, lemma_commute, lemma_times_minus, lemma_times_plus};
use crate::laws::circle::{angle, circle_of, lemma_circle, lemma_half_turns, Circle};
use crate::laws::exact::{lemma_whole, trigonometry};
use crate::laws::sums::{lemma_sigma_linear, lemma_sigma_same, sigma};
use vstd::arithmetic::power2::{lemma2_to64, lemma_pow2_pos, lemma_pow2_unfold, pow2};
use vstd::prelude::*;

verus! {

/// The real part of a member of `x`, turned back by an angle.
pub open spec fn part_re(x: Signal<real>, o: Circle, t: int, angle: int) -> real {
    x.re[t] * o.cos(angle) + x.im[t] * o.sin(angle)
}

/// The imaginary part of a member of `x`, turned back by an angle.
pub open spec fn part_im(x: Signal<real>, o: Circle, t: int, angle: int) -> real {
    x.im[t] * o.cos(angle) - x.re[t] * o.sin(angle)
}

/// The real part of frequency `k` of the members `offset`, `offset + stride`, ...
pub open spec fn dft_re(
    x: Signal<real>,
    o: Circle,
    offset: int,
    stride: int,
    len: int,
    k: int,
) -> real {
    sigma(|t: int| part_re(x, o, offset + t * stride, k * (t * stride)), 0, len)
}

/// The imaginary part of that frequency.
pub open spec fn dft_im(
    x: Signal<real>,
    o: Circle,
    offset: int,
    stride: int,
    len: int,
    k: int,
) -> real {
    sigma(|t: int| part_im(x, o, offset + t * stride, k * (t * stride)), 0, len)
}

/// Twiddle factor `k` is the root of unity at `k` parts, clockwise.
pub open spec fn twiddle_of(tw: Signal<real>, o: Circle, k: int) -> bool {
    tw.re[k] == o.cos(k) && tw.im[k] == -o.sin(k)
}

/// The twiddle factors are the roots of unity of the first half turn.
pub open spec fn twiddles_of(tw: Signal<real>, o: Circle, half: int) -> bool {
    forall|k: int| 0 <= k < half ==> #[trigger] twiddle_of(tw, o, k)
}

/// A sum split into its even and its odd terms.
pub proof fn lemma_sigma_parity(
    f: spec_fn(int) -> real,
    even: spec_fn(int) -> real,
    odd: spec_fn(int) -> real,
    len: int,
)
    requires
        len >= 0,
        forall|u: int| 0 <= u < len ==> #[trigger] even(u) == f(2 * u),
        forall|u: int| 0 <= u < len ==> #[trigger] odd(u) == f(2 * u + 1),
    ensures
        sigma(f, 0, 2 * len) == sigma(even, 0, len) + sigma(odd, 0, len),
    decreases len,
{
    if len > 0 {
        lemma_sigma_parity(f, even, odd, len - 1);
        assert(even(len - 1) == f(2 * (len - 1)));
        assert(odd(len - 1) == f(2 * (len - 1) + 1));
        assert(sigma(f, 0, 2 * len) == sigma(f, 0, 2 * len - 1) + f(2 * len - 1));
        assert(sigma(f, 0, 2 * len - 1) == sigma(f, 0, 2 * len - 2) + f(2 * len - 2));
    }
}

/// Products of two sums of two products.
proof fn lemma_expand(a: real, b: real, p: real, q: real, r: real, s: real)
    ensures
        a * (p * q + r * s) + b * (r * q - p * s) == p * (a * q - b * s) + r * (b * q + a * s),
{
    lemma_times_plus(a, p * q, r * s);
    lemma_times_minus(b, r * q, p * s);
    lemma_times_minus(p, a * q, b * s);
    lemma_times_plus(r, b * q, a * s);
    lemma_swap(a, p, q);
    lemma_swap(a, r, s);
    lemma_swap(b, r, q);
    lemma_swap(b, p, s);
}

proof fn lemma_swap(a: real, p: real, q: real)
    ensures
        a * (p * q) == p * (a * q),
{
    lemma_associate(a, p, q);
    lemma_associate(p, a, q);
    lemma_commute(a, p);
}

/// Turning by two angles one after the other.
proof fn lemma_turn(x: Signal<real>, o: Circle, half: int, t: int, a: int, b: int)
    requires
        o.parts(half),
    ensures
        part_re(x, o, t, a + b) == o.cos(a) * part_re(x, o, t, b) + o.sin(a) * part_im(x, o, t, b),
        part_im(x, o, t, a + b) == o.cos(a) * part_im(x, o, t, b) - o.sin(a) * part_re(x, o, t, b),
{
    assert(o.adds(a, b));
    let (re, im) = (x.re[t], x.im[t]);
    let (ca, sa, cb, sb) = (o.cos(a), o.sin(a), o.cos(b), o.sin(b));
    // real part
    lemma_expand(ca, sa, re, cb, im, sb);
    // imaginary part
    lemma_times_minus(ca, im * cb, re * sb);
    lemma_times_plus(sa, re * cb, im * sb);
    lemma_times_minus(im, ca * cb, sa * sb);
    lemma_times_plus(re, sa * cb, ca * sb);
    lemma_swap(ca, im, cb);
    lemma_swap(ca, re, sb);
    lemma_swap(sa, re, cb);
    lemma_swap(sa, im, sb);
}

/// A further half turn changes the sign, two change nothing.
proof fn lemma_sign(x: Signal<real>, o: Circle, half: int, t: int, a: int, r: int)
    requires
        o.parts(half),
        r >= 0,
    ensures
        r % 2 == 0 ==> part_re(x, o, t, half * r + a) == part_re(x, o, t, a),
        r % 2 == 0 ==> part_im(x, o, t, half * r + a) == part_im(x, o, t, a),
        r % 2 == 1 ==> part_re(x, o, t, half * r + a) == -part_re(x, o, t, a),
        r % 2 == 1 ==> part_im(x, o, t, half * r + a) == -part_im(x, o, t, a),
{
    lemma_half_turns(o, half, r);
    lemma_turn(x, o, half, t, half * r, a);
    let (p, q) = (part_re(x, o, t, a), part_im(x, o, t, a));
    assert(0real * p == 0real && 0real * q == 0real) by (nonlinear_arith);
    assert(1real * p == p && 1real * q == q);
    assert(-1real * p == -p && -1real * q == -q);
}

/// The angles that a frequency of the whole has in the two halves.
proof fn lemma_angles(half: int, stride: int, hf: int, k: int, u: int)
    requires
        stride * hf == half,
    ensures
        k * (2 * u * stride) == k * (u * (2 * stride)),
        k * ((2 * u + 1) * stride) == k * stride + k * (u * (2 * stride)),
        (k + hf) * (2 * u * stride) == half * (2 * u) + k * (u * (2 * stride)),
        (k + hf) * ((2 * u + 1) * stride) == half * (2 * u + 1) + (k * stride + k * (u * (2
            * stride))),
{
    let w = u * stride;
    assert(2 * u * stride == 2 * w && u * (2 * stride) == 2 * w && (2 * u + 1) * stride == 2 * w
        + stride) by (nonlinear_arith)
        requires
            w == u * stride,
    ;
    assert(k * (2 * w + stride) == k * stride + k * (2 * w)) by (nonlinear_arith);
    assert(hf * (2 * w) == half * (2 * u)) by (nonlinear_arith)
        requires
            w == u * stride,
            stride * hf == half,
    ;
    assert(hf * stride == half) by (nonlinear_arith)
        requires
            stride * hf == half,
    ;
    assert((k + hf) * (2 * w) == k * (2 * w) + hf * (2 * w)) by (nonlinear_arith);
    assert((k + hf) * (2 * w + stride) == k * (2 * w) + hf * (2 * w) + k * stride + hf * stride)
        by (nonlinear_arith);
    assert(half * (2 * u + 1) == half * (2 * u) + half) by (nonlinear_arith);
}

/// One term of the whole, as a term of a half.
proof fn lemma_term(
    x: Signal<real>,
    o: Circle,
    half: int,
    offset: int,
    stride: int,
    hf: int,
    k: int,
    u: int,
)
    requires
        o.parts(half),
        stride * hf == half,
        0 <= k < 2 * hf,
        u >= 0,
    ensures
        ({
            let low = if k < hf {
                k
            } else {
                k - hf
            };
            let even = offset + u * (2 * stride);
            let odd = offset + stride + u * (2 * stride);
            let angle = low * (u * (2 * stride));
            let (c, s) = (o.cos(low * stride), o.sin(low * stride));
            let sign = if k < hf {
                1real
            } else {
                -1real
            };
            &&& part_re(x, o, offset + 2 * u * stride, k * (2 * u * stride)) == part_re(
                x,
                o,
                even,
                angle,
            )
            &&& part_im(x, o, offset + 2 * u * stride, k * (2 * u * stride)) == part_im(
                x,
                o,
                even,
                angle,
            )
            &&& part_re(x, o, offset + (2 * u + 1) * stride, k * ((2 * u + 1) * stride)) == (sign
                * c) * part_re(x, o, odd, angle) + (sign * s) * part_im(x, o, odd, angle)
            &&& part_im(x, o, offset + (2 * u + 1) * stride, k * ((2 * u + 1) * stride)) == (sign
                * c) * part_im(x, o, odd, angle) + (-(sign * s)) * part_re(x, o, odd, angle)
        }),
{
    let low = if k < hf {
        k
    } else {
        k - hf
    };
    lemma_angles(half, stride, hf, low, u);
    assert(u * (2 * stride) == 2 * u * stride) by (nonlinear_arith);
    assert((2 * u + 1) * stride == 2 * u * stride + stride) by (nonlinear_arith);
    let even = offset + 2 * u * stride;
    let odd = even + stride;
    let angle = low * (u * (2 * stride));
    lemma_turn(x, o, half, odd, low * stride, angle);
    let (c, s) = (o.cos(low * stride), o.sin(low * stride));
    let (p, q) = (part_re(x, o, odd, angle), part_im(x, o, odd, angle));
    assert(1real * c == c && 1real * s == s && -1real * c == -c && -1real * s == -s);
    assert((-s) * p == -(s * p)) by (nonlinear_arith);
    assert((-s) * q == -(s * q)) by (nonlinear_arith);
    assert((-c) * p == -(c * p)) by (nonlinear_arith);
    assert((-c) * q == -(c * q)) by (nonlinear_arith);
    if k >= hf {
        lemma_sign(x, o, half, even, angle, 2 * u);
        lemma_sign(x, o, half, odd, low * stride + angle, 2 * u + 1);
    }
}

/// The transform by halves, at every level.
proof fn lemma_spectrum(
    x: Signal<real>,
    tw: Signal<real>,
    o: Circle,
    half: int,
    offset: int,
    stride: int,
    b: nat,
    k: int,
)
    requires
        o.parts(half),
        twiddles_of(tw, o, half),
        stride >= 1,
        stride * pow2(b) == 2 * half,
        0 <= k < pow2(b),
    ensures
        spectrum(x, tw, offset, stride, b).re[k] == dft_re(x, o, offset, stride, pow2(b) as int, k),
        spectrum(x, tw, offset, stride, b).im[k] == dft_im(x, o, offset, stride, pow2(b) as int, k),
    decreases b,
{
    let fr = |t: int| part_re(x, o, offset + t * stride, k * (t * stride));
    let fi = |t: int| part_im(x, o, offset + t * stride, k * (t * stride));
    if b == 0 {
        lemma2_to64();
        assert(0 * stride == 0 && k * (0 * stride) == 0);
        assert(sigma(fr, 0, 1) == sigma(fr, 0, 0) + fr(0));
        assert(sigma(fi, 0, 1) == sigma(fi, 0, 0) + fi(0));
        let (re, im) = (x.re[offset], x.im[offset]);
        assert(re * 1real == re && im * 1real == im && re * 0real == 0real && im * 0real == 0real)
            by (nonlinear_arith);
    } else {
        let c = (b - 1) as nat;
        let hf = pow2(c) as int;
        lemma_pow2_unfold(b);
        lemma_pow2_pos(c);
        let (s1, s2) = (stride, 2 * stride);
        assert(s2 * hf == 2 * half) by (nonlinear_arith)
            requires
                s2 == 2 * s1,
                s1 * (2 * hf) == 2 * half,
        ;
        assert(s1 * hf == half) by (nonlinear_arith)
            requires
                s1 * (2 * hf) == 2 * half,
        ;
        let low = if k < hf {
            k
        } else {
            k - hf
        };
        lemma_spectrum(x, tw, o, half, offset, s2, c, low);
        lemma_spectrum(x, tw, o, half, offset + stride, s2, c, low);
        let even = spectrum(x, tw, offset, s2, c);
        let odd = spectrum(x, tw, offset + stride, s2, c);
        let er = |u: int| part_re(x, o, offset + u * s2, low * (u * s2));
        let ei = |u: int| part_im(x, o, offset + u * s2, low * (u * s2));
        let or = |u: int| part_re(x, o, offset + stride + u * s2, low * (u * s2));
        let oi = |u: int| part_im(x, o, offset + stride + u * s2, low * (u * s2));
        let tr = |u: int| fr(2 * u + 1);
        let ti = |u: int| fi(2 * u + 1);
        let sign = if k < hf {
            1real
        } else {
            -1real
        };
        let (cw, sw) = (o.cos(low * stride), o.sin(low * stride));
        assert forall|u: int| 0 <= u < hf implies #[trigger] er(u) == fr(2 * u) by {
            lemma_term(x, o, half, offset, stride, hf, k, u);
        }
        assert forall|u: int| 0 <= u < hf implies #[trigger] ei(u) == fi(2 * u) by {
            lemma_term(x, o, half, offset, stride, hf, k, u);
        }
        assert forall|u: int| 0 <= u < hf implies #[trigger] tr(u) == (sign * cw) * or(u) + (sign
            * sw) * oi(u) by {
            lemma_term(x, o, half, offset, stride, hf, k, u);
        }
        assert forall|u: int| 0 <= u < hf implies #[trigger] ti(u) == (sign * cw) * oi(u) + (-(sign
            * sw)) * or(u) by {
            lemma_term(x, o, half, offset, stride, hf, k, u);
        }
        lemma_sigma_parity(fr, er, tr, hf);
        lemma_sigma_parity(fi, ei, ti, hf);
        lemma_sigma_linear(tr, sign * cw, or, sign * sw, oi, 0, hf);
        lemma_sigma_linear(ti, sign * cw, oi, -(sign * sw), or, 0, hf);
        let at_low = low * stride;
        assert(0 <= at_low < half) by (nonlinear_arith)
            requires
                at_low == low * stride,
                0 <= low < hf,
                stride >= 1,
                stride * hf == half,
        ;
        assert(twiddle_of(tw, o, at_low));
        let (p, q) = (odd.re[low], odd.im[low]);
        assert(1real * cw == cw && 1real * sw == sw && -1real * cw == -cw && -1real * sw == -sw);
        assert((-sw) * p == -(sw * p)) by (nonlinear_arith);
        assert((-sw) * q == -(sw * q)) by (nonlinear_arith);
        assert((-cw) * p == -(cw * p)) by (nonlinear_arith);
        assert((-cw) * q == -(cw * q)) by (nonlinear_arith);
        assert(turned_re(tw, at_low, p, q) == cw * p + sw * q);
        assert(turned_im(tw, at_low, p, q) == cw * q - sw * p);
        assert(spectrum(x, tw, offset, stride, b) == joined(even, odd, tw, stride, hf));
        assert(pow2(b) == 2 * hf);
    }
}

/// The fast transform of a signal is its discrete Fourier transform, in exact
/// arithmetic and with the roots of unity as twiddle factors.
pub proof fn law_fast_transform_is_dft(
    x: Signal<real>,
    tw: Signal<real>,
    o: Circle,
    half: int,
    levels: nat,
    k: int,
)
    requires
        o.parts(half),
        twiddles_of(tw, o, half),
        pow2(levels) == 2 * half,
        0 <= k < 2 * half,
    ensures
        spectrum(x, tw, 0, 1, levels).re[k] == sigma(|t: int| part_re(x, o, t, k * t), 0, 2 * half),
        spectrum(x, tw, 0, 1, levels).im[k] == sigma(|t: int| part_im(x, o, t, k * t), 0, 2 * half),
{
    lemma_spectrum(x, tw, o, half, 0, 1, levels, k);
    let fr = |t: int| part_re(x, o, 0 + t * 1, k * (t * 1));
    let fi = |t: int| part_im(x, o, 0 + t * 1, k * (t * 1));
    let gr = |t: int| part_re(x, o, t, k * t);
    let gi = |t: int| part_im(x, o, t, k * t);
    assert forall|t: int| 0 <= t < 2 * half implies #[trigger] fr(t) == gr(t) by {
        assert(t * 1 == t);
    }
    assert forall|t: int| 0 <= t < 2 * half implies #[trigger] fi(t) == gi(t) by {
        assert(t * 1 == t);
    }
    lemma_sigma_same(fr, gr, 0, 2 * half);
    lemma_sigma_same(fi, gi, 0, 2 * half);
}

/// The twiddle factors of a plan are the roots of unity of a circle.
pub proof fn lemma_roots(half: int)
    requires
        half >= 1,
        trigonometry().valid(),
    ensures
        twiddles_of(roots_of_unity::<real>(2 * half), circle_of(half), half),
{
    let o = circle_of(half);
    let t = trigonometry();
    let tw = roots_of_unity::<real>(2 * half);
    lemma_whole(2);
    lemma_whole(2 * half);
    let hr = half as real;
    assert forall|k: int| 0 <= k < half implies #[trigger] twiddle_of(tw, o, k) by {
        lemma_whole(k);
        let a = (-2real) * t.pi * (k as real) / (2 * half) as real;
        let (pi, kr, x) = (t.pi, k as real, angle(half, k));
        assert((2 * half) as real == 2real * hr);
        assert(a == -x) by (nonlinear_arith)
            requires
                a == (-2real) * pi * kr / (2real * hr),
                x == pi * kr / hr,
                hr >= 1real,
        ;
        assert(t.mirrors(x));
    }
}

/// The transform that is planned for a length computes the discrete Fourier transform: with
/// the sine and the cosine of the real numbers, frequency `k` is the sum of the values,
/// each turned clockwise by `k` times its place in parts of the circle.
pub proof fn law_planned_transform_is_dft(x: Signal<real>, half: int, levels: nat, k: int)
    requires
        half >= 1,
        trigonometry().valid(),
        pow2(levels) == 2 * half,
        0 <= k < 2 * half,
    ensures
        spectrum(x, roots_of_unity::<real>(2 * half), 0, 1, levels).re[k] == sigma(
            |t: int| part_re(x, circle_of(half), t, k * t),
            0,
            2 * half,
        ),
        spectrum(x, roots_of_unity::<real>(2 * half), 0, 1, levels).im[k] == sigma(
            |t: int| part_im(x, circle_of(half), t, k * t),
            0,
            2 * half,
        ),
{
    lemma_circle(half);
    lemma_roots(half);
    law_fast_transform_is_dft(
        x,
        roots_of_unity::<real>(2 * half),
        circle_of(half),
        half,
        levels,
        k,
    );
}

} // verus!
