//! The course of a run in exact arithmetic.
use crate::laws::exact::lemma_nil;
use crate::run::{courant, frame_due, slack, stable_step, time_step, viscous_limit, Clock};
use vstd::prelude::*;

verus! {

/// A step passes neither the next frame nor the end of the run, and is no longer than
/// the step that is stable. Before both it goes forward.
pub proof fn law_step_lands(
    t: real,
    next_out: real,
    t_end: real,
    cfl: real,
    h: real,
    umax: real,
    limit: real,
)
    ensures
        ({
            let dt = time_step(t, next_out, t_end, cfl, h, umax, limit);
            let stable = stable_step(cfl, h, umax, limit);
            &&& t + dt <= next_out
            &&& t + dt <= t_end
            &&& dt <= stable
            &&& t < next_out && t < t_end && 0real < stable ==> 0real < dt
            &&& dt == stable || t + dt == next_out || t + dt == t_end
        }),
{
}

/// The step that is stable keeps the CFL number at or below its target and the step at
/// or below the limit of diffusion.
pub proof fn law_step_is_stable(cfl: real, h: real, umax: real, limit: real, dt: real)
    requires
        0real < h,
        0real < umax,
        dt <= stable_step(cfl, h, umax, limit),
    ensures
        umax * dt / h <= cfl,
        dt <= limit,
{
    let q = cfl * h / umax;
    assert(dt <= q);
    let p = cfl * h;
    assert(q * umax == p) by (nonlinear_arith)
        requires
            q == p / umax,
            0real < umax,
    ;
    let a = umax * dt;
    assert(a <= p) by (nonlinear_arith)
        requires
            a == umax * dt,
            dt <= q,
            q * umax == p,
            0real < umax,
    ;
    let r = a / h;
    assert(r * h == a) by (nonlinear_arith)
        requires
            r == a / h,
            0real < h,
    ;
    assert(r <= cfl) by (nonlinear_arith)
        requires
            r * h == a,
            a <= p,
            p == cfl * h,
            0real < h,
    ;
}

/// Diffusion limits the step to a diffusion number of a quarter; without viscosity it does
/// not limit it.
pub proof fn law_viscous_limit(h: real, nu: real, unlimited: real)
    ensures
        h != 0real && 0real < nu ==> nu * viscous_limit(h, nu, unlimited) / (h * h) == 1real
            / 4real,
        nu <= 0real ==> viscous_limit(h, nu, unlimited) == unlimited,
{
    lemma_nil();
    if h != 0real && 0real < nu {
        let q = 1int as real / 4int as real;
        let a = q * h * h;
        let lim = viscous_limit(h, nu, unlimited);
        assert(lim == a / nu);
        assert(nu * lim == a) by (nonlinear_arith)
            requires
                lim == a / nu,
                0real < nu,
        ;
        let h2 = h * h;
        assert(h2 != 0real) by (nonlinear_arith)
            requires
                h2 == h * h,
                h != 0real,
        ;
        assert(a == q * h2) by (nonlinear_arith)
            requires
                a == q * h * h,
                h2 == h * h,
        ;
        assert(a / h2 == q) by (nonlinear_arith)
            requires
                a == q * h2,
                h2 != 0real,
        ;
    }
}

/// The stable step is no shorter than it has to be: it reaches the target of the CFL number
/// or the limit of diffusion.
pub proof fn law_stable_step_is_longest(cfl: real, h: real, umax: real, limit: real)
    requires
        0real < h,
        0real < umax,
    ensures
        ({
            let dt = stable_step(cfl, h, umax, limit);
            &&& courant(umax, dt, h) <= cfl
            &&& dt <= limit
            &&& courant(umax, dt, h) == cfl || dt == limit
        }),
{
    let dt = stable_step(cfl, h, umax, limit);
    law_step_is_stable(cfl, h, umax, limit, dt);
    if dt != limit {
        let p = cfl * h;
        let a = umax * dt;
        assert(a == p) by (nonlinear_arith)
            requires
                a == umax * dt,
                dt == p / umax,
                0real < umax,
        ;
        assert(a / h == cfl) by (nonlinear_arith)
            requires
                a == cfl * h,
                0real < h,
        ;
    }
}

/// The CFL number of a step is the number of cells that the fastest fluid crosses in it.
pub proof fn law_courant(umax: real, dt: real, h: real)
    requires
        h != 0real,
    ensures
        courant(umax, dt, h) * h == umax * dt,
{
    let a = umax * dt;
    assert(a / h * h == a) by (nonlinear_arith)
        requires
            h != 0real,
    ;
}

/// A frame is due from a millionth of a millionth before its time on.
pub proof fn law_frame_due(t: real, next_out: real)
    ensures
        frame_due(t, next_out) <==> 1000000000000real * (next_out - t) <= 1real,
{
    let n = 1000000000000int as real;
    let q = 1int as real / n;
    assert(n * q == 1real) by (nonlinear_arith)
        requires
            q == 1real / n,
            n == 1000000000000real,
    ;
    let d = next_out - t;
    assert(d <= q <==> n * d <= 1real) by (nonlinear_arith)
        requires
            n * q == 1real,
            0real < n,
    ;
}

/// The next frame always lies ahead: a step that does not pass it either leaves it ahead,
/// or makes it due and moves on to the one after it.
pub proof fn law_next_frame_ahead(t: real, dt: real, next_out: real, out_every: real)
    requires
        t + dt <= next_out,
        0real < out_every,
    ensures
        frame_due(t + dt, next_out) ==> t + dt < next_out + out_every,
        !frame_due(t + dt, next_out) ==> t + dt < next_out,
        t + dt == next_out ==> frame_due(t + dt, next_out),
{
    let s = slack::<real>();
    assert(0real < s) by {
        let n = 1000000000000int as real;
        let q = 1int as real / n;
        assert(0real < q) by (nonlinear_arith)
            requires
                q == 1real / n,
                n == 1000000000000real,
        ;
    }
}

/// Frame number `k` belongs to the time `k * out_every`: the clock starts out that way, each
/// step goes on from where the last one ended and keeps it, and a frame that is counted is
/// not early by more than a millionth of a millionth.
pub proof fn law_frames_on_time(c: Clock<real>, dt: real, out_every: real)
    requires
        c.step < usize::MAX,
        c.frame < usize::MAX,
        c.next_out == c.frame as real * out_every,
    ensures
        ({
            let first = Clock::<real>::started(out_every);
            let next = c.ticked(dt, out_every);
            &&& first.t == 0real && first.step == 0 && first.frame == 1
            &&& first.next_out == first.frame as real * out_every
            &&& next.t == c.t + dt
            &&& next.step == c.step + 1
            &&& next.next_out == next.frame as real * out_every
            &&& next.frame == c.frame || next.frame == c.frame + 1
            &&& next.frame == c.frame + 1 <==> 1000000000000real * (c.frame as real * out_every
                - next.t) <= 1real
        }),
{
    lemma_nil();
    law_frame_due(c.t + dt, c.next_out);
    let k = c.frame as real;
    assert((k + 1real) * out_every == k * out_every + out_every) by (nonlinear_arith);
    assert(1real * out_every == out_every);
}

} // verus!
