//! The course of a run: how long each step may be and when a frame is due.
use crate::scalar::{min_of, nil, smaller, zero, Arith, Scalar};
use vstd::prelude::*;

verus! {

/// How far a run has come.
pub struct Clock<T> {
    /// simulated time
    pub t: T,
    /// steps made
    pub step: usize,
    /// frames written
    pub frame: usize,
    /// time of the next frame
    pub next_out: T,
}

/// The longest step that diffusion allows; `unlimited` where there is no viscosity.
pub open spec fn viscous_limit<A: Arith>(h: A, nu: A, unlimited: A) -> A {
    if nil::<A>() < nu {
        A::ratio(1, 4) * h * h / nu
    } else {
        unlimited
    }
}

/// A step cut short where it would pass `mark`.
pub open spec fn landing<A: Arith>(t: A, dt: A, mark: A) -> A {
    if mark < t + dt {
        mark - t
    } else {
        dt
    }
}

/// The step that advection and diffusion allow.
pub open spec fn stable_step<A: Arith>(cfl: A, h: A, umax: A, limit: A) -> A {
    smaller(cfl * h / umax, limit)
}

/// The step to make: the longest stable one, cut to land on the next frame and on the
/// end of the run.
pub open spec fn time_step<A: Arith>(
    t: A,
    next_out: A,
    t_end: A,
    cfl: A,
    h: A,
    umax: A,
    limit: A,
) -> A {
    landing(t, landing(t, stable_step(cfl, h, umax, limit), next_out), t_end)
}

/// The slack within which a time counts as reached.
pub open spec fn slack<A: Arith>() -> A {
    A::ratio(1, 1000000000000)
}

/// Whether the time of a frame is reached.
pub open spec fn frame_due<A: Arith>(t: A, next_out: A) -> bool {
    next_out - slack::<A>() <= t
}

/// The longest step that diffusion allows.
pub fn visc_dt_limit<T: Scalar>(h: T, nu: T, unlimited: T) -> (r: T)
    ensures
        r == viscous_limit(h, nu, unlimited),
{
    T::lawful();
    if zero::<T>().less_than(nu) {
        T::from_ratio(1, 4) * h * h / nu
    } else {
        unlimited
    }
}

fn cut<T: Scalar>(t: T, dt: T, mark: T) -> (r: T)
    ensures
        r == landing(t, dt, mark),
{
    T::lawful();
    if mark.less_than(t + dt) {
        mark - t
    } else {
        dt
    }
}

/// The CFL number that a step has.
pub open spec fn courant<A: Arith>(umax: A, dt: A, h: A) -> A {
    umax * dt / h
}

/// The CFL number that a step has.
pub fn cfl_of<T: Scalar>(umax: T, dt: T, h: T) -> (r: T)
    ensures
        r == courant(umax, dt, h),
{
    T::lawful();
    umax * dt / h
}

impl<A: Arith> Clock<A> {
    /// The clock after the frame of the fluid at rest was written.
    pub open spec fn started(out_every: A) -> Clock<A> {
        Clock { t: nil(), step: 0, frame: 1, next_out: nil::<A>() + out_every }
    }

    /// The clock after a step of length `dt` and the frame that is due, if one is.
    pub open spec fn ticked(self, dt: A, out_every: A) -> Clock<A> {
        let t = self.t + dt;
        let step = (self.step + 1) as usize;
        if frame_due(t, self.next_out) {
            Clock {
                t,
                step,
                frame: (self.frame + 1) as usize,
                next_out: self.next_out + out_every,
            }
        } else {
            Clock { t, step, frame: self.frame, next_out: self.next_out }
        }
    }
}

impl<T: Scalar> Clock<T> {
    /// The clock after the frame of the fluid at rest was written.
    pub fn start(out_every: T) -> (r: Clock<T>)
        ensures
            r.t == nil::<T>(),
            r.step == 0,
            r.frame == 1,
            r.next_out == nil::<T>() + out_every,
            r == Clock::<T>::started(out_every),
    {
        T::lawful();
        Clock { t: zero(), step: 0, frame: 1, next_out: zero::<T>() + out_every }
    }

    /// Whether the run goes on.
    pub fn running(&self, t_end: T) -> (r: bool)
        ensures
            r == (self.t < t_end),
    {
        self.t.less_than(t_end)
    }

    /// The length of the next step.
    pub fn next_dt(&self, t_end: T, cfl: T, h: T, umax: T, limit: T) -> (r: T)
        ensures
            r == time_step(self.t, self.next_out, t_end, cfl, h, umax, limit),
    {
        T::lawful();
        let dt: T = min_of(cfl * h / umax, limit);
        cut(self.t, cut(self.t, dt, self.next_out), t_end)
    }

    /// Counts a step of length `dt`. Returns the number of the frame that is due, if
    /// one is.
    pub fn advance(&mut self, dt: T, out_every: T) -> (r: Option<usize>)
        requires
            old(self).step < usize::MAX,
            old(self).frame < usize::MAX,
        ensures
            *final(self) == old(self).ticked(dt, out_every),
            final(self).t == old(self).t + dt,
            final(self).step == old(self).step + 1,
            frame_due(old(self).t + dt, old(self).next_out) ==> {
                &&& r == Some(old(self).frame)
                &&& final(self).frame == old(self).frame + 1
                &&& final(self).next_out == old(self).next_out + out_every
            },
            !frame_due(old(self).t + dt, old(self).next_out) ==> {
                &&& r is None
                &&& final(self).frame == old(self).frame
                &&& final(self).next_out == old(self).next_out
            },
    {
        T::lawful();
        self.t = self.t + dt;
        self.step = self.step + 1;
        let eps: T = T::from_ratio(1, 1000000000000);
        if (self.next_out - eps).at_most(self.t) {
            let due: usize = self.frame;
            self.frame = self.frame + 1;
            self.next_out = self.next_out + out_every;
            Some(due)
        } else {
            None
        }
    }
}

} // verus!
