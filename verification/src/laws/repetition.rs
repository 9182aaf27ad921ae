//! What a solver does rests on its configuration and its fields alone.
use crate::scalar::Scalar;
use crate::solver::{chooses_direct, Solver};
use vstd::prelude::*;

verus! {

/// The choice of the Poisson solver follows from the configuration, whatever calls were
/// made since: never the direct one for "sor", always for "fft", else where the grid
/// allows it.
pub proof fn law_choice_of_solver<T: Scalar>(s: Solver<T>)
    requires
        s.wf(),
    ensures
        s.model().direct is Some == chooses_direct(s.config().solver@, s.config().n as int),
{
    s.lemma_wf();
}

/// The number of threads does not show: two solvers with equal configurations and fields
/// take the same step, and report the same of it, however their work was divided.
pub proof fn law_threads_do_not_show<T: Scalar>(a: Solver<T>, b: Solver<T>, dt: T)
    requires
        a.wf(),
        b.wf(),
        a.config() == b.config(),
        a.flow() == b.flow(),
    ensures
        a.model().with_poisson(a.flow()) == b.model().with_poisson(b.flow()),
        a.model().with_walls(a.flow()) == b.model().with_walls(b.flow()),
        a.model().step(a.flow(), dt) == b.model().step(b.flow(), dt),
        a.model().step_iterations(a.flow(), dt) == b.model().step_iterations(b.flow(), dt),
        a.model().step_report(a.flow(), dt) == b.model().step_report(b.flow(), dt),
{
    a.lemma_wf();
    b.lemma_wf();
}

} // verus!
