//! The thread pool. Work is handed out row by row; what a row yields depends on
//! its index alone, so neither the number of threads nor the size of a task can
//! be seen in a result.
use rayon::iter::{IndexedParallelIterator, IntoParallelIterator, ParallelIterator};
use vstd::prelude::*;

verus! {

/// Calls rayon's `into_par_iter`, `with_min_len`, `map` and `collect` on the range
/// `lo..hi`: the vector holds, in the order of the range, what `f` returned for
/// each index. `min_len` only bounds from below how many indices one task takes.
#[verifier::external_body]
pub(crate) fn map_range<R: Send, F: Fn(usize) -> R + Sync + Send>(
    lo: usize,
    hi: usize,
    min_len: usize,
    f: F,
) -> (out: Vec<R>)
    requires
        lo <= hi,
        forall|j: usize| lo <= j < hi ==> f.requires((j,)),
    ensures
        out@.len() == hi - lo,
        forall|k: int|
            #![trigger out@[k]]
            0 <= k < hi - lo ==> f.ensures(((lo + k) as usize,), out@[k]),
{
    (lo..hi).into_par_iter().with_min_len(min_len).map(f).collect()
}

/// Calls `rayon::current_num_threads`. The number is that of the thread pool the
/// program happens to run in, so nothing is stated of it.
#[verifier::external_body]
pub(crate) fn current_num_threads() -> (r: usize) {
    rayon::current_num_threads()
}

} // verus!
