//! Transposing a square.
use crate::grid::{at, lemma_index, lemma_is_tabulated, lemma_tabulate};
use crate::poisson::turned_over;
use vstd::prelude::*;

verus! {

/// Transposing exchanges columns and rows, and doing it twice changes nothing.
pub proof fn law_transposed_twice<A>(a: Seq<A>, m: int)
    requires
        0 <= m,
        m * m <= a.len(),
    ensures
        turned_over(a, m).len() == a.len(),
        forall|i: int, j: int|
            0 <= i < m && 0 <= j < m ==> #[trigger] at(turned_over(a, m), m, i, j) == at(a, m, j, i),
        turned_over(turned_over(a, m), m) == a,
{
    let cells = |p: int, q: int| at(a, m, q, p);
    let b = turned_over(a, m);
    assert forall|i: int, j: int| 0 <= i < m && 0 <= j < m implies #[trigger] at(b, m, i, j) == at(
        a,
        m,
        j,
        i,
    ) by {
        lemma_index(m, i, j);
        lemma_tabulate(m, cells, i, j);
    }
    let square = a.take(m * m);
    let back = |p: int, q: int| at(b, m, q, p);
    assert forall|i: int, j: int| 0 <= i < m && 0 <= j < m implies #[trigger] at(square, m, i, j)
        == back(i, j) by {
        lemma_index(m, i, j);
        assert(at(b, m, j, i) == at(a, m, i, j));
    }
    assert(0 <= m * m) by (nonlinear_arith);
    lemma_is_tabulated(square, m, back);
    assert(turned_over(b, m) =~= a);
}

} // verus!
