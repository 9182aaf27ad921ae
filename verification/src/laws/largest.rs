//! The largest of many real numbers.
use crate::model::peak;
use crate::plane::{largest, row_largest};
use vstd::prelude::*;

verus! {

/// `top` is the largest of `init` and of the values at the nodes off the rim of a grid of
/// `nx * ny` nodes; nodes without a value do not count.
pub open spec fn is_largest(
    init: real,
    value: spec_fn(int, int) -> Option<real>,
    nx: int,
    ny: int,
    top: real,
) -> bool {
    &&& init <= top
    &&& forall|i: int, j: int|
        1 <= i < nx - 1 && 1 <= j < ny - 1 && #[trigger] value(i, j) is Some ==> value(i, j)->0
            <= top
    &&& top == init || exists|i: int, j: int|
        1 <= i < nx - 1 && 1 <= j < ny - 1 && #[trigger] value(i, j) == Some(top)
}

/// The size of a real number.
pub open spec fn size(x: real) -> real {
    if x < 0real {
        -x
    } else {
        x
    }
}

proof fn lemma_row(init: real, value: spec_fn(int, int) -> Option<real>, j: int, hi: int)
    ensures
        init <= row_largest(init, value, j, hi),
        forall|i: int|
            1 <= i < hi && #[trigger] value(i, j) is Some ==> value(i, j)->0 <= row_largest(
                init,
                value,
                j,
                hi,
            ),
        row_largest(init, value, j, hi) == init || exists|i: int|
            1 <= i < hi && #[trigger] value(i, j) == Some(row_largest(init, value, j, hi)),
    decreases hi,
{
    if hi > 1 {
        lemma_row(init, value, j, hi - 1);
        let v = value(hi - 1, j);
        let top = row_largest(init, value, j, hi);
        let rest = row_largest(init, value, j, hi - 1);
        if top != init {
            if top == rest {
                let i = choose|i: int| 1 <= i < hi - 1 && #[trigger] value(i, j) == Some(rest);
                assert(value(i, j) == Some(top));
            } else {
                assert(value(hi - 1, j) == Some(top));
            }
        }
    }
}

proof fn lemma_peak(init: real, row: spec_fn(int) -> real, hi: int)
    ensures
        init <= peak(init, row, hi),
        forall|j: int| 1 <= j < hi ==> #[trigger] row(j) <= peak(init, row, hi),
        peak(init, row, hi) == init || exists|j: int|
            1 <= j < hi && #[trigger] row(j) == peak(init, row, hi),
    decreases hi,
{
    if hi > 1 {
        lemma_peak(init, row, hi - 1);
        let (top, rest) = (peak(init, row, hi), peak(init, row, hi - 1));
        if top != init {
            if top == rest {
                let j = choose|j: int| 1 <= j < hi - 1 && #[trigger] row(j) == rest;
                assert(row(j) == top);
            } else {
                assert(row(hi - 1) == top);
            }
        }
    }
}

/// The largest value of a grid is its largest value.
pub proof fn lemma_largest(
    init: real,
    value: spec_fn(int, int) -> Option<real>,
    nx: int,
    ny: int,
)
    ensures
        is_largest(init, value, nx, ny, largest(init, value, nx, ny)),
{
    let row = |j: int| row_largest(init, value, j, nx - 1);
    let top = largest(init, value, nx, ny);
    lemma_peak(init, row, ny - 1);
    assert(top == peak(init, row, ny - 1));
    assert forall|i: int, j: int|
        1 <= i < nx - 1 && 1 <= j < ny - 1 && #[trigger] value(i, j) is Some implies value(i, j)->0
        <= top by {
        lemma_row(init, value, j, nx - 1);
        assert(row(j) <= top);
    }
    if top != init {
        let j = choose|j: int| 1 <= j < ny - 1 && #[trigger] row(j) == top;
        lemma_row(init, value, j, nx - 1);
        let i = choose|i: int| 1 <= i < nx - 1 && #[trigger] value(i, j) == Some(top);
        assert(value(i, j) == Some(top));
    }
}

/// Rows with equal values have equal peaks.
pub proof fn lemma_same_peak(
    init: real,
    a: spec_fn(int) -> real,
    b: spec_fn(int) -> real,
    hi: int,
)
    requires
        forall|j: int| 1 <= j < hi ==> #[trigger] a(j) == b(j),
    ensures
        peak(init, a, hi) == peak(init, b, hi),
    decreases hi,
{
    if hi > 1 {
        lemma_same_peak(init, a, b, hi - 1);
        assert(a(hi - 1) == b(hi - 1));
    }
}

/// The larger of the largest values of two kinds of nodes is the largest over both.
pub proof fn lemma_both(
    init: real,
    a: spec_fn(int, int) -> Option<real>,
    b: spec_fn(int, int) -> Option<real>,
    both: spec_fn(int, int) -> Option<real>,
    nx: int,
    ny: int,
    x: real,
    y: real,
)
    requires
        is_largest(init, a, nx, ny, x),
        is_largest(init, b, nx, ny, y),
        forall|i: int, j: int|
            1 <= i < nx - 1 && 1 <= j < ny - 1 ==> #[trigger] both(i, j) == if a(i, j) is Some {
                a(i, j)
            } else {
                b(i, j)
            },
        forall|i: int, j: int| !(#[trigger] a(i, j) is Some && b(i, j) is Some),
    ensures
        is_largest(
            init,
            both,
            nx,
            ny,
            if x < y {
                y
            } else {
                x
            },
        ),
{
    let top = if x < y {
        y
    } else {
        x
    };
    assert forall|i: int, j: int|
        1 <= i < nx - 1 && 1 <= j < ny - 1 && #[trigger] both(i, j) is Some implies both(i, j)->0
        <= top by {
        assert(a(i, j) is Some || b(i, j) is Some);
    }
    if top != init {
        if top == x {
            let (i, j) = choose|i: int, j: int|
                1 <= i < nx - 1 && 1 <= j < ny - 1 && #[trigger] a(i, j) == Some(top);
            assert(both(i, j) == Some(top));
        } else {
            let (i, j) = choose|i: int, j: int|
                1 <= i < nx - 1 && 1 <= j < ny - 1 && #[trigger] b(i, j) == Some(top);
            assert(!(a(i, j) is Some));
            assert(both(i, j) == Some(top));
        }
    }
}

} // verus!
