//! Rectangular fields of `nx * ny` values, row by row: the value at column `i` of row `j`
//! has the index `j * nx + i`.
use crate::grid::at;
use crate::model::{peak, total};
use crate::parallel::map_range;
use crate::scalar::{larger, max_of, nil, zero, Arith, Scalar};
use vstd::arithmetic::div_mod::{
    lemma_fundamental_div_mod, lemma_fundamental_div_mod_converse, lemma_mod_bound,
};
use vstd::prelude::*;

verus! {

/// The field whose value at column `i` of row `j` is `cell(i, j)`.
pub open spec fn table<A>(nx: int, ny: int, cell: spec_fn(int, int) -> A) -> Seq<A> {
    Seq::new((nx * ny) as nat, |c: int| cell(c % nx, c / nx))
}

/// The length and size conditions of a field.
pub open spec fn is_plane<A>(f: Seq<A>, nx: int, ny: int) -> bool {
    f.len() == nx * ny && 2 <= nx && 2 <= ny && nx * ny <= usize::MAX
}

/// The larger of `init` and the values of row `j`, over the columns from one to `hi - 1`;
/// a node without a value is passed over.
pub open spec fn row_largest<A: Arith>(
    init: A,
    value: spec_fn(int, int) -> Option<A>,
    j: int,
    hi: int,
) -> A
    decreases hi,
{
    if hi <= 1 {
        init
    } else {
        let rest = row_largest(init, value, j, hi - 1);
        match value(hi - 1, j) {
            Some(v) => larger(rest, v),
            None => rest,
        }
    }
}

/// The larger of `init` and the values off the rim.
pub open spec fn largest<A: Arith>(
    init: A,
    value: spec_fn(int, int) -> Option<A>,
    nx: int,
    ny: int,
) -> A {
    peak(init, |j: int| row_largest(init, value, j, nx - 1), ny - 1)
}

/// The sum of the values of row `j`, over the columns from one to `hi - 1`.
pub open spec fn row_sum<A: Arith>(
    value: spec_fn(int, int) -> Option<A>,
    j: int,
    hi: int,
) -> A
    decreases hi,
{
    if hi <= 1 {
        nil()
    } else {
        let rest = row_sum(value, j, hi - 1);
        match value(hi - 1, j) {
            Some(v) => rest + v,
            None => rest,
        }
    }
}

/// The sum of the values off the rim, row by row.
pub open spec fn grand_total<A: Arith>(
    value: spec_fn(int, int) -> Option<A>,
    nx: int,
    ny: int,
) -> A {
    total(nil(), |j: int| row_sum(value, j, nx - 1), ny - 1)
}

/// The index of a node determines its column and its row.
pub proof fn lemma_place(nx: int, ny: int, i: int, j: int)
    requires
        0 <= i < nx,
        0 <= j < ny,
    ensures
        0 <= j * nx + i < nx * ny,
        (j * nx + i) % nx == i,
        (j * nx + i) / nx == j,
{
    lemma_fundamental_div_mod_converse(j * nx + i, nx, j, i);
    assert(j * nx + i < nx * ny && 0 <= j * nx) by (nonlinear_arith)
        requires
            0 <= i < nx,
            0 <= j <= ny - 1,
    ;
}

/// What a table holds at a node.
pub proof fn lemma_table<A>(nx: int, ny: int, cell: spec_fn(int, int) -> A, i: int, j: int)
    requires
        0 <= i < nx,
        0 <= j < ny,
    ensures
        table(nx, ny, cell).len() == nx * ny,
        at(table(nx, ny, cell), nx, i, j) == cell(i, j),
{
    lemma_place(nx, ny, i, j);
}

/// A field of the right length that holds the cells is the table.
pub proof fn lemma_is_table<A>(field: Seq<A>, nx: int, ny: int, cell: spec_fn(int, int) -> A)
    requires
        0 < nx,
        0 < ny,
        field.len() == nx * ny,
        forall|i: int, j: int|
            0 <= i < nx && 0 <= j < ny ==> #[trigger] at(field, nx, i, j) == cell(i, j),
    ensures
        field == table(nx, ny, cell),
{
    assert forall|c: int| 0 <= c < field.len() implies field[c] == table(nx, ny, cell)[c] by {
        lemma_fundamental_div_mod(c, nx);
        lemma_mod_bound(c, nx);
        assert(0 <= c / nx < ny && nx * (c / nx) == (c / nx) * nx) by (nonlinear_arith)
            requires
                c == nx * (c / nx) + c % nx,
                0 <= c % nx < nx,
                0 <= c < nx * ny,
        ;
        assert(at(field, nx, c % nx, c / nx) == cell(c % nx, c / nx));
    }
    assert(field =~= table(nx, ny, cell));
}

/// The index of column `i` of row `j`.
pub fn place(i: usize, j: usize, nx: usize, ny: usize) -> (r: usize)
    requires
        i < nx,
        j < ny,
        nx * ny <= usize::MAX,
    ensures
        r == j * nx + i,
        r < nx * ny,
{
    proof {
        lemma_place(nx as int, ny as int, i as int, j as int);
        assert(j * nx <= nx * ny) by (nonlinear_arith)
            requires
                0 <= j < ny,
                0 <= nx,
        ;
    }
    j * nx + i
}

/// The value at column `i` of row `j`.
pub fn node<T: Copy>(f: &Vec<T>, nx: usize, ny: usize, i: usize, j: usize) -> (r: T)
    requires
        is_plane(f@, nx as int, ny as int),
        i < nx,
        j < ny,
    ensures
        r == at(f@, nx as int, i as int, j as int),
{
    f[place(i, j, nx, ny)]
}

fn one_row<R, F: Fn(usize, usize) -> R>(nx: usize, j: usize, f: &F) -> (row: Vec<R>)
    requires
        forall|i: usize| i < nx ==> f.requires((i, j)),
    ensures
        row@.len() == nx,
        forall|i: int|
            #![trigger row@[i]]
            0 <= i < nx ==> f.ensures((i as usize, j), row@[i]),
{
    let mut row: Vec<R> = Vec::with_capacity(nx);
    let mut i: usize = 0;
    while i < nx
        invariant
            i <= nx,
            row@.len() == i,
            forall|i: usize| i < nx ==> f.requires((i, j)),
            forall|k: int|
                #![trigger row@[k]]
                0 <= k < i ==> f.ensures((k as usize, j), row@[k]),
        decreases nx - i,
    {
        row.push(f(i, j));
        i = i + 1;
    }
    row
}

/// What `f` gives at every node, row by row, on the thread pool.
fn all_rows<R: Send, F: Fn(usize, usize) -> R + Sync + Send>(
    nx: usize,
    ny: usize,
    min_len: usize,
    f: &F,
) -> (rows: Vec<Vec<R>>)
    requires
        forall|i: usize, j: usize| i < nx && j < ny ==> f.requires((i, j)),
    ensures
        rows@.len() == ny,
        forall|j: int| 0 <= j < ny ==> (#[trigger] rows@[j])@.len() == nx,
        forall|i: int, j: int|
            #![trigger rows@[j]@[i]]
            0 <= i < nx && 0 <= j < ny ==> f.ensures((i as usize, j as usize), rows@[j]@[i]),
{
    let g = |j: usize| -> (row: Vec<R>)
        requires
            j < ny,
            forall|i: usize, j: usize| i < nx && j < ny ==> f.requires((i, j)),
        ensures
            row@.len() == nx,
            forall|i: int|
                #![trigger row@[i]]
                0 <= i < nx ==> f.ensures((i as usize, j), row@[i]),
        {
            one_row(nx, j, f)
        };
    let rows = map_range(0, ny, min_len, g);
    assert forall|i: int, j: int|
        #![trigger rows@[j]@[i]]
        0 <= i < nx && 0 <= j < ny implies f.ensures((i as usize, j as usize), rows@[j]@[i]) by {
        assert(g.ensures(((0 + j) as usize,), rows@[j]));
    }
    assert forall|j: int| 0 <= j < ny implies (#[trigger] rows@[j])@.len() == nx by {
        assert(g.ensures(((0 + j) as usize,), rows@[j]));
    }
    rows
}

/// The field whose values `f` computes.
pub(crate) fn compute_field<T: Copy + Send, F: Fn(usize, usize) -> T + Sync + Send>(
    nx: usize,
    ny: usize,
    min_len: usize,
    f: F,
    Ghost(cell): Ghost<spec_fn(int, int) -> T>,
) -> (out: Vec<T>)
    requires
        0 < nx,
        0 < ny,
        nx * ny <= usize::MAX,
        forall|i: usize, j: usize| i < nx && j < ny ==> f.requires((i, j)),
        forall|i: usize, j: usize, r: T|
            i < nx && j < ny && #[trigger] f.ensures((i, j), r) ==> r == cell(i as int, j as int),
    ensures
        out@ == table(nx as int, ny as int, cell),
{
    let rows = all_rows(nx, ny, min_len, &f);
    assert forall|i: int, j: int| 0 <= i < nx && 0 <= j < ny implies #[trigger] rows@[j]@[i]
        == cell(i, j) by {
        assert(f.ensures((i as usize, j as usize), rows@[j]@[i]));
    }
    let mut out: Vec<T> = Vec::with_capacity(nx * ny);
    let mut j: usize = 0;
    assert(0int * nx == 0) by (nonlinear_arith);
    while j < ny
        invariant
            j <= ny,
            rows@.len() == ny,
            forall|j: int| 0 <= j < ny ==> (#[trigger] rows@[j])@.len() == nx,
            forall|i: int, j: int|
                0 <= i < nx && 0 <= j < ny ==> #[trigger] rows@[j]@[i] == cell(i, j),
            out@.len() == j * nx,
            forall|i: int, k: int|
                0 <= i < nx && 0 <= k < j ==> #[trigger] at(out@, nx as int, i, k) == cell(i, k),
        decreases ny - j,
    {
        let mut i: usize = 0;
        while i < nx
            invariant
                i <= nx,
                j < ny,
                rows@.len() == ny,
                forall|j: int| 0 <= j < ny ==> (#[trigger] rows@[j])@.len() == nx,
                forall|i: int, j: int|
                    0 <= i < nx && 0 <= j < ny ==> #[trigger] rows@[j]@[i] == cell(i, j),
                out@.len() == j * nx + i,
                forall|a: int, k: int|
                    0 <= a < nx && 0 <= k < j ==> #[trigger] at(out@, nx as int, a, k) == cell(
                        a,
                        k,
                    ),
                forall|a: int|
                    0 <= a < i ==> #[trigger] at(out@, nx as int, a, j as int) == cell(
                        a,
                        j as int,
                    ),
            decreases nx - i,
        {
            let ghost before = out@;
            out.push(rows[j][i]);
            proof {
                assert forall|a: int, k: int| 0 <= a < nx && 0 <= k < j implies #[trigger] at(
                    out@,
                    nx as int,
                    a,
                    k,
                ) == cell(a, k) by {
                    assert(at(before, nx as int, a, k) == cell(a, k));
                    assert(0 <= k * nx + a < j * nx) by (nonlinear_arith)
                        requires
                            0 <= a < nx,
                            0 <= k <= j - 1,
                    ;
                }
                assert forall|a: int| 0 <= a < i + 1 implies #[trigger] at(
                    out@,
                    nx as int,
                    a,
                    j as int,
                ) == cell(a, j as int) by {
                    assert(0 <= j * nx) by (nonlinear_arith);
                    if a < i {
                        assert(at(before, nx as int, a, j as int) == cell(a, j as int));
                    }
                }
            }
            i = i + 1;
        }
        assert((j + 1) * nx == j * nx + nx) by (nonlinear_arith);
        j = j + 1;
    }
    proof {
        assert(ny * nx == nx * ny) by (nonlinear_arith);
        lemma_is_table(out@, nx as int, ny as int, cell);
    }
    out
}

/// The larger of `init` and the values that `f` finds off the rim.
pub(crate) fn largest_of<T: Scalar, F: Fn(usize, usize) -> Option<T> + Sync + Send>(
    nx: usize,
    ny: usize,
    min_len: usize,
    init: T,
    f: F,
    Ghost(value): Ghost<spec_fn(int, int) -> Option<T>>,
) -> (r: T)
    requires
        2 <= nx,
        2 <= ny,
        forall|i: usize, j: usize| i < nx && j < ny ==> f.requires((i, j)),
        forall|i: usize, j: usize, r: Option<T>|
            i < nx && j < ny && #[trigger] f.ensures((i, j), r) ==> r == value(i as int, j as int),
    ensures
        r == largest(init, value, nx as int, ny as int),
{
    let rows = all_rows(nx, ny, min_len, &f);
    let ghost row = |j: int| row_largest(init, value, j, nx - 1);
    assert forall|i: int, j: int| 0 <= i < nx && 0 <= j < ny implies #[trigger] rows@[j]@[i]
        == value(i, j) by {
        assert(f.ensures((i as usize, j as usize), rows@[j]@[i]));
    }
    let mut acc: T = init;
    let mut j: usize = 1;
    while j < ny - 1
        invariant
            1 <= j <= ny - 1,
            2 <= nx,
            rows@.len() == ny,
            forall|j: int| 0 <= j < ny ==> (#[trigger] rows@[j])@.len() == nx,
            forall|i: int, j: int|
                0 <= i < nx && 0 <= j < ny ==> #[trigger] rows@[j]@[i] == value(i, j),
            row == (|j: int| row_largest(init, value, j, nx - 1)),
            acc == peak(init, row, j as int),
        decreases ny - j,
    {
        let mut best: T = init;
        let mut i: usize = 1;
        while i < nx - 1
            invariant
                1 <= i <= nx - 1,
                1 <= j < ny - 1,
                rows@.len() == ny,
                forall|j: int| 0 <= j < ny ==> (#[trigger] rows@[j])@.len() == nx,
                forall|i: int, j: int|
                    0 <= i < nx && 0 <= j < ny ==> #[trigger] rows@[j]@[i] == value(i, j),
                best == row_largest(init, value, j as int, i as int),
            decreases nx - i,
        {
            match rows[j][i] {
                Some(v) => {
                    best = max_of(best, v);
                },
                None => {},
            }
            i = i + 1;
        }
        acc = max_of(acc, best);
        j = j + 1;
    }
    acc
}

/// The sum of the values that `f` finds off the rim.
pub(crate) fn total_of<T: Scalar, F: Fn(usize, usize) -> Option<T> + Sync + Send>(
    nx: usize,
    ny: usize,
    min_len: usize,
    f: F,
    Ghost(value): Ghost<spec_fn(int, int) -> Option<T>>,
) -> (r: T)
    requires
        2 <= nx,
        2 <= ny,
        forall|i: usize, j: usize| i < nx && j < ny ==> f.requires((i, j)),
        forall|i: usize, j: usize, r: Option<T>|
            i < nx && j < ny && #[trigger] f.ensures((i, j), r) ==> r == value(i as int, j as int),
    ensures
        r == grand_total(value, nx as int, ny as int),
{
    let rows = all_rows(nx, ny, min_len, &f);
    let ghost row = |j: int| row_sum(value, j, nx - 1);
    assert forall|i: int, j: int| 0 <= i < nx && 0 <= j < ny implies #[trigger] rows@[j]@[i]
        == value(i, j) by {
        assert(f.ensures((i as usize, j as usize), rows@[j]@[i]));
    }
    let mut acc: T = zero();
    let mut j: usize = 1;
    while j < ny - 1
        invariant
            1 <= j <= ny - 1,
            2 <= nx,
            rows@.len() == ny,
            forall|j: int| 0 <= j < ny ==> (#[trigger] rows@[j])@.len() == nx,
            forall|i: int, j: int|
                0 <= i < nx && 0 <= j < ny ==> #[trigger] rows@[j]@[i] == value(i, j),
            row == (|j: int| row_sum(value, j, nx - 1)),
            acc == total(nil(), row, j as int),
        decreases ny - j,
    {
        let mut sum: T = zero();
        let mut i: usize = 1;
        while i < nx - 1
            invariant
                1 <= i <= nx - 1,
                1 <= j < ny - 1,
                rows@.len() == ny,
                forall|j: int| 0 <= j < ny ==> (#[trigger] rows@[j])@.len() == nx,
                forall|i: int, j: int|
                    0 <= i < nx && 0 <= j < ny ==> #[trigger] rows@[j]@[i] == value(i, j),
                sum == row_sum(value, j as int, i as int),
            decreases nx - i,
        {
            T::lawful();
            match rows[j][i] {
                Some(v) => {
                    sum = sum + v;
                },
                None => {},
            }
            i = i + 1;
        }
        T::lawful();
        acc = acc + sum;
        j = j + 1;
    }
    acc
}

} // verus!
