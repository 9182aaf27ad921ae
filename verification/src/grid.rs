//! Square fields of `n * n` values, row by row: the value at column `i` of row `j`
//! has the index `j * n + i`.
use crate::parallel::map_range;
use vstd::arithmetic::div_mod::{
    lemma_fundamental_div_mod, lemma_fundamental_div_mod_converse, lemma_mod_bound,
};
use vstd::prelude::*;

verus! {

/// The value of a field at column `i` of row `j`.
pub open spec fn at<A>(field: Seq<A>, n: int, i: int, j: int) -> A {
    field[j * n + i]
}

/// The field whose value at column `i` of row `j` is `cell(i, j)`.
pub open spec fn tabulate<A>(n: int, cell: spec_fn(int, int) -> A) -> Seq<A> {
    Seq::new((n * n) as nat, |c: int| cell(c % n, c / n))
}

/// Whether the node lies off the walls.
pub open spec fn interior(n: int, i: int, j: int) -> bool {
    1 <= i < n - 1 && 1 <= j < n - 1
}

/// The length and size conditions of a field.
pub open spec fn is_field<A>(f: Seq<A>, n: int) -> bool {
    f.len() == n * n && 2 <= n && n * n <= usize::MAX
}

/// `row` holds the cells of row `j`.
pub open spec fn is_row<A>(row: Seq<A>, n: int, j: int, cell: spec_fn(int, int) -> A) -> bool {
    &&& row.len() == n
    &&& forall|i: int| 0 <= i < n ==> #[trigger] row[i] == cell(i, j)
}

/// The index of a node determines its column and its row.
pub proof fn lemma_index(n: int, i: int, j: int)
    requires
        0 <= i < n,
        0 <= j < n,
    ensures
        0 <= j * n + i < n * n,
        (j * n + i) % n == i,
        (j * n + i) / n == j,
{
    lemma_fundamental_div_mod_converse(j * n + i, n, j, i);
    assert(j * n + i < n * n && 0 <= j * n) by (nonlinear_arith)
        requires
            0 <= i < n,
            0 <= j <= n - 1,
    ;
}

/// Every index belongs to a node.
pub proof fn lemma_node(n: int, c: int)
    requires
        0 < n,
        0 <= c < n * n,
    ensures
        0 <= c % n < n,
        0 <= c / n < n,
        c == (c / n) * n + c % n,
{
    lemma_fundamental_div_mod(c, n);
    lemma_mod_bound(c, n);
    assert(0 <= c / n < n && n * (c / n) == (c / n) * n) by (nonlinear_arith)
        requires
            c == n * (c / n) + c % n,
            0 <= c % n < n,
            0 <= c < n * n,
    ;
}

/// What a tabulated field holds at a node.
pub proof fn lemma_tabulate<A>(n: int, cell: spec_fn(int, int) -> A, i: int, j: int)
    requires
        0 <= i < n,
        0 <= j < n,
    ensures
        tabulate(n, cell).len() == n * n,
        at(tabulate(n, cell), n, i, j) == cell(i, j),
{
    lemma_index(n, i, j);
}

/// A field of the right length that holds the cells is the tabulated field.
pub proof fn lemma_is_tabulated<A>(field: Seq<A>, n: int, cell: spec_fn(int, int) -> A)
    requires
        0 <= n,
        field.len() == n * n,
        forall|i: int, j: int|
            0 <= i < n && 0 <= j < n ==> #[trigger] at(field, n, i, j) == cell(i, j),
    ensures
        field == tabulate(n, cell),
{
    assert forall|c: int| 0 <= c < field.len() implies field[c] == tabulate(n, cell)[c] by {
        if n > 0 {
            lemma_node(n, c);
            assert(at(field, n, c % n, c / n) == cell(c % n, c / n));
        }
    }
    assert(field =~= tabulate(n, cell));
}

/// Two tables with equal cells are equal.
pub proof fn lemma_same_table<A>(
    n: int,
    a: spec_fn(int, int) -> A,
    b: spec_fn(int, int) -> A,
)
    requires
        0 <= n,
        forall|i: int, j: int| 0 <= i < n && 0 <= j < n ==> #[trigger] a(i, j) == b(i, j),
    ensures
        tabulate(n, a) == tabulate(n, b),
{
    assert forall|c: int| 0 <= c < n * n implies tabulate(n, a)[c] == tabulate(n, b)[c] by {
        if n > 0 {
            lemma_node(n, c);
            assert(a(c % n, c / n) == b(c % n, c / n));
        }
    }
    assert(tabulate(n, a) =~= tabulate(n, b));
}

/// The index of column `i` of row `j`.
pub fn idx(i: usize, j: usize, n: usize) -> (r: usize)
    requires
        i < n,
        j < n,
        n * n <= usize::MAX,
    ensures
        r == j * n + i,
        r < n * n,
{
    proof {
        lemma_index(n as int, i as int, j as int);
        assert(j * n <= n * n) by (nonlinear_arith)
            requires
                0 <= j < n,
        ;
    }
    j * n + i
}

/// A vector of `len` copies of one value.
pub fn filled<T: Copy>(len: usize, value: T) -> (v: Vec<T>)
    ensures
        v@ == Seq::new(len as nat, |k: int| value),
{
    let mut v: Vec<T> = Vec::with_capacity(len);
    let mut k: usize = 0;
    while k < len
        invariant
            k <= len,
            v@.len() == k,
            forall|c: int| 0 <= c < k ==> v@[c] == value,
        decreases len - k,
    {
        v.push(value);
        k = k + 1;
    }
    assert(v@ =~= Seq::new(len as nat, |k: int| value));
    v
}

/// A copy of a vector.
pub fn copied<T: Copy>(a: &Vec<T>) -> (v: Vec<T>)
    ensures
        v@ == a@,
{
    let mut v: Vec<T> = Vec::with_capacity(a.len());
    let mut k: usize = 0;
    while k < a.len()
        invariant
            k <= a.len(),
            v@ == a@.take(k as int),
        decreases a.len() - k,
    {
        v.push(a[k]);
        k = k + 1;
        assert(v@ =~= a@.take(k as int));
    }
    assert(a@.take(k as int) =~= a@);
    v
}

/// Computes the rows of a field on the thread pool and lays them one after another.
pub(crate) fn build_field<T: Copy + Send, F: Fn(usize) -> Vec<T> + Sync + Send>(
    n: usize,
    min_len: usize,
    f: F,
    Ghost(cell): Ghost<spec_fn(int, int) -> T>,
) -> (out: Vec<T>)
    requires
        n * n <= usize::MAX,
        forall|j: usize| j < n ==> f.requires((j,)),
        forall|j: usize, row: Vec<T>|
            j < n && #[trigger] f.ensures((j,), row) ==> is_row(row@, n as int, j as int, cell),
    ensures
        out@ == tabulate(n as int, cell),
{
    let rows = map_range(0, n, min_len, f);
    let mut out: Vec<T> = Vec::with_capacity(n * n);
    let mut j: usize = 0;
    assert(0int * n == 0) by (nonlinear_arith);
    while j < n
        invariant
            j <= n,
            n * n <= usize::MAX,
            rows@.len() == n,
            forall|k: int| 0 <= k < n ==> is_row(#[trigger] rows@[k]@, n as int, k, cell),
            out@.len() == j * n,
            forall|i: int, k: int|
                0 <= i < n && 0 <= k < j ==> #[trigger] at(out@, n as int, i, k) == cell(i, k),
        decreases n - j,
    {
        let mut i: usize = 0;
        assert(is_row(rows@[j as int]@, n as int, j as int, cell));
        while i < n
            invariant
                i <= n,
                j < n,
                n * n <= usize::MAX,
                rows@.len() == n,
                is_row(rows@[j as int]@, n as int, j as int, cell),
                out@.len() == j * n + i,
                forall|a: int, k: int|
                    0 <= a < n && 0 <= k < j ==> #[trigger] at(out@, n as int, a, k) == cell(a, k),
                forall|a: int|
                    0 <= a < i ==> #[trigger] at(out@, n as int, a, j as int) == cell(
                        a,
                        j as int,
                    ),
            decreases n - i,
        {
            let ghost before = out@;
            out.push(rows[j][i]);
            proof {
                assert forall|a: int, k: int| 0 <= a < n && 0 <= k < j implies #[trigger] at(
                    out@,
                    n as int,
                    a,
                    k,
                ) == cell(a, k) by {
                    assert(at(before, n as int, a, k) == cell(a, k));
                    assert(0 <= k * n + a < j * n) by (nonlinear_arith)
                        requires
                            0 <= a < n,
                            0 <= k <= j - 1,
                    ;
                }
                assert forall|a: int| 0 <= a < i + 1 implies #[trigger] at(
                    out@,
                    n as int,
                    a,
                    j as int,
                ) == cell(a, j as int) by {
                    assert(0 <= j * n) by (nonlinear_arith);
                    if a < i {
                        assert(at(before, n as int, a, j as int) == cell(a, j as int));
                    }
                }
            }
            i = i + 1;
        }
        assert((j + 1) * n == j * n + n) by (nonlinear_arith);
        j = j + 1;
    }
    proof {
        lemma_is_tabulated(out@, n as int, cell);
    }
    out
}

} // verus!
