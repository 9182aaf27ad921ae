//! The layout of a frame.
use crate::grid::{at, is_field, lemma_index, lemma_tabulate, tabulate};
use crate::model::{u_cells, v_cells, velocity_u, velocity_v, Flow, Model};
use crate::scalar::{le_bytes, nil, Scalar};
use crate::solver::{bytes_of, frame};
use vstd::prelude::*;

verus! {

/// Eight bytes per value, in the order of the values.
pub proof fn lemma_bytes<T: Scalar>(field: Seq<T>, k: int)
    requires
        0 <= k < field.len(),
    ensures
        bytes_of(field).len() == 8 * field.len(),
        bytes_of(field).subrange(8 * k, 8 * k + 8) == le_bytes(field[k]),
    decreases field.len(),
{
    let rest = field.drop_last();
    lemma_bytes_len(rest);
    lemma_bytes_len(field);
    let b = bytes_of(field);
    if k == field.len() - 1 {
        assert(b.subrange(8 * k, 8 * k + 8) =~= le_bytes(field[k]));
    } else {
        lemma_bytes(rest, k);
        assert(b.subrange(8 * k, 8 * k + 8) =~= bytes_of(rest).subrange(8 * k, 8 * k + 8));
    }
}

proof fn lemma_bytes_len<T: Scalar>(field: Seq<T>)
    ensures
        bytes_of(field).len() == 8 * field.len(),
    decreases field.len(),
{
    if field.len() > 0 {
        lemma_bytes_len(field.drop_last());
    }
}

/// The place of the value of node `(i, j)` in block `block` of a frame.
pub open spec fn place(n: int, block: int, i: int, j: int) -> int {
    8 * (block * (n * n) + j * n + i)
}

/// A frame holds four blocks of `n * n` numbers of eight bytes: vorticity, streamfunction
/// and the two velocities, each row by row.
pub proof fn law_frame_layout<T: Scalar>(m: Model<T>, f: Flow<T>, i: int, j: int)
    requires
        is_field(f.omega, m.n),
        is_field(f.psi, m.n),
        0 <= i < m.n,
        0 <= j < m.n,
    ensures
        ({
            let bytes = frame(m, f);
            let n = m.n;
            &&& bytes.len() == 32 * (n * n)
            &&& bytes.subrange(place(n, 0, i, j), place(n, 0, i, j) + 8) == le_bytes(
                at(f.omega, n, i, j),
            )
            &&& bytes.subrange(place(n, 1, i, j), place(n, 1, i, j) + 8) == le_bytes(
                at(f.psi, n, i, j),
            )
            &&& bytes.subrange(place(n, 2, i, j), place(n, 2, i, j) + 8) == le_bytes(
                u_cells(f.psi, n, m.h, m.u_lid)(i, j),
            )
            &&& bytes.subrange(place(n, 3, i, j), place(n, 3, i, j) + 8) == le_bytes(
                v_cells(f.psi, n, m.h)(i, j),
            )
        }),
{
    let n = m.n;
    let nn = n * n;
    let k = j * n + i;
    lemma_index(n, i, j);
    let u = tabulate(n, u_cells(f.psi, n, m.h, m.u_lid));
    let v = tabulate(n, v_cells(f.psi, n, m.h));
    lemma_tabulate(n, u_cells(f.psi, n, m.h, m.u_lid), i, j);
    lemma_tabulate(n, v_cells(f.psi, n, m.h), i, j);
    lemma_bytes(f.omega, k);
    lemma_bytes(f.psi, k);
    lemma_bytes(u, k);
    lemma_bytes(v, k);
    let (b0, b1, b2, b3) = (bytes_of(f.omega), bytes_of(f.psi), bytes_of(u), bytes_of(v));
    let all = frame(m, f);
    assert(all.subrange(8 * k, 8 * k + 8) =~= b0.subrange(8 * k, 8 * k + 8));
    assert(all.subrange(8 * (nn + k), 8 * (nn + k) + 8) =~= b1.subrange(8 * k, 8 * k + 8));
    assert(all.subrange(8 * (2 * nn + k), 8 * (2 * nn + k) + 8) =~= b2.subrange(8 * k, 8 * k + 8));
    assert(all.subrange(8 * (3 * nn + k), 8 * (3 * nn + k) + 8) =~= b3.subrange(8 * k, 8 * k + 8));
}

/// The velocities of a frame: the speed of the lid along the whole top row, the differences of
/// the streamfunction off the walls, and none on the other walls; no vertical velocity on any
/// wall.
pub proof fn law_frame_velocities<T: Scalar>(m: Model<T>, f: Flow<T>, i: int, j: int)
    requires
        is_field(f.omega, m.n),
        is_field(f.psi, m.n),
        0 <= i < m.n,
        0 <= j < m.n,
    ensures
        ({
            let n = m.n;
            let bytes = frame(m, f);
            let k = j * n + i;
            let u = bytes.subrange(8 * (2 * (n * n) + k), 8 * (2 * (n * n) + k) + 8);
            let v = bytes.subrange(8 * (3 * (n * n) + k), 8 * (3 * (n * n) + k) + 8);
            let inside = 1 <= i < n - 1 && 1 <= j < n - 1;
            &&& j == n - 1 ==> u == le_bytes(m.u_lid)
            &&& inside ==> u == le_bytes(velocity_u(f.psi, n, m.h, i, j))
            &&& inside ==> v == le_bytes(velocity_v(f.psi, n, m.h, i, j))
            &&& !inside && j != n - 1 ==> u == le_bytes(nil::<T>())
            &&& !inside ==> v == le_bytes(nil::<T>())
            &&& bytes.subrange(8 * k, 8 * k + 8) == le_bytes(f.omega[k])
            &&& bytes.subrange(8 * (n * n + k), 8 * (n * n + k) + 8) == le_bytes(f.psi[k])
        }),
{
    law_frame_layout(m, f, i, j);
}

} // verus!
