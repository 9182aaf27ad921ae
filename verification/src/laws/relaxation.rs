//! Red-black relaxation.
use crate::channel_model::ChannelModel;
use crate::grid::{at, interior, lemma_is_tabulated};
use crate::model::{coloured, relaxed, sweep, sweep_cells};
use crate::plane::{lemma_is_table, lemma_place};
use crate::scalar::Arith;
use vstd::prelude::*;

verus! {

/// One node relaxed in place.
pub open spec fn relax_node<A: Arith>(
    psi: Seq<A>,
    omega: Seq<A>,
    n: int,
    h2: A,
    w: A,
    node: (int, int),
) -> Seq<A> {
    psi.update(node.1 * n + node.0, relaxed(psi, omega, n, h2, w, node.0, node.1))
}

/// The nodes of a list relaxed in place, one after another.
pub open spec fn relax_in_order<A: Arith>(
    psi: Seq<A>,
    omega: Seq<A>,
    n: int,
    h2: A,
    w: A,
    order: Seq<(int, int)>,
) -> Seq<A>
    decreases order.len(),
{
    if order.len() == 0 {
        psi
    } else {
        relax_node(
            relax_in_order(psi, omega, n, h2, w, order.drop_last()),
            omega,
            n,
            h2,
            w,
            order.last(),
        )
    }
}

/// Whether a marked node lies off the rim and none of its neighbours is marked.
pub open spec fn apart(
    nx: int,
    ny: int,
    marks: spec_fn(int, int) -> bool,
    i: int,
    j: int,
) -> bool {
    marks(i, j) ==> {
        &&& 1 <= i < nx - 1
        &&& 1 <= j < ny - 1
        &&& !marks(i + 1, j)
        &&& !marks(i - 1, j)
        &&& !marks(i, j + 1)
        &&& !marks(i, j - 1)
    }
}

/// No two marked nodes are neighbours.
pub open spec fn spaced(nx: int, ny: int, marks: spec_fn(int, int) -> bool) -> bool {
    forall|i: int, j: int| #[trigger] apart(nx, ny, marks, i, j)
}

proof fn lemma_partly_relaxed<A: Arith>(
    psi: Seq<A>,
    omega: Seq<A>,
    n: int,
    ny: int,
    h2: A,
    w: A,
    marks: spec_fn(int, int) -> bool,
    order: Seq<(int, int)>,
)
    requires
        psi.len() == n * ny,
        spaced(n, ny, marks),
        order.no_duplicates(),
        forall|k: int| 0 <= k < order.len() ==> marks((#[trigger] order[k]).0, order[k].1),
    ensures
        relax_in_order(psi, omega, n, h2, w, order).len() == n * ny,
        forall|i: int, j: int|
            0 <= i < n && 0 <= j < ny ==> #[trigger] at(
                relax_in_order(psi, omega, n, h2, w, order),
                n,
                i,
                j,
            ) == if order.contains((i, j)) {
                relaxed(psi, omega, n, h2, w, i, j)
            } else {
                at(psi, n, i, j)
            },
    decreases order.len(),
{
    if order.len() > 0 {
        let shorter = order.drop_last();
        let (a, b) = order.last();
        assert(marks(order[order.len() - 1].0, order[order.len() - 1].1));
        assert(apart(n, ny, marks, a, b));
        assert forall|k: int| 0 <= k < shorter.len() implies marks(
            (#[trigger] shorter[k]).0,
            shorter[k].1,
        ) by {
            assert(shorter[k] == order[k]);
        }
        lemma_partly_relaxed(psi, omega, n, ny, h2, w, marks, shorter);
        let now = relax_in_order(psi, omega, n, h2, w, shorter);
        // No neighbour is among the marked nodes, so none was touched.
        assert forall|i: int, j: int| !marks(i, j) implies !shorter.contains(
            #[trigger] pair(i, j),
        ) by {
            if shorter.contains(pair(i, j)) {
                let k = choose|k: int| 0 <= k < shorter.len() && shorter[k] == pair(i, j);
                assert(marks(shorter[k].0, shorter[k].1));
            }
        }
        assert(!shorter.contains(pair(a + 1, b)));
        assert(!shorter.contains(pair(a - 1, b)));
        assert(!shorter.contains(pair(a, b + 1)));
        assert(!shorter.contains(pair(a, b - 1)));
        assert(!shorter.contains(pair(a, b))) by {
            if shorter.contains(pair(a, b)) {
                let k = choose|k: int| 0 <= k < shorter.len() && shorter[k] == pair(a, b);
                assert(order[k] == order[order.len() - 1]);
            }
        }
        assert(at(now, n, a + 1, b) == at(psi, n, a + 1, b));
        assert(at(now, n, a - 1, b) == at(psi, n, a - 1, b));
        assert(at(now, n, a, b + 1) == at(psi, n, a, b + 1));
        assert(at(now, n, a, b - 1) == at(psi, n, a, b - 1));
        assert(at(now, n, a, b) == at(psi, n, a, b));
        assert(relaxed(now, omega, n, h2, w, a, b) == relaxed(psi, omega, n, h2, w, a, b));
        lemma_place(n, ny, a, b);
        let next = relax_in_order(psi, omega, n, h2, w, order);
        assert forall|i: int, j: int| 0 <= i < n && 0 <= j < ny implies #[trigger] at(next, n, i, j)
            == if order.contains((i, j)) {
            relaxed(psi, omega, n, h2, w, i, j)
        } else {
            at(psi, n, i, j)
        } by {
            lemma_place(n, ny, i, j);
            assert(at(now, n, i, j) == now[j * n + i]);
            if i == a && j == b {
                assert(order[order.len() - 1] == (i, j));
            } else {
                assert(next[j * n + i] == now[j * n + i]);
                if order.contains((i, j)) {
                    let k = choose|k: int| 0 <= k < order.len() && order[k] == (i, j);
                    assert(shorter[k] == (i, j));
                } else if shorter.contains((i, j)) {
                    let k = choose|k: int| 0 <= k < shorter.len() && shorter[k] == (i, j);
                    assert(order[k] == (i, j));
                }
            }
        }
    }
}

spec fn pair(i: int, j: int) -> (int, int) {
    (i, j)
}

/// The nodes of a colour may be relaxed in place in any order, split over any number of
/// threads: the field that results is always the one that relaxing all of them at once
/// gives, bit for bit.
pub proof fn law_order_does_not_matter<A: Arith>(
    psi: Seq<A>,
    omega: Seq<A>,
    n: int,
    h2: A,
    w: A,
    color: int,
    order: Seq<(int, int)>,
)
    requires
        n >= 2,
        psi.len() == n * n,
        order.no_duplicates(),
        forall|i: int, j: int|
            coloured(n, color, i, j) <==> #[trigger] order.contains((i, j)),
    ensures
        relax_in_order(psi, omega, n, h2, w, order) == sweep(psi, omega, n, h2, w, color),
{
    assert forall|k: int| 0 <= k < order.len() implies coloured(
        n,
        color,
        (#[trigger] order[k]).0,
        order[k].1,
    ) by {
        assert(order.contains((order[k].0, order[k].1)));
    }
    let marks = |i: int, j: int| coloured(n, color, i, j);
    assert(spaced(n, n, marks));
    lemma_partly_relaxed(psi, omega, n, n, h2, w, marks, order);
    let result = relax_in_order(psi, omega, n, h2, w, order);
    assert forall|i: int, j: int| 0 <= i < n && 0 <= j < n implies #[trigger] at(result, n, i, j)
        == sweep_cells(psi, omega, n, h2, w, color)(i, j) by {
        assert(coloured(n, color, i, j) <==> order.contains((i, j)));
    }
    lemma_is_tabulated(result, n, sweep_cells(psi, omega, n, h2, w, color));
}

/// The same in a channel: the fluid nodes of a colour may be relaxed in place in any order.
pub proof fn law_channel_order_does_not_matter<A: Arith>(
    m: ChannelModel<A>,
    psi: Seq<A>,
    omega: Seq<A>,
    color: int,
    order: Seq<(int, int)>,
)
    requires
        m.nx >= 1,
        m.ny >= 1,
        psi.len() == m.nx * m.ny,
        order.no_duplicates(),
        forall|i: int, j: int| m.marked(color, i, j) <==> #[trigger] order.contains((i, j)),
    ensures
        relax_in_order(psi, omega, m.nx, m.h2(), m.sor, order) == m.sweep(psi, omega, color),
{
    let marks = |i: int, j: int| m.marked(color, i, j);
    assert(spaced(m.nx, m.ny, marks));
    assert forall|k: int| 0 <= k < order.len() implies marks(
        (#[trigger] order[k]).0,
        order[k].1,
    ) by {
        assert(order.contains((order[k].0, order[k].1)));
    }
    lemma_partly_relaxed(psi, omega, m.nx, m.ny, m.h2(), m.sor, marks, order);
    let result = relax_in_order(psi, omega, m.nx, m.h2(), m.sor, order);
    assert forall|i: int, j: int| 0 <= i < m.nx && 0 <= j < m.ny implies #[trigger] at(
        result,
        m.nx,
        i,
        j,
    ) == m.sweep_cells(psi, omega, color)(i, j) by {
        assert(m.marked(color, i, j) <==> order.contains((i, j)));
    }
    lemma_is_table(result, m.nx, m.ny, m.sweep_cells(psi, omega, color));
}

/// Every node off the walls belongs to exactly one of the two colours.
pub proof fn law_two_colours(n: int, i: int, j: int)
    ensures
        interior(n, i, j) <==> coloured(n, 0, i, j) || coloured(n, 1, i, j),
        !(coloured(n, 0, i, j) && coloured(n, 1, i, j)),
{
}

} // verus!
