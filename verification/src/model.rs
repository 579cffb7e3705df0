//! The mathematical model of a reactor: what a store of cells is, what it
//! means for it to be well formed, and how one public operation relates the
//! store before it to the store after it. The reactor's contracts and the
//! laws in [`crate::laws`] are all stated over these definitions.

use crate::CellId;
use crate::Node;
use crate::NodeKindView;
use crate::NodeView;
use crate::compute_cell::CallbackSlotView;
use crate::compute_cell::ComputeCellView;
use vstd::prelude::*;

verus! {

/// The models of a store of nodes, in store order.
pub open spec fn views_of(nodes: Seq<Node>) -> Seq<NodeView> {
    nodes.map_values(|n: Node| n@)
}

/// The values of the given cells, in the given order; an out-of-range index
/// reads as zero (a compute cell's dependencies are always in range).
pub open spec fn dep_values(cells: Seq<NodeView>, deps: Seq<usize>) -> Seq<i64> {
    deps.map_values(
        |d: usize|
            if d < cells.len() {
                cells[d as int].value
            } else {
                0i64
            },
    )
}

/// The central consistency condition on one cell: a compute cell's cached
/// value is its function applied to its dependencies' current values, in
/// declaration order.
pub open spec fn cell_consistent(cells: Seq<NodeView>, i: int) -> bool {
    cells[i].is_compute() ==> cells[i].value == cells[i].func().spec_eval(
        dep_values(cells, cells[i].children()),
    )
}

/// Every compute cell's cached value is up to date.
pub open spec fn all_consistent(cells: Seq<NodeView>) -> bool {
    forall|i: int| 0 <= i < cells.len() ==> #[trigger] cell_consistent(cells, i)
}

/// All dependencies of the cell at index `i` have strictly smaller indices.
pub open spec fn deps_below(cells: Seq<NodeView>, i: int) -> bool {
    forall|k: int|
        0 <= k < cells[i].children().len() ==> (#[trigger] cells[i].children()[k]) < i
}

/// Every edge points from a higher index to a strictly lower one, so the
/// graph is acyclic and the index order is a topological order.
pub open spec fn acyclic(cells: Seq<NodeView>) -> bool {
    forall|i: int| 0 <= i < cells.len() && cells[i].is_compute() ==> #[trigger] deps_below(cells, i)
}

/// Parent and child edge lists agree: a cell lists `p` as a parent exactly
/// when `p` is a compute cell that lists it as a child.
pub open spec fn edges_consistent(cells: Seq<NodeView>) -> bool {
    forall|i: int, p: usize|
        #![trigger cells[i].parents().contains(p)]
        #![trigger cells[p as int].children().contains(i as usize)]
        0 <= i < cells.len() ==> (cells[i].parents().contains(p) <==> (p < cells.len()
            && cells[p as int].is_compute() && cells[p as int].children().contains(i as usize)))
}

/// Two cells with the same structure: same kind, edges, function, and
/// callback registry shape (slot count and which slots are active); only the
/// cached value and the slots' notification records may differ.
pub open spec fn same_shape_node(a: NodeView, b: NodeView) -> bool {
    match (a.t, b.t) {
        (NodeKindView::Input(pa), NodeKindView::Input(pb)) => pa == pb,
        (NodeKindView::Compute(ca), NodeKindView::Compute(cb)) => {
            &&& ca.parents == cb.parents
            &&& ca.children == cb.children
            &&& ca.func == cb.func
            &&& ca.callbacks.len() == cb.callbacks.len()
            &&& forall|k: int|
                0 <= k < ca.callbacks.len() ==> (#[trigger] ca.callbacks[k]).active
                    == cb.callbacks[k].active
        },
        _ => false,
    }
}

/// Two stores with the same structure, cell by cell.
pub open spec fn same_shape(a: Seq<NodeView>, b: Seq<NodeView>) -> bool {
    a.len() == b.len() && forall|j: int| 0 <= j < a.len() ==> same_shape_node(#[trigger] a[j], b[j])
}

/// How one round of notifications changes a callback registry: when `fired`,
/// every active slot records `v` exactly once; inactive slots, and all slots
/// of a cell that did not fire, are left alone.
pub open spec fn slots_notified(
    a: Seq<CallbackSlotView>,
    b: Seq<CallbackSlotView>,
    fired: bool,
    v: i64,
) -> bool {
    b.len() == a.len() && forall|k: int|
        0 <= k < a.len() ==> {
            let s = #[trigger] a[k];
            b[k] == (CallbackSlotView {
                active: s.active,
                values: if s.active && fired {
                    s.values.push(v)
                } else {
                    s.values
                },
            })
        }
}

/// How one propagation round changes a cell's callback records: an active
/// slot of a compute cell whose value changed is notified of the final value
/// exactly once; every other slot is left alone.
pub open spec fn callbacks_updated(a: NodeView, b: NodeView) -> bool {
    a.is_compute() ==> slots_notified(a.callbacks(), b.callbacks(), b.value != a.value, b.value)
}

/// What a successful `set_value` call on the input cell at index `idx` does
/// to the store: the structure is untouched, that input now holds `v` and no
/// other input moved, every compute cell's cached value is up to date again,
/// and callbacks were notified exactly once per changed compute cell.
pub open spec fn set_value_rel(pre: Seq<NodeView>, post: Seq<NodeView>, idx: int, v: i64) -> bool {
    &&& post.len() == pre.len()
    &&& same_shape(pre, post)
    &&& forall|j: int|
        0 <= j < pre.len() && (#[trigger] pre[j].is_input()) ==> post[j].value == (if j == idx {
            v
        } else {
            pre[j].value
        })
    &&& all_consistent(post)
    &&& forall|j: int| 0 <= j < pre.len() ==> callbacks_updated(#[trigger] pre[j], post[j])
}

/// The store indices a list of cell ids names, in the same order.
pub open spec fn dep_indices(deps: Seq<CellId>) -> Seq<usize> {
    deps.map_values(|c: CellId| c.spec_idx())
}

/// What removing callback `k` of the compute cell at index `cell` does when
/// it succeeds: that one slot turns inactive, its record is kept, and
/// nothing else moves.
pub open spec fn remove_callback_rel(
    pre: Seq<NodeView>,
    post: Seq<NodeView>,
    cell: int,
    k: int,
) -> bool {
    &&& 0 <= cell < pre.len()
    &&& pre[cell].is_compute()
    &&& 0 <= k < pre[cell].callbacks().len()
    &&& pre[cell].callbacks()[k].active
    &&& post == pre.update(
        cell,
        NodeView {
            value: pre[cell].value,
            t: NodeKindView::Compute(
                ComputeCellView {
                    callbacks: pre[cell].callbacks().update(
                        k,
                        CallbackSlotView { active: false, values: pre[cell].callbacks()[k].values },
                    ),
                    ..pre[cell].t->Compute_0
                },
            ),
        },
    )
}

/// Dependency values looked up at equal indices in two stores whose cells
/// hold equal values there are equal.
pub proof fn lemma_dep_values_congruent(a: Seq<NodeView>, b: Seq<NodeView>, deps: Seq<usize>)
    requires
        forall|k: int|
            0 <= k < deps.len() ==> {
                let d = (#[trigger] deps[k]) as int;
                d < a.len() && d < b.len() && a[d].value == b[d].value
            },
    ensures
        dep_values(a, deps) == dep_values(b, deps),
{
    assert(dep_values(a, deps) =~= dep_values(b, deps));
}

/// Cached values are a function of the graph and the input values alone: two
/// stores over the same graph whose input cells agree, both with every
/// compute cell up to date, hold the same value in every cell. Proved by
/// strong induction along the topological (index) order.
pub proof fn lemma_values_determined(a: Seq<NodeView>, b: Seq<NodeView>)
    requires
        a.len() == b.len(),
        acyclic(a),
        all_consistent(a),
        all_consistent(b),
        forall|j: int|
            0 <= j < a.len() ==> (#[trigger] b[j]).is_compute() == a[j].is_compute() && (
            a[j].is_compute() ==> b[j].children() == a[j].children() && b[j].func()
                == a[j].func()),
        forall|j: int| 0 <= j < a.len() && (#[trigger] a[j]).is_input() ==> b[j].value == a[j].value,
    ensures
        forall|j: int| 0 <= j < a.len() ==> (#[trigger] a[j]).value == b[j].value,
{
    lemma_values_determined_below(a, b, a.len() as int);
}

/// The induction step behind [`lemma_values_determined`]: all values below
/// index `hi` agree.
proof fn lemma_values_determined_below(a: Seq<NodeView>, b: Seq<NodeView>, hi: int)
    requires
        a.len() == b.len(),
        0 <= hi <= a.len(),
        acyclic(a),
        all_consistent(a),
        all_consistent(b),
        forall|j: int|
            0 <= j < a.len() ==> (#[trigger] b[j]).is_compute() == a[j].is_compute() && (
            a[j].is_compute() ==> b[j].children() == a[j].children() && b[j].func()
                == a[j].func()),
        forall|j: int| 0 <= j < a.len() && (#[trigger] a[j]).is_input() ==> b[j].value == a[j].value,
    ensures
        forall|j: int| 0 <= j < hi ==> (#[trigger] a[j]).value == b[j].value,
    decreases hi,
{
    if hi > 0 {
        lemma_values_determined_below(a, b, hi - 1);
        let j = hi - 1;
        if a[j].is_compute() {
            assert(cell_consistent(a, j));
            assert(cell_consistent(b, j));
            assert(deps_below(a, j));
            let ch = a[j].children();
            assert forall|k: int| 0 <= k < ch.len() implies {
                let d = (#[trigger] ch[k]) as int;
                d < a.len() && d < b.len() && a[d].value == b[d].value
            } by {
                assert(ch[k] < j);
            }
            lemma_dep_values_congruent(a, b, ch);
        }
    }
}

} // verus!
