//! Global laws of the propagation engine, stated over the reactor's
//! mathematical model and proved from the relations that the public methods
//! promise in their contracts.

use crate::acyclic;
use crate::all_consistent;
use crate::callbacks_updated;
use crate::cell_consistent;
use crate::dep_values;
use crate::deps_below;
use crate::lemma_values_determined;
use crate::remove_callback_rel;
use crate::same_shape;
use crate::same_shape_node;
use crate::set_value_rel;
use crate::slots_notified;
use crate::NodeView;
use vstd::prelude::*;

verus! {

/// A round leaves the graph itself alone, so the topological order survives:
/// two stores of the same shape are acyclic together.
pub proof fn lemma_same_shape_acyclic(a: Seq<NodeView>, b: Seq<NodeView>)
    requires
        acyclic(a),
        same_shape(a, b),
    ensures
        acyclic(b),
{
    assert forall|i: int| 0 <= i < b.len() && b[i].is_compute() implies #[trigger] deps_below(
        b,
        i,
    ) by {
        assert(same_shape_node(a[i], b[i]));
        assert(b[i].children() == a[i].children());
        assert(deps_below(a, i));
    }
}

/// No spurious callbacks: a round that sets an input cell to the value it
/// already holds changes no cell and no callback record — the store after
/// the round is the store before it, so nothing anywhere was notified.
pub proof fn lemma_no_spurious_callbacks(
    pre: Seq<NodeView>,
    post: Seq<NodeView>,
    idx: int,
    v: i64,
)
    requires
        acyclic(pre),
        all_consistent(pre),
        0 <= idx < pre.len(),
        pre[idx].is_input(),
        set_value_rel(pre, post, idx, v),
        pre[idx].value == v,
    ensures
        post == pre,
{
    assert forall|j: int|
        0 <= j < pre.len() ==> (#[trigger] post[j]).is_compute() == pre[j].is_compute() && (
        pre[j].is_compute() ==> post[j].children() == pre[j].children() && post[j].func()
            == pre[j].func()) by {
        if 0 <= j < pre.len() {
            assert(same_shape_node(pre[j], post[j]));
        }
    }
    lemma_values_determined(pre, post);
    assert forall|j: int| 0 <= j < pre.len() implies post[j] == pre[j] by {
        assert(same_shape_node(pre[j], post[j]));
        assert(callbacks_updated(pre[j], post[j]));
        if pre[j].is_compute() {
            assert(slots_notified(
                pre[j].callbacks(),
                post[j].callbacks(),
                post[j].value != pre[j].value,
                post[j].value,
            ));
            assert(post[j].callbacks() =~= pre[j].callbacks());
            assert(post[j].t->Compute_0 =~= pre[j].t->Compute_0);
        }
    }
    assert(post =~= pre);
}

/// Exactly-once semantics: in one round, each callback slot of each compute
/// cell is notified zero times or once, never more — once exactly when it is
/// active and its cell's value changed, and then of the final value.
pub proof fn lemma_callbacks_at_most_once(
    pre: Seq<NodeView>,
    post: Seq<NodeView>,
    idx: int,
    v: i64,
    cell: int,
    k: int,
)
    requires
        set_value_rel(pre, post, idx, v),
        0 <= cell < pre.len(),
        pre[cell].is_compute(),
        0 <= k < pre[cell].callbacks().len(),
    ensures
        ({
            let s = pre[cell].callbacks()[k];
            let t = post[cell].callbacks()[k];
            &&& (s.active && post[cell].value != pre[cell].value) ==> t.values == s.values.push(
                post[cell].value,
            )
            &&& !(s.active && post[cell].value != pre[cell].value) ==> t.values == s.values
        }),
{
    assert(callbacks_updated(pre[cell], post[cell]));
}

/// Order preservation: a round never reorders or rewires a compute cell's
/// dependencies, and always leaves its value equal to its function applied
/// to the dependency values in the order declared at creation.
pub proof fn lemma_order_preserved(
    pre: Seq<NodeView>,
    post: Seq<NodeView>,
    idx: int,
    v: i64,
    cell: int,
)
    requires
        set_value_rel(pre, post, idx, v),
        0 <= cell < pre.len(),
        pre[cell].is_compute(),
    ensures
        post[cell].children() == pre[cell].children(),
        post[cell].func() == pre[cell].func(),
        post[cell].value == pre[cell].func().spec_eval(dep_values(post, pre[cell].children())),
{
    assert(same_shape_node(pre[cell], post[cell]));
    assert(cell_consistent(post, cell));
}

/// Removed callback silence: once removing a callback has succeeded, a
/// propagation round notifies it of nothing — its record stays exactly what
/// it was when it was removed, and it stays inactive.
pub proof fn lemma_removed_callback_silent(
    r0: Seq<NodeView>,
    r1: Seq<NodeView>,
    r2: Seq<NodeView>,
    cell: int,
    k: int,
    idx: int,
    v: i64,
)
    requires
        remove_callback_rel(r0, r1, cell, k),
        set_value_rel(r1, r2, idx, v),
    ensures
        !r2[cell].callbacks()[k].active,
        r2[cell].callbacks()[k].values == r0[cell].callbacks()[k].values,
{
    assert(r1[cell].is_compute());
    assert(!r1[cell].callbacks()[k].active);
    assert(r1[cell].callbacks()[k].values == r0[cell].callbacks()[k].values);
    assert(callbacks_updated(r1[cell], r2[cell]));
    assert(same_shape_node(r1[cell], r2[cell]));
}

/// Idempotence: two successive rounds that set the same input cell to the
/// same value end in the same store — the second round changes nothing and
/// notifies nobody.
pub proof fn lemma_set_value_idempotent(
    r0: Seq<NodeView>,
    r1: Seq<NodeView>,
    r2: Seq<NodeView>,
    idx: int,
    v: i64,
)
    requires
        acyclic(r0),
        all_consistent(r0),
        0 <= idx < r0.len(),
        r0[idx].is_input(),
        set_value_rel(r0, r1, idx, v),
        set_value_rel(r1, r2, idx, v),
    ensures
        r2 == r1,
{
    lemma_same_shape_acyclic(r0, r1);
    assert(same_shape_node(r0[idx], r1[idx]));
    assert(r1[idx].is_input());
    assert(r1[idx].value == v);
    lemma_no_spurious_callbacks(r1, r2, idx, v);
}

} // verus!
