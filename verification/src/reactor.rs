//! The reactor itself: the owner of every node, the allocator of cell and
//! callback identities, and the propagation algorithm that keeps every
//! compute cell consistent and notifies observers exactly once per change.

use crate::compute_cell::CallbackSlotView;
use crate::compute_cell::ComputeCellView;
use crate::func::Func;
use crate::model::acyclic;
use crate::model::all_consistent;
use crate::model::callbacks_updated;
use crate::model::cell_consistent;
use crate::model::dep_indices;
use crate::model::dep_values;
use crate::model::deps_below;
use crate::model::edges_consistent;
use crate::model::lemma_dep_values_congruent;
use crate::model::lemma_values_determined;
use crate::model::remove_callback_rel;
use crate::model::same_shape_node;
use crate::model::set_value_rel;
use crate::model::slots_notified;
use crate::model::views_of;
use crate::node::Node;
use crate::node::NodeKindView;
use crate::node::NodeView;
use crate::CallbackId;
use crate::CellId;
use crate::ComputeCellId;
use crate::InputCellId;
use crate::RemoveCallbackError;
use vstd::prelude::*;

verus! {

/// The reactor: sole owner of every node, allocator of identities, and
/// driver of the propagation algorithm on every input mutation.
pub struct Reactor {
    store: Vec<Node>,
    counter: usize,
}

impl View for Reactor {
    type V = Seq<NodeView>;

    closed spec fn view(&self) -> Seq<NodeView> {
        views_of(self.store@)
    }
}

impl Reactor {
    /// The number of identities handed out so far.
    pub closed spec fn spec_counter(&self) -> usize {
        self.counter
    }

    /// The reactor's invariant: the graph is acyclic with index order as a
    /// topological order, every cached value is up to date, parent and child
    /// edge lists agree, and the identity counter matches the store.
    pub open spec fn wf(&self) -> bool {
        &&& acyclic(self@)
        &&& all_consistent(self@)
        &&& edges_consistent(self@)
        &&& self.spec_counter() == self@.len()
    }

    /// An empty reactor.
    pub fn new() -> (r: Reactor)
        ensures
            r@ == Seq::<NodeView>::empty(),
            r.wf(),
    {
        let r = Reactor { store: Vec::new(), counter: 0 };
        proof {
            assert(r@ =~= Seq::<NodeView>::empty());
        }
        r
    }

    /// Allocates a new input cell holding `initial` and returns its id.
    /// Always succeeds; the new cell gets the next free index.
    pub fn create_input(&mut self, initial: i64) -> (r: InputCellId)
        requires
            old(self).wf(),
        ensures
            final(self).wf(),
            r.spec_id() == old(self)@.len(),
            final(self)@ == old(self)@.push(
                NodeView { value: initial, t: NodeKindView::Input(Seq::empty()) },
            ),
    {
        let index = self.counter;
        let node = Node::create_input(initial);
        self.store.push(node);
        self.counter = self.store.len();
        proof {
            let pre = old(self)@;
            let post = self@;
            assert(post =~= pre.push(
                NodeView { value: initial, t: NodeKindView::Input(Seq::empty()) },
            ));
            lemma_append_keeps_wf(pre, post[pre.len() as int]);
        }
        InputCellId::new(index)
    }

    /// Allocates a new compute cell over the given dependencies, in the
    /// given order, deriving its value with `compute_func`.
    ///
    /// Every dependency id must resolve to an existing cell; otherwise the
    /// first offending id comes back as the error and the reactor is left
    /// exactly as it was, with no partial state. On success the function is
    /// evaluated once, over the dependencies' current values in declaration
    /// order, to seed the cache; the new cell is registered as a parent of
    /// each dependency; and its id wraps the next free index.
    pub fn create_compute(
        &mut self,
        dependencies: &Vec<CellId>,
        compute_func: Func,
    ) -> (r: Result<ComputeCellId, CellId>)
        requires
            old(self).wf(),
        ensures
            final(self).wf(),
            match r {
                Result::Ok(cc) => {
                    let n = old(self)@.len() as int;
                    let deps_idx = dep_indices(dependencies@);
                    &&& forall|k: int|
                        0 <= k < dependencies@.len() ==> (#[trigger] dependencies@[k].spec_idx())
                            < n
                    &&& cc.spec_id() == n
                    &&& final(self)@.len() == n + 1
                    &&& final(self)@[n].is_compute()
                    &&& final(self)@[n].children() == deps_idx
                    &&& final(self)@[n].func() == compute_func
                    &&& final(self)@[n].callbacks() == Seq::<CallbackSlotView>::empty()
                    &&& final(self)@[n].parents() == Seq::<usize>::empty()
                    &&& final(self)@[n].value == compute_func.spec_eval(
                        dep_values(old(self)@, deps_idx),
                    )
                    &&& forall|j: int|
                        0 <= j < n ==> {
                            let a = #[trigger] old(self)@[j];
                            let b = final(self)@[j];
                            &&& b.value == a.value
                            &&& b.is_input() == a.is_input()
                            &&& (a.is_compute() ==> b.children() == a.children() && b.func()
                                == a.func() && b.callbacks() == a.callbacks())
                        }
                    &&& forall|j: int, p: usize|
                        #![trigger final(self)@[j].parents().contains(p)]
                        #![trigger old(self)@[j].parents().contains(p)]
                        0 <= j < n ==> (final(self)@[j].parents().contains(p) <==> (old(
                            self,
                        )@[j].parents().contains(p) || (p as int == n && deps_idx.contains(
                            j as usize,
                        ))))
                },
                Result::Err(cid) => {
                    &&& final(self)@ == old(self)@
                    &&& exists|j: int|
                        0 <= j < dependencies@.len() && (#[trigger] dependencies@[j].spec_idx())
                            >= old(self)@.len() && cid == dependencies@[j] && (forall|k: int|
                            0 <= k < j ==> (#[trigger] dependencies@[k].spec_idx()) < old(
                                self,
                            )@.len())
                },
            },
    {
        let n = self.store.len();
        let mut children: Vec<usize> = Vec::new();
        let mut j: usize = 0;
        while j < dependencies.len()
            invariant
                old(self).wf(),
                self@ == old(self)@,
                self.spec_counter() == old(self).spec_counter(),
                n == self@.len(),
                j <= dependencies@.len(),
                children@.len() == j as int,
                forall|k: int|
                    0 <= k < j ==> (#[trigger] dependencies@[k].spec_idx()) < n && children@[k]
                        == dependencies@[k].spec_idx(),
            decreases dependencies@.len() - j,
        {
            let cid = dependencies[j];
            let index = cid.index();
            if index >= n {
                return Err(cid);
            }
            children.push(index);
            j += 1;
        }
        proof {
            assert(children@ =~= dep_indices(dependencies@));
        }
        let vals = collect_values(&self.store, &children);
        let node = Node::create_compute(children, compute_func, &vals);
        let index = self.counter;
        self.store.push(node);
        let ghost base = self@;
        let ghost deps_idx = dep_indices(dependencies@);
        let ghost n_int = n as int;
        proof {
            vstd::std_specs::vec::axiom_spec_len(&self.store);
            assert(base =~= old(self)@.push(base[n_int]));
        }
        let mut k: usize = 0;
        while k < dependencies.len()
            invariant
                old(self).wf(),
                base.len() == n_int + 1,
                base.len() <= usize::MAX,
                base == old(self)@.push(base[n_int]),
                base[n_int].is_compute(),
                base[n_int].children() == deps_idx,
                base[n_int].parents() == Seq::<usize>::empty(),
                deps_idx.len() == dependencies@.len(),
                n == n_int,
                n_int == old(self)@.len(),
                index as int == n_int,
                k <= dependencies@.len(),
                self@[n_int] == base[n_int],
                forall|m: int|
                    0 <= m < dependencies@.len() ==> (#[trigger] dependencies@[m].spec_idx())
                        < n && deps_idx[m] == dependencies@[m].spec_idx(),
                self@.len() == base.len(),
                self.spec_counter() == old(self).spec_counter(),
                forall|j2: int|
                    0 <= j2 < base.len() ==> {
                        let a = #[trigger] base[j2];
                        let b = self@[j2];
                        &&& b.value == a.value
                        &&& b.is_input() == a.is_input()
                        &&& (a.is_compute() ==> b.children() == a.children() && b.func()
                            == a.func() && b.callbacks() == a.callbacks())
                    },
                forall|j2: int, p: usize|
                    #![trigger self@[j2].parents().contains(p)]
                    #![trigger base[j2].parents().contains(p)]
                    0 <= j2 < base.len() ==> (self@[j2].parents().contains(p) <==> (base[j2].parents().contains(p) || (p as int == n_int && exists|m: int|
                        0 <= m < k && deps_idx[m] == j2 as usize))),
            decreases dependencies@.len() - k,
        {
            let c = dependencies[k].index();
            let ghost prev = self@;
            self.store[c].add_parent(index);
            proof {
                assert(forall|j2: int|
                    0 <= j2 < prev.len() && j2 != c as int ==> self@[j2] == prev[j2]);
                lemma_parent_added(base, prev, self@, c as int, n_int, deps_idx, k as int);
            }
            k += 1;
        }
        self.counter = self.store.len();
        proof {
            assert(self@[n_int] == base[n_int]);
            assert forall|j2: int| 0 <= j2 < n_int implies {
                let a = #[trigger] old(self)@[j2];
                let b = self@[j2];
                &&& b.value == a.value
                &&& b.is_input() == a.is_input()
                &&& (a.is_compute() ==> b.children() == a.children() && b.func() == a.func()
                    && b.callbacks() == a.callbacks())
            } by {
                assert(base[j2] == old(self)@[j2]);
            }
            lemma_create_compute_wf(old(self)@, base, self@, deps_idx);
            assert forall|j2: int, p: usize|
                #![trigger self@[j2].parents().contains(p)]
                #![trigger old(self)@[j2].parents().contains(p)]
                0 <= j2 < n_int implies (self@[j2].parents().contains(p) <==> (old(
                self,
            )@[j2].parents().contains(p) || (p as int == n_int && deps_idx.contains(j2 as usize))))
                by {
                assert(base[j2] == old(self)@[j2]);
                assert((exists|m: int|
                    0 <= m < dependencies@.len() && deps_idx[m] == j2 as usize)
                    <==> deps_idx.contains(j2 as usize));
            }
        }
        Ok(ComputeCellId::new(index))
    }

    /// Sets the value of the named input cell and runs one propagation
    /// round, then reports `true`; reports `false`, changing nothing, when
    /// the id does not resolve to an input cell of this reactor.
    ///
    /// The round brings every transitively dependent compute cell up to date
    /// by recomputing along the topological (index) order, so a cell is only
    /// recomputed after all its dependencies hold their final values; then,
    /// in a second pass in the same order, it notifies each active callback
    /// of every compute cell whose value actually changed, exactly once,
    /// with the cell's final value. Setting an input to the value it already
    /// holds succeeds, changes nothing and notifies nobody.
    pub fn set_value(&mut self, ic: InputCellId, new_value: i64) -> (r: bool)
        requires
            old(self).wf(),
        ensures
            final(self).wf(),
            r == ((ic.spec_id() as int) < old(self)@.len() && old(self)@[ic.spec_id() as int].is_input()),
            !r ==> final(self)@ == old(self)@,
            r ==> set_value_rel(old(self)@, final(self)@, ic.spec_id() as int, new_value),
            r && old(self)@[ic.spec_id() as int].value == new_value ==> final(self)@ == old(self)@,
    {
        let idx = ic.id;
        let n = self.store.len();
        if idx >= n {
            return false;
        }
        if self.store[idx].is_input_cell() == false {
            return false;
        }
        let ghost pre = self@;
        let ghost idx_int = idx as int;
        let old_value = self.store[idx].get_value();
        self.store[idx].set_value(new_value);

        let mut changed: Vec<bool> = Vec::new();
        while changed.len() < n
            invariant
                changed@.len() <= n as int,
                forall|m: int| 0 <= m < changed@.len() ==> !(#[trigger] changed@[m]),
            decreases n as int - changed@.len(),
        {
            changed.push(false);
        }
        changed[idx] = new_value != old_value;

        proof {
            assert(forall|j: int| 0 <= j < n && j != idx_int ==> self@[j] == pre[j]);
            assert forall|j: int| 0 <= j < idx_int + 1 implies #[trigger] cell_consistent(
                self@,
                j,
            ) by {
                if self@[j].is_compute() {
                    assert(self@[j] == pre[j]);
                    assert(cell_consistent(pre, j));
                    assert(deps_below(pre, j));
                    let ch = pre[j].children();
                    assert forall|k: int| 0 <= k < ch.len() implies {
                        let d = (#[trigger] ch[k]) as int;
                        d < pre.len() && d < self@.len() && pre[d].value == self@[d].value
                    } by {
                        assert(ch[k] < j);
                    }
                    lemma_dep_values_congruent(pre, self@, ch);
                }
            }
        }

        let mut i: usize = idx + 1;
        while i < n
            invariant
                old(self).wf(),
                pre == old(self)@,
                pre.len() == n as int,
                idx < n,
                idx_int == idx as int,
                pre[idx_int].is_input(),
                idx < i <= n,
                self@.len() == n as int,
                self.spec_counter() == old(self).spec_counter(),
                changed@.len() == n as int,
                forall|j: int| 0 <= j < n ==> (#[trigger] self@[j]).t == pre[j].t,
                forall|j: int|
                    0 <= j < n && (#[trigger] pre[j]).is_input() ==> self@[j].value == (if j
                        == idx_int {
                        new_value
                    } else {
                        pre[j].value
                    }),
                forall|j: int| i <= j < n ==> (#[trigger] self@[j]).value == (if j == idx_int {
                    new_value
                } else {
                    pre[j].value
                }),
                forall|j: int| 0 <= j < i ==> #[trigger] cell_consistent(self@, j),
                forall|j: int|
                    0 <= j < n ==> (#[trigger] changed@[j]) == (self@[j].value != pre[j].value),
            decreases n - i,
        {
            let is_input = self.store[i].is_input_cell();
            if !is_input {
                let ghost before = self@;
                let deps = self.store[i].child_list();
                proof {
                    assert(self@[i as int].t == pre[i as int].t);
                    assert(deps@ == pre[i as int].children());
                    assert(deps_below(pre, i as int));
                    assert forall|k: int| 0 <= k < deps@.len() implies (#[trigger] deps@[k])
                        < i by {
                        assert(pre[i as int].children()[k] < i as int);
                    }
                }
                let vals = collect_values(&self.store, deps);
                let nv = self.store[i].rerun_compute_function(&vals);
                let cur = self.store[i].get_value();
                if nv != cur {
                    self.store[i].set_value(nv);
                    changed[i] = true;
                }
                proof {
                    assert(forall|j: int| 0 <= j < n && j != i as int ==> self@[j] == before[j]);
                    assert forall|j: int| 0 <= j < i as int + 1 implies #[trigger] cell_consistent(
                        self@,
                        j,
                    ) by {
                        if self@[j].is_compute() {
                            let ch = pre[j].children();
                            assert(self@[j].children() == ch);
                            assert(deps_below(pre, j));
                            assert forall|k: int| 0 <= k < ch.len() implies {
                                let d = (#[trigger] ch[k]) as int;
                                d < before.len() && d < self@.len() && before[d].value
                                    == self@[d].value
                            } by {
                                assert(ch[k] < j);
                            }
                            lemma_dep_values_congruent(before, self@, ch);
                            if j < i as int {
                                assert(cell_consistent(before, j));
                            } else {
                                assert(vals@ == dep_values(before, ch));
                            }
                        }
                    }
                }
            }
            i += 1;
        }

        let ghost mid = self@;
        let mut i2: usize = 0;
        while i2 < n
            invariant
                old(self).wf(),
                pre == old(self)@,
                pre.len() == n as int,
                mid.len() == n as int,
                i2 <= n,
                self@.len() == n as int,
                self.spec_counter() == old(self).spec_counter(),
                changed@.len() == n as int,
                forall|j: int| 0 <= j < n ==> (#[trigger] mid[j]).t == pre[j].t,
                forall|j: int|
                    0 <= j < n ==> (#[trigger] changed@[j]) == (mid[j].value != pre[j].value),
                forall|j: int| i2 <= j < n ==> (#[trigger] self@[j]) == mid[j],
                forall|j: int|
                    0 <= j < i2 ==> {
                        let m = #[trigger] mid[j];
                        let b = self@[j];
                        &&& b.value == m.value
                        &&& (m.is_input() ==> b == m)
                        &&& (m.is_compute() ==> {
                            &&& b.is_compute()
                            &&& b.parents() == m.parents()
                            &&& b.children() == m.children()
                            &&& b.func() == m.func()
                            &&& slots_notified(
                                m.callbacks(),
                                b.callbacks(),
                                changed@[j],
                                m.value,
                            )
                        })
                    },
            decreases n - i2,
        {
            if changed[i2] {
                let ghost before = self@;
                let v = self.store[i2].get_value();
                self.store[i2].invoke_callbacks(v);
                proof {
                    assert(forall|j: int| 0 <= j < n && j != i2 as int ==> self@[j] == before[j]);
                }
            }
            i2 += 1;
        }

        proof {
            lemma_round_summary(pre, mid, self@, changed@, idx_int, new_value);
            if pre[idx_int].value == new_value {
                lemma_values_determined(pre, mid);
                assert forall|j: int| 0 <= j < n implies self@[j] == pre[j] by {
                    assert(!changed@[j]);
                    assert(mid[j].value == pre[j].value && mid[j].t == pre[j].t);
                    assert(mid[j] == pre[j]);
                    if mid[j].is_compute() {
                        assert(self@[j].callbacks() =~= mid[j].callbacks());
                        assert(self@[j].t->Compute_0 =~= mid[j].t->Compute_0);
                        assert(self@[j].t == mid[j].t);
                        assert(self@[j] == mid[j]);
                    }
                }
                assert(self@ =~= pre);
            }
        }
        true
    }

    /// Registers a fresh recording callback on the named compute cell and
    /// returns its identifier, or none when the id does not resolve to a
    /// compute cell of this reactor. The slot starts active with an empty
    /// record; every later propagation round in which the cell's value
    /// changes appends the final value to the record, exactly once, readable
    /// through [`Reactor::callback_values`].
    pub fn add_callback(&mut self, id: ComputeCellId) -> (r: Option<CallbackId>)
        requires
            old(self).wf(),
        ensures
            final(self).wf(),
            r is Some <==> ((id.spec_id() as int) < old(self)@.len() && old(self)@[id.spec_id() as int].is_compute()),
            r is None ==> final(self)@ == old(self)@,
            r matches Some(cb) ==> {
                let c = id.spec_id() as int;
                &&& cb.spec_id() == old(self)@[c].callbacks().len()
                &&& final(self)@ == old(self)@.update(
                    c,
                    NodeView {
                        value: old(self)@[c].value,
                        t: NodeKindView::Compute(
                            ComputeCellView {
                                callbacks: old(self)@[c].callbacks().push(
                                    CallbackSlotView { active: true, values: Seq::empty() },
                                ),
                                ..old(self)@[c].t->Compute_0
                            },
                        ),
                    },
                )
            },
    {
        let idx = id.id;
        if idx >= self.store.len() {
            return None;
        }
        if self.store[idx].is_input_cell() {
            return None;
        }
        let r = self.store[idx].add_callback();
        proof {
            let c = idx as int;
            assert(self@ =~= old(self)@.update(
                c,
                NodeView {
                    value: old(self)@[c].value,
                    t: NodeKindView::Compute(
                        ComputeCellView {
                            callbacks: old(self)@[c].callbacks().push(
                                CallbackSlotView { active: true, values: Seq::empty() },
                            ),
                            ..old(self)@[c].t->Compute_0
                        },
                    ),
                },
            ));
            lemma_same_graph_wf(old(self)@, self@);
        }
        r
    }

    /// Deactivates the named callback slot of the named compute cell.
    /// `NonexistentCell` when the cell id does not resolve to a compute cell
    /// of this reactor; `NonexistentCallback` when the slot was never issued
    /// for that cell or is already inactive. A removed slot keeps its record
    /// of past notifications but receives no further ones, and its index is
    /// never reused.
    pub fn remove_callback(
        &mut self,
        cell: ComputeCellId,
        callback: CallbackId,
    ) -> (r: Result<(), RemoveCallbackError>)
        requires
            old(self).wf(),
        ensures
            final(self).wf(),
            r is Ok <==> ((cell.spec_id() as int) < old(self)@.len()
                && old(self)@[cell.spec_id() as int].is_compute()
                && (callback.spec_id() as int) < old(self)@[cell.spec_id() as int].callbacks().len()
                && old(self)@[cell.spec_id() as int].callbacks()[callback.spec_id() as int].active),
            r == Err::<(), RemoveCallbackError>(RemoveCallbackError::NonexistentCell) <==> !((
            cell.spec_id() as int) < old(self)@.len() && old(self)@[cell.spec_id() as int].is_compute()),
            r is Ok ==> remove_callback_rel(
                old(self)@,
                final(self)@,
                cell.spec_id() as int,
                callback.spec_id() as int,
            ),
            r is Err ==> final(self)@ == old(self)@,
    {
        let idx = cell.id;
        if idx >= self.store.len() {
            return Err(RemoveCallbackError::NonexistentCell);
        }
        if self.store[idx].is_input_cell() {
            return Err(RemoveCallbackError::NonexistentCell);
        }
        let r = self.store[idx].remove_callback(callback);
        proof {
            let c = idx as int;
            let k = callback.spec_id() as int;
            if r is Ok {
                assert(self@ =~= old(self)@.update(
                    c,
                    NodeView {
                        value: old(self)@[c].value,
                        t: NodeKindView::Compute(
                            ComputeCellView {
                                callbacks: old(self)@[c].callbacks().update(
                                    k,
                                    CallbackSlotView {
                                        active: false,
                                        values: old(self)@[c].callbacks()[k].values,
                                    },
                                ),
                                ..old(self)@[c].t->Compute_0
                            },
                        ),
                    },
                ));
                lemma_same_graph_wf(old(self)@, self@);
            } else {
                assert(self@ =~= old(self)@);
            }
        }
        r
    }

    /// The values the named callback has been notified of so far, oldest
    /// first, or none when the cell id does not resolve to a compute cell of
    /// this reactor or the slot was never issued for it. The record of a
    /// removed callback stays readable.
    pub fn callback_values(&self, cell: ComputeCellId, callback: CallbackId) -> (r: Option<
        Vec<i64>,
    >)
        ensures
            r is Some <==> ((cell.spec_id() as int) < self@.len() && self@[cell.spec_id() as int].is_compute()
                && (callback.spec_id() as int) < self@[cell.spec_id() as int].callbacks().len()),
            r matches Some(values) ==> values@ == self@[cell.spec_id() as int].callbacks()[callback.spec_id() as int].values,
    {
        let idx = cell.id;
        if idx >= self.store.len() {
            return None;
        }
        if self.store[idx].is_input_cell() {
            return None;
        }
        if callback.id >= self.store[idx].callback_count() {
            return None;
        }
        let slot = self.store[idx].callback_slot(callback.id);
        let recorded = slot.values();
        let mut values: Vec<i64> = Vec::new();
        let mut k: usize = 0;
        while k < recorded.len()
            invariant
                k <= recorded@.len(),
                values@ == recorded@.take(k as int),
            decreases recorded@.len() - k,
        {
            let v = recorded[k];
            values.push(v);
            proof {
                assert(values@ =~= recorded@.take(k as int + 1));
            }
            k += 1;
        }
        proof {
            assert(values@ =~= recorded@);
        }
        Some(values)
    }

    /// The current value of the cell the id names, or none when the id is
    /// unknown. A pure read: it never triggers recomputation.
    pub fn value(&self, id: CellId) -> (r: Option<i64>)
        ensures
            r == (if (id.spec_idx() as int) < self@.len() {
                Some(self@[id.spec_idx() as int].value)
            } else {
                None::<i64>
            }),
    {
        let index = id.index();
        if index < self.store.len() {
            Some(self.store[index].get_value())
        } else {
            None
        }
    }
}

/// Reads the values of the cells at the given indices, in the given order.
fn collect_values(store: &Vec<Node>, deps: &Vec<usize>) -> (vals: Vec<i64>)
    requires
        forall|k: int| 0 <= k < deps@.len() ==> (#[trigger] deps@[k]) < store@.len(),
    ensures
        vals@ == dep_values(views_of(store@), deps@),
{
    let mut vals: Vec<i64> = Vec::new();
    let mut k: usize = 0;
    while k < deps.len()
        invariant
            k <= deps@.len(),
            forall|m: int| 0 <= m < deps@.len() ==> (#[trigger] deps@[m]) < store@.len(),
            vals@.len() == k as int,
            forall|m: int|
                0 <= m < k ==> vals@[m] == views_of(store@)[(#[trigger] deps@[m]) as int].value,
        decreases deps@.len() - k,
    {
        let d = deps[k];
        vals.push(store[d].get_value());
        k += 1;
    }
    proof {
        assert(vals@ =~= dep_values(views_of(store@), deps@));
    }
    vals
}

/// One step of wiring the new compute cell at index `n` as a parent of its
/// `k`-th dependency: only that dependency's parent list grows, by exactly
/// the new index.
proof fn lemma_parent_added(
    base: Seq<NodeView>,
    prev: Seq<NodeView>,
    cur: Seq<NodeView>,
    c: int,
    n: int,
    deps_idx: Seq<usize>,
    k: int,
)
    requires
        0 <= n < base.len(),
        base.len() <= usize::MAX,
        prev.len() == base.len(),
        cur.len() == base.len(),
        0 <= k < deps_idx.len(),
        0 <= c < n,
        deps_idx[k] as int == c,
        prev[n] == base[n],
        forall|j: int|
            0 <= j < base.len() ==> {
                let a = #[trigger] base[j];
                let b = prev[j];
                &&& b.value == a.value
                &&& b.is_input() == a.is_input()
                &&& (a.is_compute() ==> b.children() == a.children() && b.func() == a.func()
                    && b.callbacks() == a.callbacks())
            },
        forall|j: int, p: usize|
            #![trigger prev[j].parents().contains(p)]
            #![trigger base[j].parents().contains(p)]
            0 <= j < base.len() ==> (prev[j].parents().contains(p) <==> (base[j].parents().contains(p) || (p as int == n && exists|m: int|
                0 <= m < k && deps_idx[m] == j as usize))),
        forall|j: int| 0 <= j < prev.len() && j != c ==> cur[j] == prev[j],
        cur[c].value == prev[c].value,
        cur[c].is_input() == prev[c].is_input(),
        prev[c].is_compute() ==> cur[c].children() == prev[c].children() && cur[c].func()
            == prev[c].func() && cur[c].callbacks() == prev[c].callbacks(),
        cur[c].parents() == prev[c].parents().push(n as usize),
    ensures
        cur[n] == base[n],
        forall|j: int|
            0 <= j < base.len() ==> {
                let a = #[trigger] base[j];
                let b = cur[j];
                &&& b.value == a.value
                &&& b.is_input() == a.is_input()
                &&& (a.is_compute() ==> b.children() == a.children() && b.func() == a.func()
                    && b.callbacks() == a.callbacks())
            },
        forall|j: int, p: usize|
            #![trigger cur[j].parents().contains(p)]
            #![trigger base[j].parents().contains(p)]
            0 <= j < base.len() ==> (cur[j].parents().contains(p) <==> (base[j].parents().contains(p) || (p as int == n && exists|m: int|
                0 <= m < k + 1 && deps_idx[m] == j as usize))),
{
    broadcast use vstd::seq_lib::lemma_seq_contains_after_push;

    assert forall|j: int, p: usize|
        #![trigger cur[j].parents().contains(p)]
        #![trigger base[j].parents().contains(p)]
        0 <= j < base.len() implies (cur[j].parents().contains(p) <==> (base[j].parents().contains(p) || (p as int == n && exists|m: int|
        0 <= m < k + 1 && deps_idx[m] == j as usize))) by {
        if j == c {
            assert(cur[c].parents().contains(p) <==> (prev[c].parents().contains(p) || p == (
            n as usize)));
            assert(deps_idx[k] == c as usize);
            if p as int == n {
                assert(exists|m: int| 0 <= m < k + 1 && deps_idx[m] == j as usize);
            }
        } else {
            assert(cur[j] == prev[j]);
            if exists|m: int| 0 <= m < k + 1 && deps_idx[m] == j as usize {
                let m = choose|m: int| 0 <= m < k + 1 && deps_idx[m] == j as usize;
                assert(m != k);
                assert(exists|m2: int| 0 <= m2 < k && deps_idx[m2] == j as usize);
            }
        }
    }
}

/// After the new compute cell is pushed and wired as a parent of each of its
/// dependencies, the store's invariant holds again.
proof fn lemma_create_compute_wf(
    pre: Seq<NodeView>,
    base: Seq<NodeView>,
    post: Seq<NodeView>,
    deps_idx: Seq<usize>,
)
    requires
        pre.len() < usize::MAX,
        acyclic(pre),
        all_consistent(pre),
        edges_consistent(pre),
        base == pre.push(base[pre.len() as int]),
        base[pre.len() as int].is_compute(),
        base[pre.len() as int].children() == deps_idx,
        base[pre.len() as int].parents() == Seq::<usize>::empty(),
        base[pre.len() as int].value == base[pre.len() as int].func().spec_eval(
            dep_values(pre, deps_idx),
        ),
        forall|m: int| 0 <= m < deps_idx.len() ==> (#[trigger] deps_idx[m]) < pre.len(),
        post.len() == base.len(),
        post[pre.len() as int] == base[pre.len() as int],
        forall|j: int|
            0 <= j < base.len() ==> {
                let a = #[trigger] base[j];
                let b = post[j];
                &&& b.value == a.value
                &&& b.is_input() == a.is_input()
                &&& (a.is_compute() ==> b.children() == a.children() && b.func() == a.func()
                    && b.callbacks() == a.callbacks())
            },
        forall|j: int, p: usize|
            #![trigger post[j].parents().contains(p)]
            #![trigger base[j].parents().contains(p)]
            0 <= j < base.len() ==> (post[j].parents().contains(p) <==> (base[j].parents().contains(p) || (p as int == pre.len() as int && deps_idx.contains(
                j as usize,
            )))),
    ensures
        acyclic(post),
        all_consistent(post),
        edges_consistent(post),
{
    let n = pre.len() as int;
    assert forall|i: int| 0 <= i < post.len() && post[i].is_compute() implies #[trigger] deps_below(
        post,
        i,
    ) by {
        if i < n {
            assert(base[i] == pre[i]);
            assert(post[i].children() == pre[i].children());
            assert(deps_below(pre, i));
        } else {
            assert(post[i].children() == deps_idx);
        }
    }
    assert forall|i: int| 0 <= i < post.len() implies #[trigger] cell_consistent(post, i) by {
        if post[i].is_compute() {
            if i < n {
                assert(base[i] == pre[i]);
                assert(cell_consistent(pre, i));
                assert(deps_below(pre, i));
                let ch = pre[i].children();
                assert forall|k2: int| 0 <= k2 < ch.len() implies {
                    let d = (#[trigger] ch[k2]) as int;
                    d < pre.len() && d < post.len() && pre[d].value == post[d].value
                } by {
                    assert(ch[k2] < i);
                    assert(base[ch[k2] as int] == pre[ch[k2] as int]);
                }
                lemma_dep_values_congruent(pre, post, ch);
            } else {
                assert forall|k2: int| 0 <= k2 < deps_idx.len() implies {
                    let d = (#[trigger] deps_idx[k2]) as int;
                    d < pre.len() && d < post.len() && pre[d].value == post[d].value
                } by {
                    assert(base[deps_idx[k2] as int] == pre[deps_idx[k2] as int]);
                }
                lemma_dep_values_congruent(pre, post, deps_idx);
            }
        }
    }
    assert forall|i: int, p: usize|
        #![trigger post[i].parents().contains(p)]
        #![trigger post[p as int].children().contains(i as usize)]
        0 <= i < post.len() implies (post[i].parents().contains(p) <==> (p < post.len()
        && post[p as int].is_compute() && post[p as int].children().contains(i as usize))) by {
        if i < n {
            assert(base[i] == pre[i]);
            assert(pre[i].parents().contains(p) <==> (p < pre.len() && pre[p as int].is_compute()
                && pre[p as int].children().contains(i as usize)));
            if p < pre.len() {
                assert(base[p as int] == pre[p as int]);
                assert(post[p as int].is_compute() == pre[p as int].is_compute());
                if pre[p as int].is_compute() {
                    assert(post[p as int].children() == pre[p as int].children());
                }
            } else if p as int == n {
                assert(post[p as int].children() == deps_idx);
            }
        } else {
            assert(post[i] == base[i]);
            assert(!post[i].parents().contains(p));
            if p < post.len() && post[p as int].is_compute() && post[p as int].children().contains(
                i as usize,
            ) {
                if p as int == n {
                    let m = choose|m: int| 0 <= m < deps_idx.len() && deps_idx[m] == (i as usize);
                    assert(deps_idx[m] < pre.len());
                    assert(false);
                } else {
                    assert(base[p as int] == pre[p as int]);
                    assert(post[p as int].children() == pre[p as int].children());
                    let k = choose|k: int|
                        0 <= k < pre[p as int].children().len() && pre[p as int].children()[k] == (
                        i as usize);
                    assert(deps_below(pre, p as int));
                    assert(pre[p as int].children()[k] < p as int);
                    assert(false);
                }
            }
        }
    }
}

/// Appending a node with no parents, no children and no callbacks keeps the
/// store's invariant: nothing below it changed, and nothing can point at it
/// yet.
proof fn lemma_append_keeps_wf(pre: Seq<NodeView>, nv: NodeView)
    requires
        pre.len() < usize::MAX,
        acyclic(pre),
        all_consistent(pre),
        edges_consistent(pre),
        nv.parents() == Seq::<usize>::empty(),
        nv.is_input(),
    ensures
        acyclic(pre.push(nv)),
        all_consistent(pre.push(nv)),
        edges_consistent(pre.push(nv)),
{
    let post = pre.push(nv);
    let n = pre.len() as int;
    assert forall|i: int| 0 <= i < post.len() && post[i].is_compute() implies #[trigger] deps_below(
        post,
        i,
    ) by {
        assert(post[i] == pre[i]);
        assert(deps_below(pre, i));
    }
    assert forall|i: int| 0 <= i < post.len() implies #[trigger] cell_consistent(post, i) by {
        if i < n && post[i].is_compute() {
            assert(post[i] == pre[i]);
            assert(cell_consistent(pre, i));
            assert(deps_below(pre, i));
            lemma_dep_values_congruent(pre, post, pre[i].children());
        }
    }
    assert forall|i: int, p: usize|
        #![trigger post[i].parents().contains(p)]
        #![trigger post[p as int].children().contains(i as usize)]
        0 <= i < post.len() implies (post[i].parents().contains(p) <==> (p < post.len()
        && post[p as int].is_compute() && post[p as int].children().contains(i as usize))) by {
        if i < n {
            assert(post[i] == pre[i]);
            assert(pre[i].parents().contains(p) <==> (p < pre.len() && pre[p as int].is_compute()
                && pre[p as int].children().contains(i as usize)));
            if p < pre.len() {
                assert(post[p as int] == pre[p as int]);
            } else if p as int == n {
                assert(post[p as int] == nv);
                assert(!nv.is_compute());
            }
        } else {
            assert(post[i] == nv);
            assert(!nv.parents().contains(p));
            if p < post.len() && post[p as int].is_compute() && post[p as int].children().contains(
                i as usize,
            ) {
                assert(p as int != n);
                assert(post[p as int] == pre[p as int]);
                let k = choose|k: int|
                    0 <= k < post[p as int].children().len() && post[p as int].children()[k] == (
                    i as usize);
                assert(deps_below(post, p as int));
                assert(post[p as int].children()[k] < p as int);
                assert(false);
            }
        }
    }
}

/// A store whose values, kinds and edges all agree with a well-formed one is
/// well-formed too, whatever happened to its callback records.
proof fn lemma_same_graph_wf(a: Seq<NodeView>, b: Seq<NodeView>)
    requires
        acyclic(a),
        all_consistent(a),
        edges_consistent(a),
        b.len() == a.len(),
        forall|j: int|
            0 <= j < a.len() ==> {
                let x = #[trigger] a[j];
                let y = b[j];
                &&& y.value == x.value
                &&& y.is_compute() == x.is_compute()
                &&& y.parents() == x.parents()
                &&& (x.is_compute() ==> y.children() == x.children() && y.func() == x.func())
            },
    ensures
        acyclic(b),
        all_consistent(b),
        edges_consistent(b),
{
    assert forall|i: int| 0 <= i < b.len() && b[i].is_compute() implies #[trigger] deps_below(
        b,
        i,
    ) by {
        assert(b[i].children() == a[i].children());
        assert(deps_below(a, i));
    }
    assert forall|i: int| 0 <= i < b.len() implies #[trigger] cell_consistent(b, i) by {
        if b[i].is_compute() {
            assert(cell_consistent(a, i));
            assert(deps_below(a, i));
            let ch = a[i].children();
            assert forall|k: int| 0 <= k < ch.len() implies {
                let d = (#[trigger] ch[k]) as int;
                d < a.len() && d < b.len() && a[d].value == b[d].value
            } by {
                assert(ch[k] < i);
            }
            lemma_dep_values_congruent(a, b, ch);
        }
    }
    assert forall|i: int, p: usize|
        #![trigger b[i].parents().contains(p)]
        #![trigger b[p as int].children().contains(i as usize)]
        0 <= i < b.len() implies (b[i].parents().contains(p) <==> (p < b.len()
        && b[p as int].is_compute() && b[p as int].children().contains(i as usize))) by {
        assert(a[i].parents().contains(p) <==> (p < a.len() && a[p as int].is_compute()
            && a[p as int].children().contains(i as usize)));
    }
}

/// Ties the two passes of a propagation round together: after recomputation
/// (`pre` to `mid`, values only) and notification (`mid` to `post`, callback
/// records only), the store satisfies its invariant again and the round as a
/// whole satisfies [`set_value_rel`].
proof fn lemma_round_summary(
    pre: Seq<NodeView>,
    mid: Seq<NodeView>,
    post: Seq<NodeView>,
    changed: Seq<bool>,
    idx: int,
    v: i64,
)
    requires
        acyclic(pre),
        all_consistent(pre),
        edges_consistent(pre),
        mid.len() == pre.len(),
        post.len() == pre.len(),
        changed.len() == pre.len(),
        0 <= idx < pre.len(),
        pre[idx].is_input(),
        forall|j: int| 0 <= j < pre.len() ==> (#[trigger] mid[j]).t == pre[j].t,
        forall|j: int|
            0 <= j < pre.len() && (#[trigger] pre[j]).is_input() ==> mid[j].value == (if j == idx {
                v
            } else {
                pre[j].value
            }),
        all_consistent(mid),
        forall|j: int| 0 <= j < pre.len() ==> (#[trigger] changed[j]) == (mid[j].value != pre[j].value),
        forall|j: int|
            0 <= j < pre.len() ==> {
                let m = #[trigger] mid[j];
                let b = post[j];
                &&& b.value == m.value
                &&& (m.is_input() ==> b == m)
                &&& (m.is_compute() ==> {
                    &&& b.is_compute()
                    &&& b.parents() == m.parents()
                    &&& b.children() == m.children()
                    &&& b.func() == m.func()
                    &&& slots_notified(m.callbacks(), b.callbacks(), changed[j], m.value)
                })
            },
    ensures
        acyclic(post),
        all_consistent(post),
        edges_consistent(post),
        set_value_rel(pre, post, idx, v),
{
    let n = pre.len() as int;
    assert forall|i: int| 0 <= i < n && post[i].is_compute() implies #[trigger] deps_below(
        post,
        i,
    ) by {
        assert(mid[i].is_compute());
        assert(post[i].children() == pre[i].children());
        assert(deps_below(pre, i));
    }
    assert forall|i: int| 0 <= i < n implies #[trigger] cell_consistent(post, i) by {
        if post[i].is_compute() {
            assert(mid[i].is_compute());
            assert(cell_consistent(mid, i));
            assert(deps_below(pre, i));
            let ch = mid[i].children();
            assert(ch == pre[i].children());
            assert forall|k: int| 0 <= k < ch.len() implies {
                let d = (#[trigger] ch[k]) as int;
                d < mid.len() && d < post.len() && mid[d].value == post[d].value
            } by {
                assert(ch[k] < i);
            }
            lemma_dep_values_congruent(mid, post, ch);
        }
    }
    assert forall|i: int| 0 <= i < n implies (#[trigger] post[i]).parents() == pre[i].parents()
        && post[i].is_compute() == pre[i].is_compute() && (pre[i].is_compute()
        ==> post[i].children() == pre[i].children()) by {
        if mid[i].is_input() {
            assert(post[i] == mid[i]);
        }
    }
    assert forall|i: int, p: usize|
        #![trigger post[i].parents().contains(p)]
        #![trigger post[p as int].children().contains(i as usize)]
        0 <= i < n implies (post[i].parents().contains(p) <==> (p < post.len()
        && post[p as int].is_compute() && post[p as int].children().contains(i as usize))) by {
        assert(pre[i].parents().contains(p) <==> (p < pre.len() && pre[p as int].is_compute()
            && pre[p as int].children().contains(i as usize)));
    }
    assert forall|j: int| 0 <= j < n implies same_shape_node(#[trigger] pre[j], post[j]) by {
        if pre[j].is_input() {
            assert(post[j] == mid[j]);
            assert(mid[j].t == pre[j].t);
        } else {
            assert(mid[j].callbacks() == pre[j].callbacks());
            assert(slots_notified(pre[j].callbacks(), post[j].callbacks(), changed[j], mid[j].value));
        }
    }
    assert forall|j: int| 0 <= j < n implies callbacks_updated(#[trigger] pre[j], post[j]) by {
        if pre[j].is_compute() {
            assert(mid[j].callbacks() == pre[j].callbacks());
            assert(post[j].value == mid[j].value);
            assert(slots_notified(pre[j].callbacks(), post[j].callbacks(), changed[j], mid[j].value));
            assert(changed[j] == (post[j].value != pre[j].value));
        }
    }
}

} // verus!
