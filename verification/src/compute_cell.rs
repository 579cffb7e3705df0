//! The compute variant of a cell: its dependencies, its evaluation function
//! and its callback registry.

use crate::func::Func;
use crate::CallbackId;
use crate::RemoveCallbackError;
use vstd::prelude::*;

verus! {

/// One entry of a compute cell's callback registry. A slot records every
/// value it has been notified of, in order; removing the callback only
/// deactivates the slot, so its index is never reused and its record stays
/// readable.
pub struct CallbackSlot {
    active: bool,
    values: Vec<i64>,
}

/// The mathematical model of a callback slot.
#[verifier::ext_equal]
pub ghost struct CallbackSlotView {
    pub active: bool,
    pub values: Seq<i64>,
}

impl View for CallbackSlot {
    type V = CallbackSlotView;

    closed spec fn view(&self) -> CallbackSlotView {
        CallbackSlotView { active: self.active, values: self.values@ }
    }
}

impl CallbackSlot {
    /// Whether the callback is still registered.
    pub fn is_active(&self) -> (b: bool)
        ensures
            b == self@.active,
    {
        self.active
    }

    /// The values the callback has been notified of so far, oldest first.
    pub fn values(&self) -> (values: &Vec<i64>)
        ensures
            values@ == self@.values,
    {
        &self.values
    }
}

/// Per-node bookkeeping of a compute cell: the indices of the cells that
/// depend on it, the indices of its dependencies in the exact order they
/// were declared, its evaluation function, and its callback registry. All
/// edges are plain indices into the reactor's store.
pub struct ComputeCellType {
    parents: Vec<usize>,
    children: Vec<usize>,
    compute_function: Func,
    callbacks: Vec<CallbackSlot>,
}

/// The mathematical model of a compute cell.
#[verifier::ext_equal]
pub ghost struct ComputeCellView {
    pub parents: Seq<usize>,
    pub children: Seq<usize>,
    pub func: Func,
    pub callbacks: Seq<CallbackSlotView>,
}

impl View for ComputeCellType {
    type V = ComputeCellView;

    closed spec fn view(&self) -> ComputeCellView {
        ComputeCellView {
            parents: self.parents@,
            children: self.children@,
            func: self.compute_function,
            callbacks: self.callbacks@.map_values(|s: CallbackSlot| s@),
        }
    }
}

impl ComputeCellType {
    /// A new compute cell over the given ordered dependencies, with no
    /// parents and no callbacks yet.
    pub fn new(children: Vec<usize>, compute_function: Func) -> (c: ComputeCellType)
        ensures
            c@.parents == Seq::<usize>::empty(),
            c@.children == children@,
            c@.func == compute_function,
            c@.callbacks == Seq::<CallbackSlotView>::empty(),
    {
        let c = ComputeCellType { parents: Vec::new(), children, compute_function, callbacks: Vec::new() };
        proof {
            assert(c@.callbacks =~= Seq::<CallbackSlotView>::empty());
        }
        c
    }

    /// Records that the cell at the given index depends on this one.
    pub fn add_parent(&mut self, node: usize)
        ensures
            final(self)@ == (ComputeCellView { parents: old(self)@.parents.push(node), ..old(self)@ }),
    {
        self.parents.push(node);
        proof {
            assert(self@ =~= (ComputeCellView { parents: old(self)@.parents.push(node), ..old(self)@ }));
        }
    }

    /// Evaluates the cell's function over the given argument values.
    pub fn rerun_compute_function(&self, values: &Vec<i64>) -> (r: i64)
        ensures
            r == self@.func.spec_eval(values@),
    {
        self.compute_function.eval(values)
    }

    /// Appends a fresh active slot to the registry and returns its index as
    /// the callback's identifier.
    pub fn add_callback(&mut self) -> (r: Option<CallbackId>)
        ensures
            r matches Some(cb) && cb.spec_id() == old(self)@.callbacks.len(),
            final(self)@ == (ComputeCellView {
                callbacks: old(self)@.callbacks.push(CallbackSlotView { active: true, values: Seq::empty() }),
                ..old(self)@
            }),
    {
        let len = self.callbacks.len();
        self.callbacks.push(CallbackSlot { active: true, values: Vec::new() });
        proof {
            assert(self@ =~~= (ComputeCellView {
                callbacks: old(self)@.callbacks.push(CallbackSlotView { active: true, values: Seq::empty() }),
                ..old(self)@
            }));
        }
        Some(CallbackId::new(len))
    }

    /// Notifies every active callback of the given value, in the order the
    /// callbacks were added; inactive slots are skipped.
    pub fn invoke_callback(&mut self, value: i64)
        ensures
            final(self)@.parents == old(self)@.parents,
            final(self)@.children == old(self)@.children,
            final(self)@.func == old(self)@.func,
            final(self)@.callbacks.len() == old(self)@.callbacks.len(),
            forall|k: int| 0 <= k < old(self)@.callbacks.len() ==> {
                let s = #[trigger] old(self)@.callbacks[k];
                final(self)@.callbacks[k] == (CallbackSlotView {
                    active: s.active,
                    values: if s.active {
                        s.values.push(value)
                    } else {
                        s.values
                    },
                })
            },
    {
        let n = self.callbacks.len();
        let mut k: usize = 0;
        while k < n
            invariant
                n == self.callbacks@.len(),
                k <= n,
                self@.parents == old(self)@.parents,
                self@.children == old(self)@.children,
                self@.func == old(self)@.func,
                self@.callbacks.len() == old(self)@.callbacks.len(),
                forall|j: int| 0 <= j < k ==> {
                    let s = #[trigger] old(self)@.callbacks[j];
                    self@.callbacks[j] == (CallbackSlotView {
                        active: s.active,
                        values: if s.active {
                            s.values.push(value)
                        } else {
                            s.values
                        },
                    })
                },
                forall|j: int| k <= j < n ==> self@.callbacks[j] == old(self)@.callbacks[j],
            decreases n - k,
        {
            if self.callbacks[k].active {
                self.callbacks[k].values.push(value);
            }
            k += 1;
        }
    }

    /// Deactivates the slot the id names. Fails when the id was never issued
    /// for this cell or the slot is already inactive; the slot's record of
    /// past notifications is kept either way.
    pub fn remove_callback(&mut self, callback_id: CallbackId) -> (r: Result<(), RemoveCallbackError>)
        ensures
            r is Ok <==> (callback_id.spec_id() < old(self)@.callbacks.len()
                && old(self)@.callbacks[callback_id.spec_id() as int].active),
            r is Ok ==> final(self)@ == (ComputeCellView {
                callbacks: old(self)@.callbacks.update(
                    callback_id.spec_id() as int,
                    CallbackSlotView {
                        active: false,
                        values: old(self)@.callbacks[callback_id.spec_id() as int].values,
                    },
                ),
                ..old(self)@
            }),
            r is Err ==> *final(self) == *old(self) && r == Err::<(), RemoveCallbackError>(
                RemoveCallbackError::NonexistentCallback,
            ),
    {
        let index = callback_id.id;
        if index < self.callbacks.len() && self.callbacks[index].active {
            self.callbacks[index].active = false;
            proof {
                assert(self@ =~~= (ComputeCellView {
                    callbacks: old(self)@.callbacks.update(
                        callback_id.spec_id() as int,
                        CallbackSlotView {
                            active: false,
                            values: old(self)@.callbacks[callback_id.spec_id() as int].values,
                        },
                    ),
                    ..old(self)@
                }));
            }
            Ok(())
        } else {
            Err(RemoveCallbackError::NonexistentCallback)
        }
    }

    /// The number of callback slots ever issued, active or not.
    pub fn callback_count(&self) -> (n: usize)
        ensures
            n == self@.callbacks.len(),
    {
        self.callbacks.len()
    }

    /// The callback slot at the given index.
    pub fn callback_slot(&self, index: usize) -> (s: &CallbackSlot)
        requires
            index < self@.callbacks.len(),
        ensures
            s@ == self@.callbacks[index as int],
    {
        &self.callbacks[index]
    }

    /// The indices of the cells that depend on this one.
    pub fn parent_iter(&self) -> (parents: &Vec<usize>)
        ensures
            parents@ == self@.parents,
    {
        &self.parents
    }

    /// The indices of this cell's dependencies, in declaration order.
    pub fn children_iter(&self) -> (children: &Vec<usize>)
        ensures
            children@ == self@.children,
    {
        &self.children
    }
}

} // verus!
