//! A cell of the graph: a current value together with the input- or
//! compute-specific bookkeeping.

use crate::compute_cell::CallbackSlot;
use crate::compute_cell::CallbackSlotView;
use crate::compute_cell::ComputeCellType;
use crate::compute_cell::ComputeCellView;
use crate::func::Func;
use crate::input_cell::InputCellType;
use crate::CallbackId;
use crate::RemoveCallbackError;
use vstd::prelude::*;

verus! {

/// Which kind of cell a node is, with the kind-specific bookkeeping.
enum NodeKind {
    IC(InputCellType),
    CC(ComputeCellType),
}

/// The atomic unit of the graph: the node's current (for compute cells,
/// cached) value and its kind.
pub struct Node {
    node_value: i64,
    t: NodeKind,
}

/// The mathematical model of a node's kind.
#[verifier::ext_equal]
pub ghost enum NodeKindView {
    /// An input cell: the indices of its dependents.
    Input(Seq<usize>),
    /// A compute cell: its full model.
    Compute(ComputeCellView),
}

/// The mathematical model of a node.
#[verifier::ext_equal]
pub ghost struct NodeView {
    pub value: i64,
    pub t: NodeKindView,
}

impl View for Node {
    type V = NodeView;

    closed spec fn view(&self) -> NodeView {
        NodeView {
            value: self.node_value,
            t: match self.t {
                NodeKind::IC(ic) => NodeKindView::Input(ic@),
                NodeKind::CC(cc) => NodeKindView::Compute(cc@),
            },
        }
    }
}

impl NodeView {
    /// Whether the node is an input cell.
    pub open spec fn is_input(self) -> bool {
        self.t is Input
    }

    /// Whether the node is a compute cell.
    pub open spec fn is_compute(self) -> bool {
        self.t is Compute
    }

    /// The node's dependency indices, in declaration order (compute cells
    /// only).
    pub open spec fn children(self) -> Seq<usize> {
        self.t->Compute_0.children
    }

    /// The node's evaluation function (compute cells only).
    pub open spec fn func(self) -> Func {
        self.t->Compute_0.func
    }

    /// The node's callback registry (compute cells only).
    pub open spec fn callbacks(self) -> Seq<CallbackSlotView> {
        self.t->Compute_0.callbacks
    }

    /// The indices of the cells that depend on this one.
    pub open spec fn parents(self) -> Seq<usize> {
        match self.t {
            NodeKindView::Input(parents) => parents,
            NodeKindView::Compute(cc) => cc.parents,
        }
    }
}

impl Node {
    /// A new input cell holding the given value, with no dependents yet.
    pub fn create_input(value: i64) -> (n: Node)
        ensures
            n@ == (NodeView { value, t: NodeKindView::Input(Seq::empty()) }),
    {
        let n = Node { node_value: value, t: NodeKind::IC(InputCellType::new(Vec::new())) };
        proof {
            assert(n@.t->Input_0 =~= Seq::<usize>::empty());
            assert(n@ =~~= (NodeView { value, t: NodeKindView::Input(Seq::empty()) }));
        }
        n
    }

    /// A new compute cell over the given ordered dependencies, whose cached
    /// value is the function evaluated once over the dependencies' current
    /// values, handed in here in the same order.
    pub fn create_compute(children: Vec<usize>, compute_func: Func, dep_values: &Vec<i64>) -> (n: Node)
        ensures
            n@.value == compute_func.spec_eval(dep_values@),
            n@.t == NodeKindView::Compute(ComputeCellView {
                parents: Seq::empty(),
                children: children@,
                func: compute_func,
                callbacks: Seq::empty(),
            }),
    {
        let value = compute_func.eval(dep_values);
        Node { node_value: value, t: NodeKind::CC(ComputeCellType::new(children, compute_func)) }
    }

    /// The node's current value.
    pub fn get_value(&self) -> (v: i64)
        ensures
            v == self@.value,
    {
        self.node_value
    }

    /// Overwrites the node's cached value; everything else is untouched.
    pub fn set_value(&mut self, value: i64)
        ensures
            final(self)@ == (NodeView { value, t: old(self)@.t }),
    {
        self.node_value = value;
    }

    /// Whether the node is an input cell.
    pub fn is_input_cell(&self) -> (b: bool)
        ensures
            b == self@.is_input(),
    {
        match self.t {
            NodeKind::IC(_) => true,
            NodeKind::CC(_) => false,
        }
    }

    /// Records that the cell at the given index depends on this one.
    pub fn add_parent(&mut self, node: usize)
        ensures
            final(self)@.value == old(self)@.value,
            final(self)@.is_input() == old(self)@.is_input(),
            final(self)@.parents() == old(self)@.parents().push(node),
            old(self)@.is_compute() ==> final(self)@.t == NodeKindView::Compute(ComputeCellView {
                parents: old(self)@.parents().push(node),
                ..old(self)@.t->Compute_0
            }),
            old(self)@.is_input() ==> final(self)@.t == NodeKindView::Input(
                old(self)@.parents().push(node),
            ),
    {
        match &mut self.t {
            NodeKind::IC(ic) => ic.add_parent(node),
            NodeKind::CC(cc) => cc.add_parent(node),
        }
    }

    /// The indices of the cells that depend on this one.
    pub fn parent_list(&self) -> (parents: &Vec<usize>)
        ensures
            parents@ == self@.parents(),
    {
        match &self.t {
            NodeKind::IC(ic) => ic.parent_iter(),
            NodeKind::CC(cc) => cc.parent_iter(),
        }
    }

    /// The node's dependency indices, in declaration order.
    pub fn child_list(&self) -> (children: &Vec<usize>)
        requires
            self@.is_compute(),
        ensures
            children@ == self@.children(),
    {
        match &self.t {
            NodeKind::IC(_) => unreached(),
            NodeKind::CC(cc) => cc.children_iter(),
        }
    }

    /// Evaluates the node's function over the given argument values.
    pub fn rerun_compute_function(&self, values: &Vec<i64>) -> (r: i64)
        requires
            self@.is_compute(),
        ensures
            r == self@.func().spec_eval(values@),
    {
        match &self.t {
            NodeKind::IC(_) => unreached(),
            NodeKind::CC(cc) => cc.rerun_compute_function(values),
        }
    }

    /// Registers a fresh recording callback on a compute cell and returns
    /// its identifier; input cells take no callbacks.
    pub fn add_callback(&mut self) -> (r: Option<CallbackId>)
        ensures
            old(self)@.is_input() ==> r is None && *final(self) == *old(self),
            old(self)@.is_compute() ==> {
                &&& r matches Some(cb) && cb.spec_id() == old(self)@.callbacks().len()
                &&& final(self)@.value == old(self)@.value
                &&& final(self)@.t == NodeKindView::Compute(ComputeCellView {
                    callbacks: old(self)@.callbacks().push(
                        CallbackSlotView { active: true, values: Seq::empty() },
                    ),
                    ..old(self)@.t->Compute_0
                })
            },
    {
        match &mut self.t {
            NodeKind::IC(_) => None,
            NodeKind::CC(cc) => cc.add_callback(),
        }
    }

    /// Deactivates the named callback slot of a compute cell; input cells
    /// have none.
    pub fn remove_callback(&mut self, callback: CallbackId) -> (r: Result<(), RemoveCallbackError>)
        ensures
            old(self)@.is_input() ==> r == Err::<(), RemoveCallbackError>(
                RemoveCallbackError::NonexistentCell,
            ) && *final(self) == *old(self),
            old(self)@.is_compute() ==> {
                &&& (r is Ok <==> (callback.spec_id() < old(self)@.callbacks().len()
                    && old(self)@.callbacks()[callback.spec_id() as int].active))
                &&& r is Ok ==> final(self)@.value == old(self)@.value
                    && final(self)@.t == NodeKindView::Compute(ComputeCellView {
                    callbacks: old(self)@.callbacks().update(
                        callback.spec_id() as int,
                        CallbackSlotView {
                            active: false,
                            values: old(self)@.callbacks()[callback.spec_id() as int].values,
                        },
                    ),
                    ..old(self)@.t->Compute_0
                })
                &&& r is Err ==> *final(self) == *old(self) && r == Err::<(), RemoveCallbackError>(
                    RemoveCallbackError::NonexistentCallback,
                )
            },
    {
        match &mut self.t {
            NodeKind::IC(_) => Err(RemoveCallbackError::NonexistentCell),
            NodeKind::CC(cc) => cc.remove_callback(callback),
        }
    }

    /// The number of callback slots ever issued on a compute cell.
    pub fn callback_count(&self) -> (n: usize)
        requires
            self@.is_compute(),
        ensures
            n == self@.callbacks().len(),
    {
        match &self.t {
            NodeKind::IC(_) => unreached(),
            NodeKind::CC(cc) => cc.callback_count(),
        }
    }

    /// The callback slot of a compute cell at the given index.
    pub fn callback_slot(&self, index: usize) -> (s: &CallbackSlot)
        requires
            self@.is_compute(),
            index < self@.callbacks().len(),
        ensures
            s@ == self@.callbacks()[index as int],
    {
        match &self.t {
            NodeKind::IC(_) => unreached(),
            NodeKind::CC(cc) => cc.callback_slot(index),
        }
    }

    /// Notifies every active callback of a compute cell of the given value;
    /// on an input cell this does nothing.
    pub fn invoke_callbacks(&mut self, value: i64)
        ensures
            final(self)@.value == old(self)@.value,
            final(self)@.is_input() == old(self)@.is_input(),
            final(self)@.parents() == old(self)@.parents(),
            old(self)@.is_input() ==> *final(self) == *old(self),
            old(self)@.is_compute() ==> {
                &&& final(self)@.children() == old(self)@.children()
                &&& final(self)@.func() == old(self)@.func()
                &&& final(self)@.callbacks().len() == old(self)@.callbacks().len()
                &&& forall|k: int| 0 <= k < old(self)@.callbacks().len() ==> {
                    let s = #[trigger] old(self)@.callbacks()[k];
                    final(self)@.callbacks()[k] == (CallbackSlotView {
                        active: s.active,
                        values: if s.active {
                            s.values.push(value)
                        } else {
                            s.values
                        },
                    })
                }
            },
    {
        match &mut self.t {
            NodeKind::IC(_) => (),
            NodeKind::CC(cc) => cc.invoke_callback(value),
        }
    }
}

} // verus!
