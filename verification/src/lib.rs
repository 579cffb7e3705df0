//! A reactive dependency-graph engine.
//!
//! A [`Reactor`] owns a directed acyclic graph of cells. *Input* cells hold
//! externally set values; *compute* cells derive their value by applying a
//! pure function ([`Func`]) to the current values of other cells, in the
//! order those dependencies were declared. After every mutation of an input
//! cell the reactor brings all transitively dependent compute cells up to
//! date and notifies each affected cell's observers exactly once, with the
//! final value of the round.
//!
//! Cells are identified by dense integer indices wrapped in kind-specific id
//! types; indices are assigned monotonically and never reused. Dependencies
//! must exist before a compute cell is created, so every edge points from a
//! higher index to a lower one and the index order is a topological order of
//! the graph.
//!
//! Observers are passive recording slots: a notification appends the cell's
//! final value to the slot's record, which the host reads back between
//! rounds through [`Reactor::callback_values`]. A callback therefore cannot
//! run code of its own, and in particular cannot mutate the reactor while a
//! round is in flight: re-entrant mutation is ruled out by construction
//! rather than detected at run time.

use vstd::prelude::*;

mod compute_cell;
mod func;
mod input_cell;
mod laws;
mod model;
mod node;
mod reactor;

pub use compute_cell::CallbackSlot;
pub use compute_cell::CallbackSlotView;
pub use compute_cell::ComputeCellType;
pub use compute_cell::ComputeCellView;
pub use func::Func;
pub use input_cell::InputCellType;
pub use model::acyclic;
pub use model::all_consistent;
pub use model::callbacks_updated;
pub use model::cell_consistent;
pub use model::dep_indices;
pub use model::dep_values;
pub use model::deps_below;
pub use model::edges_consistent;
pub use model::lemma_dep_values_congruent;
pub use model::lemma_values_determined;
pub use model::remove_callback_rel;
pub use model::same_shape;
pub use model::same_shape_node;
pub use model::set_value_rel;
pub use model::slots_notified;
pub use model::views_of;
pub use node::Node;
pub use node::NodeKindView;
pub use node::NodeView;
pub use reactor::Reactor;

verus! {

/// Unique identifier for an input cell: a dense index into the reactor's
/// node store.
#[derive(Clone, Copy, Debug, PartialEq, Eq, Hash, Structural)]
pub struct InputCellId {
    id: usize,
}

impl InputCellId {
    /// The index this id wraps.
    pub closed spec fn spec_id(&self) -> usize {
        self.id
    }

    fn new(index: usize) -> (r: InputCellId)
        ensures
            r.spec_id() == index,
    {
        InputCellId { id: index }
    }
}

/// Unique identifier for a compute cell: a dense index into the reactor's
/// node store.
#[derive(Clone, Copy, Debug, PartialEq, Eq, Hash, Structural)]
pub struct ComputeCellId {
    id: usize,
}

impl ComputeCellId {
    /// The index this id wraps.
    pub closed spec fn spec_id(&self) -> usize {
        self.id
    }

    fn new(index: usize) -> (r: ComputeCellId)
        ensures
            r.spec_id() == index,
    {
        ComputeCellId { id: index }
    }
}

/// Identifier for a callback registered on a compute cell: the index of its
/// slot in that cell's registry. Slot indices are never reused, so a removed
/// id can never collide with a later one.
#[derive(Clone, Copy, Debug, PartialEq, Eq, Structural)]
pub struct CallbackId {
    id: usize,
}

impl CallbackId {
    /// The slot index this id wraps.
    pub closed spec fn spec_id(&self) -> usize {
        self.id
    }

    fn new(index: usize) -> (r: CallbackId)
        ensures
            r.spec_id() == index,
    {
        CallbackId { id: index }
    }
}

/// Identifier for a cell of either kind.
#[derive(Clone, Copy, Debug, PartialEq, Eq, Hash, Structural)]
pub enum CellId {
    Input(InputCellId),
    Compute(ComputeCellId),
}

impl CellId {
    /// The underlying store index, whichever kind the id is.
    pub open spec fn spec_idx(&self) -> usize {
        match self {
            CellId::Input(ic) => ic.spec_id(),
            CellId::Compute(cc) => cc.spec_id(),
        }
    }

    /// The underlying store index, whichever kind the id is.
    pub fn index(&self) -> (i: usize)
        ensures
            i == self.spec_idx(),
    {
        match self {
            CellId::Input(ic) => ic.id,
            CellId::Compute(cc) => cc.id,
        }
    }
}

/// Why removing a callback failed.
#[derive(Debug, PartialEq, Eq, Structural)]
pub enum RemoveCallbackError {
    /// The cell id does not refer to a compute cell of this reactor.
    NonexistentCell,
    /// The callback id was never issued for that cell, or was already
    /// removed.
    NonexistentCallback,
}

} // verus!
