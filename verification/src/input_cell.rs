//! The input variant of a cell: no dependencies, only a list of parent
//! edges, the indices of the compute cells that read it.

use vstd::prelude::*;

verus! {

/// Per-node bookkeeping of an input cell: the indices of the cells that
/// depend on it. Parent edges are plain indices into the reactor's store,
/// never owning references, so the graph cannot form ownership cycles.
pub struct InputCellType {
    parents: Vec<usize>,
}

impl View for InputCellType {
    type V = Seq<usize>;

    closed spec fn view(&self) -> Seq<usize> {
        self.parents@
    }
}

impl InputCellType {
    /// A new input cell with the given parent edges.
    pub fn new(parents: Vec<usize>) -> (c: InputCellType)
        ensures
            c@ == parents@,
    {
        InputCellType { parents }
    }

    /// Records that the cell at the given index depends on this one.
    pub fn add_parent(&mut self, node: usize)
        ensures
            final(self)@ == old(self)@.push(node),
    {
        self.parents.push(node);
    }

    /// The indices of the cells that depend on this one.
    pub fn parent_iter(&self) -> (parents: &Vec<usize>)
        ensures
            parents@ == self@,
    {
        &self.parents
    }
}

} // verus!
