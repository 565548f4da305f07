use vstd::prelude::*;

verus! {

/// An ideal, zero-impedance edge between two nodes.
#[derive(Clone, Copy, Debug, PartialEq, Eq, Structural)]
pub struct Wire {
    pub node1: usize,
    pub node2: usize,
    pub id: usize,
}

impl Wire {
    pub fn new(id: usize, node1: usize, node2: usize) -> (r: Wire)
        ensures
            r == (Wire { node1, node2, id }),
    {
        Wire { node1, node2, id }
    }
}

} // verus!
