use vstd::prelude::*;

use crate::quantity::Quantity;

verus! {

/// A back-reference kept on a node: the wire (by id) or the component (by name)
/// that touches it.
#[derive(Clone, Debug, PartialEq, Eq)]
pub enum ConnectionItem {
    Wire(usize),
    Component(String),
}

/// `item` is a back-reference to the component called `name`.
pub open spec fn refers_to_component(item: ConnectionItem, name: Seq<char>) -> bool {
    match item {
        ConnectionItem::Wire(_) => false,
        ConnectionItem::Component(n) => n@ == name,
    }
}

/// Keeps the back-references that are not to the component called `name`.
pub open spec fn other_than(name: Seq<char>) -> spec_fn(ConnectionItem) -> bool {
    |item: ConnectionItem| !refers_to_component(item, name)
}

impl ConnectionItem {
    fn duplicate(&self) -> (r: ConnectionItem)
        ensures
            r == *self,
    {
        match self {
            ConnectionItem::Wire(w) => ConnectionItem::Wire(*w),
            ConnectionItem::Component(n) => ConnectionItem::Component(n.clone()),
        }
    }
}

/// A vertex of the circuit graph.
pub struct Node {
    pub id: usize,
    pub voltage: Option<Quantity>,
    pub connected: Vec<ConnectionItem>,
}

impl Node {
    pub fn new(id: usize) -> (r: Node)
        ensures
            r.id == id,
            r.voltage.is_none(),
            r.connected@.len() == 0,
    {
        Node { id, voltage: None, connected: Vec::new() }
    }

    /// Appends `connection` to the back-references, as it is: no check, no dedup.
    pub fn add_connection(&mut self, connection: ConnectionItem)
        ensures
            final(self).id == old(self).id,
            final(self).voltage == old(self).voltage,
            final(self).connected@ == old(self).connected@.push(connection),
    {
        self.connected.push(connection);
    }

    /// Drops every back-reference to the component called `name`, keeping the
    /// others in their order.
    pub fn remove_component_refs(&mut self, name: &String)
        ensures
            final(self).id == old(self).id,
            final(self).voltage == old(self).voltage,
            final(self).connected@ == old(self).connected@.filter(other_than(name@)),
    {
        let mut kept: Vec<ConnectionItem> = Vec::new();
        let mut i: usize = 0;
        while i < self.connected.len()
            invariant
                0 <= i <= self.connected@.len(),
                kept@ == self.connected@.subrange(0, i as int).filter(other_than(name@)),
            decreases self.connected@.len() - i,
        {
            let keep = match &self.connected[i] {
                ConnectionItem::Wire(_) => true,
                ConnectionItem::Component(n) => !(*n == *name),
            };
            proof {
                reveal(Seq::filter);
                let prefix = self.connected@.subrange(0, i + 1);
                assert(prefix.drop_last() =~= self.connected@.subrange(0, i as int));
                assert(prefix.last() == self.connected@[i as int]);
            }
            if keep {
                kept.push(self.connected[i].duplicate());
            }
            i = i + 1;
        }
        proof {
            assert(self.connected@.subrange(0, i as int) =~= self.connected@);
        }
        self.connected = kept;
    }
}

} // verus!
