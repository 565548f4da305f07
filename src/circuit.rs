use vstd::prelude::*;

use crate::component::{BaseComponent, Component, CurrentSource, Polarity, VoltageSource};
use crate::node::{other_than, refers_to_component, ConnectionItem, Node};
use crate::wire::Wire;

verus! {

/// Why `Circuit::connect` refused to add a wire.
#[derive(Clone, Copy, Debug, PartialEq, Eq, Structural)]
pub enum ConnectionError {
    /// An endpoint is not the id of an existing node.
    InvalidNode,
    /// Both endpoints are the same node.
    SelfConnection,
}

impl ConnectionError {
    /// A sentence describing the refusal.
    pub fn message(&self) -> (r: &'static str)
        ensures
            *self == ConnectionError::InvalidNode ==> r@ == "Node does not exist"@,
            *self == ConnectionError::SelfConnection ==> r@ == "Cannot connect a node to itself"@,
    {
        match self {
            ConnectionError::InvalidNode => "Node does not exist",
            ConnectionError::SelfConnection => "Cannot connect a node to itself",
        }
    }
}

/// A wire whose endpoints are two distinct nodes below `n`.
pub open spec fn wire_in_range(w: Wire, n: nat) -> bool {
    &&& w.node1 < n
    &&& w.node2 < n
    &&& w.node1 != w.node2
}

/// Both terminals assigned, distinct, and below `n`.
pub open spec fn terminals_in_range(b: BaseComponent, n: nat) -> bool {
    &&& b.node1.is_some()
    &&& b.node2.is_some()
    &&& b.node1.unwrap() < n
    &&& b.node2.unwrap() < n
    &&& b.node1.unwrap() != b.node2.unwrap()
}

/// `i` is the first position in `comps` whose element is called `name`.
pub open spec fn first_named(comps: Seq<Component>, name: Seq<char>, i: int) -> bool {
    &&& 0 <= i < comps.len()
    &&& comps[i].base().name@ == name
    &&& forall|j: int| 0 <= j < i ==> comps[j].base().name@ != name
}

/// Some element of `comps` is called `name`.
pub open spec fn has_named(comps: Seq<Component>, name: Seq<char>) -> bool {
    exists|i: int| 0 <= i < comps.len() && comps[i].base().name@ == name
}

/// `c` with its terminals set to `node1` and `node2`.
pub open spec fn attached(c: Component, node1: usize, node2: usize) -> Component {
    c.with_base(BaseComponent { node1: Some(node1), node2: Some(node2), ..c.base() })
}

/// `after` is `before` with `item` appended to its back-references.
pub open spec fn gained(before: Node, after: Node, item: ConnectionItem) -> bool {
    &&& after.id == before.id
    &&& after.voltage == before.voltage
    &&& after.connected@ == before.connected@.push(item)
}

/// A node freshly minted with id `id` for the component called `name`.
pub open spec fn minted_for(n: Node, id: int, name: String) -> bool {
    &&& n.id == id
    &&& n.voltage.is_none()
    &&& n.connected@ == seq![ConnectionItem::Component(name)]
}

/// Once a current source is attached to `node1` and `node2`, its input
/// terminal is `node1` and its output terminal `node2` under normal polarity,
/// and the other way round under inverted polarity.
pub proof fn lemma_attached_current_source_orientation(v: CurrentSource, node1: usize, node2: usize)
    ensures
        match attached(Component::CurrentSource(v), node1, node2) {
            Component::CurrentSource(s) => {
                &&& s.polarity == v.polarity
                &&& v.polarity == Polarity::Normal ==> s.spec_input_node() == Some(node1)
                    && s.spec_output_node() == Some(node2)
                &&& v.polarity == Polarity::Inverted ==> s.spec_input_node() == Some(node2)
                    && s.spec_output_node() == Some(node1)
            },
            _ => false,
        },
{
}

/// Every node id held by a wire or by a component's terminals is the id of a
/// node of the circuit.
pub proof fn lemma_references_in_range(c: &Circuit)
    requires
        c.wf(),
    ensures
        c.references_in_range(),
{
    assert forall|i: int| 0 <= i < c.wires@.len() implies #[trigger] c.wires@[i].node1
        < c.nodes@.len() && c.wires@[i].node2 < c.nodes@.len() by {
        assert(wire_in_range(c.wires@[i], c.nodes@.len()));
    }
    assert forall|i: int| 0 <= i < c.components@.len() implies ((
    #[trigger] c.components@[i].base()).node1.is_some() ==> c.components@[i].base().node1.unwrap()
        < c.nodes@.len()) && (c.components@[i].base().node2.is_some()
        ==> c.components@[i].base().node2.unwrap() < c.nodes@.len()) by {
        assert(terminals_in_range(c.components@[i].base(), c.nodes@.len()));
    }
}

/// Once a voltage source is attached to `node1` and `node2`, its positive
/// terminal is `node1` and its negative terminal `node2` under normal
/// polarity, and the other way round under inverted polarity.
pub proof fn lemma_attached_source_orientation(v: VoltageSource, node1: usize, node2: usize)
    ensures
        match attached(Component::VoltageSource(v), node1, node2) {
            Component::VoltageSource(s) => {
                &&& s.polarity == v.polarity
                &&& v.polarity == Polarity::Normal ==> s.spec_positive_node() == Some(node1)
                    && s.spec_negative_node() == Some(node2)
                &&& v.polarity == Polarity::Inverted ==> s.spec_positive_node() == Some(node2)
                    && s.spec_negative_node() == Some(node1)
            },
            _ => false,
        },
{
}

/// Node `k` is one of the terminals of `c`.
pub open spec fn touches(c: Component, k: int) -> bool {
    c.base().node1 == Some(k as usize) || c.base().node2 == Some(k as usize)
}

/// `longer` begins with `shorter`.
pub open spec fn extends(shorter: Seq<ConnectionItem>, longer: Seq<ConnectionItem>) -> bool {
    &&& shorter.len() <= longer.len()
    &&& forall|j: int| 0 <= j < shorter.len() ==> longer[j] == shorter[j]
}

proof fn lemma_extends_contains(shorter: Seq<ConnectionItem>, longer: Seq<ConnectionItem>, item: ConnectionItem)
    requires
        extends(shorter, longer),
        shorter.contains(item),
    ensures
        longer.contains(item),
{
    let j = choose|j: int| 0 <= j < shorter.len() && shorter[j] == item;
    assert(longer[j] == item);
}

proof fn lemma_extends_lists(before: Circuit, after: Circuit, k: int, name: Seq<char>)
    requires
        0 <= k < before.nodes@.len(),
        k < after.nodes@.len(),
        extends(before.nodes@[k].connected@, after.nodes@[k].connected@),
        before.lists_component(k, name),
    ensures
        after.lists_component(k, name),
{
    let j = choose|j: int|
        0 <= j < before.nodes@[k].connected@.len() && refers_to_component(
            #[trigger] before.nodes@[k].connected@[j],
            name,
        );
    assert(after.nodes@[k].connected@[j] == before.nodes@[k].connected@[j]);
}

/// `after` is `before` without its back-references to the component called `name`.
pub open spec fn dropped(before: Node, after: Node, name: Seq<char>) -> bool {
    &&& after.id == before.id
    &&& after.voltage == before.voltage
    &&& after.connected@ == before.connected@.filter(other_than(name))
}

/// A circuit: the nodes (indexed by id), the wires (indexed by id) and the
/// components (at most one per name).
pub struct Circuit {
    pub nodes: Vec<Node>,
    pub wires: Vec<Wire>,
    pub components: Vec<Component>,
}

/// What `Circuit::add_component` leaves behind keeps the structural invariant.
proof fn lemma_attach_preserves(before: Circuit, after: Circuit, orig: Component, replaced: Option<int>)
    requires
        before.wf(),
        ({
            let n = before.nodes@.len() as int;
            let name = orig.base().name;
            let stored = attached(orig, n as usize, (n + 1) as usize);
            &&& n + 1 <= usize::MAX
            &&& after.nodes@.len() == n + 2
            &&& after.wires == before.wires
            &&& minted_for(after.nodes@[n], n, name)
            &&& minted_for(after.nodes@[n + 1], n + 1, name)
            &&& match replaced {
                None => {
                    &&& !has_named(before.components@, name@)
                    &&& after.components@ == before.components@.push(stored)
                    &&& after.nodes@.subrange(0, n) == before.nodes@
                },
                Some(p) => {
                    &&& first_named(before.components@, name@, p)
                    &&& after.components@ == before.components@.update(p, stored)
                    &&& forall|k: int|
                        0 <= k < n ==> if touches(before.components@[p], k) {
                            dropped(before.nodes@[k], #[trigger] after.nodes@[k], name@)
                        } else {
                            after.nodes@[k] == before.nodes@[k]
                        }
                },
            }
        }),
    ensures
        after.wf(),
{
    let n = before.nodes@.len() as int;
    let name = orig.base().name;
    let stored = attached(orig, n as usize, (n + 1) as usize);
    let slot = match replaced {
        Some(p) => p,
        None => before.components@.len() as int,
    };
    // the element now stored at `slot` is the new one; every other one is as it was
    assert(after.components@[slot] == stored);
    assert forall|i: int| 0 <= i < after.components@.len() && i != slot implies after.components@[i]
        == before.components@[i] by {}
    assert(stored.base().name == name);
    // the nodes below n: a node that the replaced element touched lost its
    // references to `name`; the others are as they were
    assert forall|k: int| 0 <= k < n && !(replaced.is_some() && touches(before.components@[slot], k))
        implies after.nodes@[k] == before.nodes@[k] by {
        if replaced.is_none() {
            assert(after.nodes@[k] == after.nodes@.subrange(0, n)[k]);
        }
    }
    assert forall|i: int| 0 <= i < after.nodes@.len() implies after.nodes@[i].id == i by {
        if i < n {
            if replaced.is_some() && touches(before.components@[slot], i) {
                assert(dropped(before.nodes@[i], after.nodes@[i], name@));
            }
        }
    }
    assert forall|i: int| 0 <= i < after.wires@.len() implies after.wires@[i].id == i
        && wire_in_range(#[trigger] after.wires@[i], after.nodes@.len()) by {
        assert(wire_in_range(before.wires@[i], before.nodes@.len()));
    }
    assert forall|i: int| 0 <= i < after.components@.len() implies terminals_in_range(
        #[trigger] after.components@[i].base(),
        after.nodes@.len(),
    ) by {
        if i != slot {
            assert(terminals_in_range(before.components@[i].base(), before.nodes@.len()));
        }
    }
    assert forall|i: int, j: int| 0 <= i < j < after.components@.len() implies after.components@[i].base().name@
        != after.components@[j].base().name@ by {
        if i != slot && j != slot {
        } else if i == slot {
            if replaced.is_none() {
                assert(before.components@[j].base().name@ != name@);
            } else {
                assert(before.components@[j].base().name@ != before.components@[slot].base().name@);
            }
        } else {
            if replaced.is_none() {
                assert(before.components@[i].base().name@ != name@);
            } else {
                assert(before.components@[i].base().name@ != before.components@[slot].base().name@);
            }
        }
    }
    // every back-reference names something that touches its node
    assert forall|k: int, j: int|
        0 <= k < after.nodes@.len() && 0 <= j < after.nodes@[k].connected@.len() implies after.is_current(
        #[trigger] after.nodes@[k].connected@[j],
        k,
    ) by {
        let item = after.nodes@[k].connected@[j];
        if k >= n {
            assert(item == ConnectionItem::Component(name));
            assert(after.components@[slot].base().name@ == name@);
        } else {
            let old_list = before.nodes@[k].connected@;
            if replaced.is_some() && touches(before.components@[slot], k) {
                assert(dropped(before.nodes@[k], after.nodes@[k], name@));
                old_list.lemma_filter_pred(other_than(name@), j);
                assert(old_list.filter(other_than(name@)).contains(item));
                old_list.lemma_filter_contains_rev(other_than(name@), item);
            } else {
                assert(old_list[j] == item);
            }
            let j0 = choose|j0: int| 0 <= j0 < old_list.len() && old_list[j0] == item;
            assert(before.is_current(before.nodes@[k].connected@[j0], k));
            if let ConnectionItem::Component(nm) = item {
                let i = choose|i: int|
                    0 <= i < before.components@.len() && #[trigger] before.components@[i].base().name@
                        == nm@ && touches(before.components@[i], k);
                assert(i != slot || replaced.is_none());
                assert(after.components@[i] == before.components@[i]);
            }
        }
    }
    // every wire is listed on both of its endpoints
    assert forall|w: int| 0 <= w < after.wires@.len() implies after.nodes@[(
    #[trigger] after.wires@[w]).node1 as int].connected@.contains(ConnectionItem::Wire(w as usize))
        && after.nodes@[after.wires@[w].node2 as int].connected@.contains(
        ConnectionItem::Wire(w as usize),
    ) by {
        let item = ConnectionItem::Wire(w as usize);
        assert(wire_in_range(before.wires@[w], before.nodes@.len()));
        let e1 = before.wires@[w].node1 as int;
        let e2 = before.wires@[w].node2 as int;
        lemma_keeps_wire_ref(before, after, replaced, slot, name@, e1, item);
        lemma_keeps_wire_ref(before, after, replaced, slot, name@, e2, item);
    }
    // every element is listed on both of its terminals
    assert forall|i: int| 0 <= i < after.components@.len() implies after.lists_component(
        (#[trigger] after.components@[i].base()).node1.unwrap() as int,
        after.components@[i].base().name@,
    ) && after.lists_component(
        after.components@[i].base().node2.unwrap() as int,
        after.components@[i].base().name@,
    ) by {
        if i == slot {
            assert(refers_to_component(after.nodes@[n].connected@[0], name@));
            assert(refers_to_component(after.nodes@[n + 1].connected@[0], name@));
        } else {
            let b = before.components@[i].base();
            assert(terminals_in_range(b, before.nodes@.len()));
            if replaced.is_some() {
                assert(b.name@ != before.components@[slot].base().name@);
            } else {
                assert(b.name@ != name@);
            }
            lemma_keeps_component_ref(before, after, replaced, slot, name@, b.node1.unwrap() as int, b.name@);
            lemma_keeps_component_ref(before, after, replaced, slot, name@, b.node2.unwrap() as int, b.name@);
        }
    }
}

proof fn lemma_keeps_wire_ref(
    before: Circuit,
    after: Circuit,
    replaced: Option<int>,
    slot: int,
    name: Seq<char>,
    k: int,
    item: ConnectionItem,
)
    requires
        0 <= k < before.nodes@.len(),
        k < after.nodes@.len(),
        item is Wire,
        before.nodes@[k].connected@.contains(item),
        replaced.is_some() && touches(before.components@[slot], k) ==> dropped(
            before.nodes@[k],
            after.nodes@[k],
            name,
        ),
        !(replaced.is_some() && touches(before.components@[slot], k)) ==> after.nodes@[k]
            == before.nodes@[k],
    ensures
        after.nodes@[k].connected@.contains(item),
{
    if replaced.is_some() && touches(before.components@[slot], k) {
        let list = before.nodes@[k].connected@;
        let j = choose|j: int| 0 <= j < list.len() && list[j] == item;
        list.lemma_filter_contains(other_than(name), j);
    }
}

proof fn lemma_keeps_component_ref(
    before: Circuit,
    after: Circuit,
    replaced: Option<int>,
    slot: int,
    name: Seq<char>,
    k: int,
    other: Seq<char>,
)
    requires
        0 <= k < before.nodes@.len(),
        k < after.nodes@.len(),
        other != name,
        before.lists_component(k, other),
        replaced.is_some() && touches(before.components@[slot], k) ==> dropped(
            before.nodes@[k],
            after.nodes@[k],
            name,
        ),
        !(replaced.is_some() && touches(before.components@[slot], k)) ==> after.nodes@[k]
            == before.nodes@[k],
    ensures
        after.lists_component(k, other),
{
    let list = before.nodes@[k].connected@;
    let j = choose|j: int| 0 <= j < list.len() && refers_to_component(#[trigger] list[j], other);
    if replaced.is_some() && touches(before.components@[slot], k) {
        list.lemma_filter_contains(other_than(name), j);
        let kept = list.filter(other_than(name));
        let j2 = choose|j2: int| 0 <= j2 < kept.len() && kept[j2] == list[j];
        assert(refers_to_component(after.nodes@[k].connected@[j2], other));
    } else {
        assert(refers_to_component(after.nodes@[k].connected@[j], other));
    }
}

impl Circuit {
    /// The structural invariant: dense ids, every reference names an existing
    /// node, no wire joins a node to itself, names are unique.
    pub open spec fn wf(&self) -> bool {
        &&& forall|i: int| 0 <= i < self.nodes@.len() ==> self.nodes@[i].id == i
        &&& forall|i: int|
            0 <= i < self.wires@.len() ==> self.wires@[i].id == i && wire_in_range(
                #[trigger] self.wires@[i],
                self.nodes@.len(),
            )
        &&& forall|i: int|
            0 <= i < self.components@.len() ==> terminals_in_range(
                #[trigger] self.components@[i].base(),
                self.nodes@.len(),
            )
        &&& forall|i: int, j: int|
            0 <= i < j < self.components@.len() ==> self.components@[i].base().name@
                != self.components@[j].base().name@
        &&& self.back_refs_exact()
    }

    /// The back-reference `item`, kept on node `k`, names a wire or a
    /// component of the circuit that touches `k`.
    pub open spec fn is_current(&self, item: ConnectionItem, k: int) -> bool {
        match item {
            ConnectionItem::Wire(w) => w < self.wires@.len() && (self.wires@[w as int].node1 == k
                || self.wires@[w as int].node2 == k),
            ConnectionItem::Component(name) => exists|i: int|
                0 <= i < self.components@.len() && #[trigger] self.components@[i].base().name@
                    == name@ && touches(self.components@[i], k),
        }
    }

    /// Node `k` holds a back-reference to the component called `name`.
    pub open spec fn lists_component(&self, k: int, name: Seq<char>) -> bool {
        exists|j: int|
            0 <= j < self.nodes@[k].connected@.len() && refers_to_component(
                #[trigger] self.nodes@[k].connected@[j],
                name,
            )
    }

    /// The back-references of every node name exactly the wires and the
    /// components that touch it: none stale, none missing.
    pub open spec fn back_refs_exact(&self) -> bool {
        &&& forall|k: int, j: int|
            0 <= k < self.nodes@.len() && 0 <= j < self.nodes@[k].connected@.len()
                ==> self.is_current(#[trigger] self.nodes@[k].connected@[j], k)
        &&& forall|w: int|
            0 <= w < self.wires@.len() ==> self.nodes@[(#[trigger] self.wires@[w]).node1 as int].connected@.contains(
                ConnectionItem::Wire(w as usize),
            ) && self.nodes@[self.wires@[w].node2 as int].connected@.contains(
                ConnectionItem::Wire(w as usize),
            )
        &&& forall|i: int|
            0 <= i < self.components@.len() ==> self.lists_component(
                (#[trigger] self.components@[i].base()).node1.unwrap() as int,
                self.components@[i].base().name@,
            ) && self.lists_component(
                self.components@[i].base().node2.unwrap() as int,
                self.components@[i].base().name@,
            )
    }

    /// Every node id that a wire or an assigned terminal holds is the id of a
    /// node of the circuit.
    pub open spec fn references_in_range(&self) -> bool {
        &&& forall|i: int|
            0 <= i < self.wires@.len() ==> #[trigger] self.wires@[i].node1 < self.nodes@.len()
                && self.wires@[i].node2 < self.nodes@.len()
        &&& forall|i: int|
            0 <= i < self.components@.len() ==> ((#[trigger] self.components@[i].base()).node1.is_some()
                ==> self.components@[i].base().node1.unwrap() < self.nodes@.len()) && (
            self.components@[i].base().node2.is_some() ==> self.components@[i].base().node2.unwrap()
                < self.nodes@.len())
    }

    /// Some wire or component of the circuit touches node `n`.
    pub open spec fn references(&self, n: int) -> bool {
        ||| exists|i: int|
            0 <= i < self.wires@.len() && (#[trigger] self.wires@[i].node1 == n
                || self.wires@[i].node2 == n)
        ||| exists|i: int|
            0 <= i < self.components@.len() && (#[trigger] self.components@[i].base().node1
                == Some(n as usize) || self.components@[i].base().node2 == Some(n as usize))
    }

    pub fn new() -> (r: Circuit)
        ensures
            r.wf(),
            r.nodes@.len() == 0,
            r.wires@.len() == 0,
            r.components@.len() == 0,
    {
        Circuit { nodes: Vec::new(), wires: Vec::new(), components: Vec::new() }
    }

    fn new_node(&mut self) -> (r: usize)
        ensures
            r == old(self).nodes@.len(),
            final(self).nodes@.len() == old(self).nodes@.len() + 1,
            final(self).nodes@.drop_last() == old(self).nodes@,
            final(self).nodes@[r as int].id == r,
            final(self).nodes@[r as int].voltage.is_none(),
            final(self).nodes@[r as int].connected@.len() == 0,
            final(self).wires == old(self).wires,
            final(self).components == old(self).components,
    {
        let node_id = self.nodes.len();
        let node = Node::new(node_id);
        self.nodes.push(node);
        proof {
            assert(self.nodes@.drop_last() =~= old(self).nodes@);
        }
        node_id
    }

    /// Position of the first component called `name`.
    fn position_of(&self, name: &String) -> (r: Option<usize>)
        ensures
            match r {
                Some(i) => first_named(self.components@, name@, i as int),
                None => !has_named(self.components@, name@),
            },
    {
        let mut i: usize = 0;
        while i < self.components.len()
            invariant
                0 <= i <= self.components@.len(),
                forall|j: int| 0 <= j < i ==> self.components@[j].base().name@ != name@,
            decreases self.components@.len() - i,
        {
            if self.components[i].component().name == *name {
                return Some(i);
            }
            i = i + 1;
        }
        None
    }

    pub fn get_component(&self, name: &str) -> (r: Option<&Component>)
        ensures
            match r {
                Some(c) => exists|i: int|
                    first_named(self.components@, name@, i) && *c == self.components@[i],
                None => !has_named(self.components@, name@),
            },
    {
        let key = name.to_owned();
        match self.position_of(&key) {
            Some(i) => Some(&self.components[i]),
            None => None,
        }
    }

    pub fn get_component_mut(&mut self, name: &str) -> (r: Option<&mut Component>)
        ensures
            r.is_some() ==> exists|i: int|
                first_named(old(self).components@, name@, i) && *r.unwrap()
                    == old(self).components@[i] && final(self).components@ == old(
                    self,
                ).components@.update(i, *final(r.unwrap())),
            r.is_some() ==> final(self).nodes == old(self).nodes && final(self).wires == old(
                self,
            ).wires,
            r.is_none() ==> !has_named(old(self).components@, name@) && *final(self) == *old(
                self,
            ),
    {
        let key = name.to_owned();
        match self.position_of(&key) {
            Some(i) => Some(&mut self.components[i]),
            None => None,
        }
    }

    pub fn get_node(&self, id: usize) -> (r: Option<&Node>)
        ensures
            match r {
                Some(n) => id < self.nodes@.len() && *n == self.nodes@[id as int],
                None => id >= self.nodes@.len(),
            },
    {
        if id < self.nodes.len() {
            Some(&self.nodes[id])
        } else {
            None
        }
    }

    pub fn get_node_mut(&mut self, id: usize) -> (r: Option<&mut Node>)
        ensures
            r.is_some() ==> id < old(self).nodes@.len() && *r.unwrap() == old(self).nodes@[id as int]
                && final(self).nodes@ == old(self).nodes@.update(id as int, *final(r.unwrap()))
                && final(self).wires == old(self).wires && final(self).components == old(
                self,
            ).components,
            r.is_none() ==> id >= old(self).nodes@.len() && *final(self) == *old(self),
    {
        if id < self.nodes.len() {
            Some(&mut self.nodes[id])
        } else {
            None
        }
    }
    /// Joins two existing, distinct nodes with a new wire, stores it, and
    /// records it on both endpoints.
    pub fn connect(&mut self, node1: usize, node2: usize) -> (r: Result<Wire, ConnectionError>)
        ensures
            old(self).wf() ==> final(self).wf(),
            old(self).references_in_range() ==> final(self).references_in_range(),
            node1 >= old(self).nodes@.len() || node2 >= old(self).nodes@.len() ==> r == Err::<
                Wire,
                ConnectionError,
            >(ConnectionError::InvalidNode) && *final(self) == *old(self),
            node1 < old(self).nodes@.len() && node2 < old(self).nodes@.len() && node1 == node2
                ==> r == Err::<Wire, ConnectionError>(ConnectionError::SelfConnection)
                && *final(self) == *old(self),
            node1 < old(self).nodes@.len() && node2 < old(self).nodes@.len() && node1 != node2
                ==> {
                let w = Wire { node1, node2, id: old(self).wires@.len() as usize };
                let item = ConnectionItem::Wire(w.id);
                &&& r == Ok::<Wire, ConnectionError>(w)
                &&& final(self).wires@ == old(self).wires@.push(w)
                &&& final(self).components == old(self).components
                &&& final(self).nodes@.len() == old(self).nodes@.len()
                &&& gained(old(self).nodes@[node1 as int], final(self).nodes@[node1 as int], item)
                &&& gained(old(self).nodes@[node2 as int], final(self).nodes@[node2 as int], item)
                &&& forall|k: int|
                    0 <= k < old(self).nodes@.len() && k != node1 && k != node2
                        ==> final(self).nodes@[k] == old(self).nodes@[k]
            },
    {
        if node1 >= self.nodes.len() || node2 >= self.nodes.len() {
            return Err(ConnectionError::InvalidNode);
        }
        if node1 == node2 {
            return Err(ConnectionError::SelfConnection);
        }
        let wire_id = self.wires.len();
        let wire = Wire::new(wire_id, node1, node2);
        self.wires.push(wire);
        self.nodes[node1].add_connection(ConnectionItem::Wire(wire_id));
        self.nodes[node2].add_connection(ConnectionItem::Wire(wire_id));
        proof {
            let before = *old(self);
            let id = wire_id as int;
            assert forall|i: int| 0 <= i < id implies #[trigger] self.wires@[i] == before.wires@[i] by {}
            assert(self.wires@[id] == wire);
            if before.wf() {
                assert forall|i: int| 0 <= i < self.wires@.len() implies self.wires@[i].id == i
                    && wire_in_range(#[trigger] self.wires@[i], self.nodes@.len()) by {
                    if i < id {
                        assert(self.wires@[i] == before.wires@[i]);
                    }
                }
                assert forall|k: int| 0 <= k < self.nodes@.len() implies #[trigger] extends(
                    before.nodes@[k].connected@,
                    self.nodes@[k].connected@,
                ) by {
                    if k == node1 || k == node2 {
                        assert(self.nodes@[k].connected@.drop_last() =~= before.nodes@[k].connected@);
                    }
                }
                assert forall|k: int, j: int|
                    0 <= k < self.nodes@.len() && 0 <= j < self.nodes@[k].connected@.len() implies self.is_current(
                    #[trigger] self.nodes@[k].connected@[j],
                    k,
                ) by {
                    assert(extends(before.nodes@[k].connected@, self.nodes@[k].connected@));
                    if j < before.nodes@[k].connected@.len() {
                        let item = before.nodes@[k].connected@[j];
                        assert(before.is_current(item, k));
                        if let ConnectionItem::Wire(w) = item {
                            assert(self.wires@[w as int] == before.wires@[w as int]);
                        }
                    } else {
                        assert(self.nodes@[k].connected@[j] == ConnectionItem::Wire(wire_id));
                        assert(self.wires@[id] == wire);
                    }
                }
                assert forall|w: int| 0 <= w < self.wires@.len() implies self.nodes@[(
                #[trigger] self.wires@[w]).node1 as int].connected@.contains(ConnectionItem::Wire(w as usize))
                    && self.nodes@[self.wires@[w].node2 as int].connected@.contains(
                    ConnectionItem::Wire(w as usize),
                ) by {
                    let e1 = self.wires@[w].node1 as int;
                    let e2 = self.wires@[w].node2 as int;
                    assert(extends(before.nodes@[e1].connected@, self.nodes@[e1].connected@));
                    assert(extends(before.nodes@[e2].connected@, self.nodes@[e2].connected@));
                    if w < id {
                        assert(self.wires@[w] == before.wires@[w]);
                        lemma_extends_contains(
                            before.nodes@[e1].connected@,
                            self.nodes@[e1].connected@,
                            ConnectionItem::Wire(w as usize),
                        );
                        lemma_extends_contains(
                            before.nodes@[e2].connected@,
                            self.nodes@[e2].connected@,
                            ConnectionItem::Wire(w as usize),
                        );
                    } else {
                        assert(self.nodes@[e1].connected@.last() == ConnectionItem::Wire(wire_id));
                        assert(self.nodes@[e2].connected@.last() == ConnectionItem::Wire(wire_id));
                    }
                }
                assert forall|i: int| 0 <= i < self.components@.len() implies self.lists_component(
                    (#[trigger] self.components@[i].base()).node1.unwrap() as int,
                    self.components@[i].base().name@,
                ) && self.lists_component(
                    self.components@[i].base().node2.unwrap() as int,
                    self.components@[i].base().name@,
                ) by {
                    let b = self.components@[i].base();
                    lemma_extends_lists(before, *self, b.node1.unwrap() as int, b.name@);
                    lemma_extends_lists(before, *self, b.node2.unwrap() as int, b.name@);
                }
            }
        }
        Ok(wire)
    }

    /// Mints two nodes for `component`, sets them as its terminals, stores it
    /// under its name, and records it on both new nodes. An element already
    /// stored under that name is replaced, and the back-references to it are
    /// dropped from its two nodes, which no element touches any more.
    pub fn add_component(&mut self, component: Component)
        ensures
            old(self).wf() ==> final(self).wf(),
            ({
                let n = old(self).nodes@.len() as int;
                let name = component.base().name;
                let stored = attached(component, n as usize, (n + 1) as usize);
                &&& old(self).references_in_range() ==> {
                    &&& final(self).references_in_range()
                    &&& !old(self).references(n)
                    &&& !old(self).references(n + 1)
                }
                &&& final(self).nodes@.len() == n + 2
                &&& minted_for(final(self).nodes@[n], n, name)
                &&& minted_for(final(self).nodes@[n + 1], n + 1, name)
                &&& final(self).wires == old(self).wires
                &&& !has_named(old(self).components@, name@) ==> {
                    &&& final(self).components@ == old(self).components@.push(stored)
                    &&& final(self).nodes@.subrange(0, n) == old(self).nodes@
                }
                &&& has_named(old(self).components@, name@) ==> exists|i: int|
                    {
                        &&& first_named(old(self).components@, name@, i)
                        &&& final(self).components@ == old(self).components@.update(i, stored)
                        &&& forall|k: int|
                            0 <= k < n ==> if touches(old(self).components@[i], k) {
                                dropped(old(self).nodes@[k], #[trigger] final(self).nodes@[k], name@)
                            } else {
                                final(self).nodes@[k] == old(self).nodes@[k]
                            }
                    }
            }),
    {
        let ghost before = *self;
        let ghost orig = component;
        let node1 = self.new_node();
        let node2 = self.new_node();
        proof {
            assert forall|k: int| 0 <= k < before.nodes@.len() implies self.nodes@[k] == before.nodes@[k] by {
                assert(self.nodes@.drop_last().drop_last()[k] == before.nodes@[k]);
            }
        }
        let mut component = component;
        let base = component.component_mut();
        base.node1 = Some(node1);
        base.node2 = Some(node2);
        let name = component.component().name.clone();
        let ghost stored = component;
        let ghost replaced: Option<int> = None;
        match self.position_of(&name) {
            Some(i) => {
                proof {
                    replaced = Some(i as int);
                }
                let prior1 = self.components[i].component().node1;
                let prior2 = self.components[i].component().node2;
                self.components.set(i, component);
                let ghost minted = self.nodes@;
                if let Some(a) = prior1 {
                    if a < node1 {
                        self.nodes[a].remove_component_refs(&name);
                    }
                }
                if let Some(b) = prior2 {
                    let repeated = match prior1 {
                        Some(a) => a == b,
                        None => false,
                    };
                    if b < node1 && !repeated {
                        self.nodes[b].remove_component_refs(&name);
                    }
                }
                proof {
                    let n = before.nodes@.len() as int;
                    assert forall|k: int| 0 <= k < n implies if touches(before.components@[i as int], k) {
                        dropped(before.nodes@[k], #[trigger] self.nodes@[k], name@)
                    } else {
                        self.nodes@[k] == before.nodes@[k]
                    } by {
                        assert(minted[k] == before.nodes@[k]);
                    }
                }
            },
            None => {
                self.components.push(component);
            },
        }
        let ghost trimmed = self.nodes@;
        self.nodes[node1].add_connection(ConnectionItem::Component(name.clone()));
        self.nodes[node2].add_connection(ConnectionItem::Component(name));
        proof {
            let n = before.nodes@.len() as int;
            assert(stored == attached(orig, node1, node2));
            assert forall|k: int| 0 <= k < n implies #[trigger] self.nodes@[k] == trimmed[k] by {}
            if replaced.is_none() {
                assert(self.nodes@.subrange(0, n) =~= before.nodes@);
            }
            assert(self.nodes@[n].connected@ =~= seq![ConnectionItem::Component(orig.base().name)]);
            assert(self.nodes@[n + 1].connected@ =~= seq![ConnectionItem::Component(orig.base().name)]);
            if before.references_in_range() {
                assert(!before.references(n));
                assert(!before.references(n + 1));
                let slot = match replaced {
                    Some(p) => p,
                    None => before.components@.len() as int,
                };
                assert forall|i: int| 0 <= i < self.components@.len() && i != slot implies
                    #[trigger] self.components@[i] == before.components@[i] by {}
                assert(self.components@[slot] == stored);
            }
            if before.wf() {
                lemma_attach_preserves(before, *self, orig, replaced);
            }
        }
    }
}

} // verus!
