use vstd::prelude::*;

use crate::quantity::Quantity;

verus! {

/// Orientation of a source: which terminal is positive (or where current enters).
#[derive(Clone, Copy, Debug, PartialEq, Eq, Structural)]
pub enum Polarity {
    Normal,
    Inverted,
}

/// The record that every two-terminal element carries.
///
/// The terminals are absent until a circuit attaches the element; the solved
/// current and voltage are absent until a solver fills them in.
pub struct BaseComponent {
    pub node1: Option<usize>,
    pub node2: Option<usize>,
    pub name: String,
    pub current: Option<Quantity>,
    pub voltage: Option<Quantity>,
}

impl BaseComponent {
    /// True of a record straight out of a constructor.
    pub open spec fn is_fresh(&self, name: Seq<char>) -> bool {
        &&& self.node1.is_none()
        &&& self.node2.is_none()
        &&& self.name@ == name
        &&& self.current.is_none()
        &&& self.voltage.is_none()
    }

    fn unattached(name: &str) -> (r: BaseComponent)
        ensures
            r.is_fresh(name@),
    {
        BaseComponent { node1: None, node2: None, name: name.to_owned(), current: None, voltage: None }
    }
}

/// The terminal that `polarity` selects: `first` when normal, `second` when inverted.
pub open spec fn oriented(polarity: Polarity, first: Option<usize>, second: Option<usize>) -> Option<usize> {
    match polarity {
        Polarity::Normal => first,
        Polarity::Inverted => second,
    }
}

pub struct Resistor {
    pub component: BaseComponent,
    pub resistance: Quantity,
}

impl Resistor {
    pub fn new(name: &str, resistance: Quantity) -> (r: Resistor)
        ensures
            r.component.is_fresh(name@),
            r.resistance == resistance,
    {
        Resistor { component: BaseComponent::unattached(name), resistance }
    }
}

pub struct Capacitor {
    pub component: BaseComponent,
    pub capacitance: Quantity,
}

impl Capacitor {
    pub fn new(name: &str, capacitance: Quantity) -> (r: Capacitor)
        ensures
            r.component.is_fresh(name@),
            r.capacitance == capacitance,
    {
        Capacitor { component: BaseComponent::unattached(name), capacitance }
    }
}

pub struct Inductor {
    pub component: BaseComponent,
    pub inductance: Quantity,
}

impl Inductor {
    pub fn new(name: &str, inductance: Quantity) -> (r: Inductor)
        ensures
            r.component.is_fresh(name@),
            r.inductance == inductance,
    {
        Inductor { component: BaseComponent::unattached(name), inductance }
    }
}

/// An ideal voltage source; with normal polarity node1 is the positive terminal.
pub struct VoltageSource {
    pub component: BaseComponent,
    pub voltage: Quantity,
    pub polarity: Polarity,
}

impl VoltageSource {
    pub fn new(name: &str, voltage: Quantity, polarity: Polarity) -> (r: VoltageSource)
        ensures
            r.component.is_fresh(name@),
            r.voltage == voltage,
            r.polarity == polarity,
    {
        VoltageSource { component: BaseComponent::unattached(name), voltage, polarity }
    }

    pub open spec fn spec_positive_node(&self) -> Option<usize> {
        oriented(self.polarity, self.component.node1, self.component.node2)
    }

    pub open spec fn spec_negative_node(&self) -> Option<usize> {
        oriented(self.polarity, self.component.node2, self.component.node1)
    }

    pub fn positive_node(&self) -> (r: Option<usize>)
        ensures
            r == self.spec_positive_node(),
    {
        match self.polarity {
            Polarity::Normal => self.component.node1,
            Polarity::Inverted => self.component.node2,
        }
    }

    pub fn negative_node(&self) -> (r: Option<usize>)
        ensures
            r == self.spec_negative_node(),
    {
        match self.polarity {
            Polarity::Normal => self.component.node2,
            Polarity::Inverted => self.component.node1,
        }
    }
}

/// An ideal current source; with normal polarity node1 is the input terminal
/// and node2 the output terminal.
pub struct CurrentSource {
    pub component: BaseComponent,
    pub current: Quantity,
    pub polarity: Polarity,
}

impl CurrentSource {
    pub fn new(name: &str, current: Quantity, polarity: Polarity) -> (r: CurrentSource)
        ensures
            r.component.is_fresh(name@),
            r.current == current,
            r.polarity == polarity,
    {
        CurrentSource { component: BaseComponent::unattached(name), current, polarity }
    }

    pub open spec fn spec_input_node(&self) -> Option<usize> {
        oriented(self.polarity, self.component.node1, self.component.node2)
    }

    pub open spec fn spec_output_node(&self) -> Option<usize> {
        oriented(self.polarity, self.component.node2, self.component.node1)
    }

    pub fn input_node(&self) -> (r: Option<usize>)
        ensures
            r == self.spec_input_node(),
    {
        match self.polarity {
            Polarity::Normal => self.component.node1,
            Polarity::Inverted => self.component.node2,
        }
    }

    pub fn output_node(&self) -> (r: Option<usize>)
        ensures
            r == self.spec_output_node(),
    {
        match self.polarity {
            Polarity::Normal => self.component.node2,
            Polarity::Inverted => self.component.node1,
        }
    }
}

/// Every kind of element a circuit can hold.
pub enum Component {
    Resistor(Resistor),
    Capacitor(Capacitor),
    Inductor(Inductor),
    VoltageSource(VoltageSource),
    CurrentSource(CurrentSource),
}

impl Component {
    /// The shared record of the element, whatever its kind.
    pub open spec fn base(&self) -> BaseComponent {
        match self {
            Component::Resistor(c) => c.component,
            Component::Capacitor(c) => c.component,
            Component::Inductor(c) => c.component,
            Component::VoltageSource(c) => c.component,
            Component::CurrentSource(c) => c.component,
        }
    }

    /// The same element with its shared record replaced by `b`.
    pub open spec fn with_base(&self, b: BaseComponent) -> Component {
        match self {
            Component::Resistor(c) => Component::Resistor(Resistor { component: b, ..*c }),
            Component::Capacitor(c) => Component::Capacitor(Capacitor { component: b, ..*c }),
            Component::Inductor(c) => Component::Inductor(Inductor { component: b, ..*c }),
            Component::VoltageSource(c) => Component::VoltageSource(
                VoltageSource { component: b, ..*c },
            ),
            Component::CurrentSource(c) => Component::CurrentSource(
                CurrentSource { component: b, ..*c },
            ),
        }
    }

    pub fn component(&self) -> (r: &BaseComponent)
        ensures
            *r == self.base(),
    {
        match self {
            Component::Resistor(c) => &c.component,
            Component::Capacitor(c) => &c.component,
            Component::Inductor(c) => &c.component,
            Component::VoltageSource(c) => &c.component,
            Component::CurrentSource(c) => &c.component,
        }
    }

    pub fn component_mut(&mut self) -> (r: &mut BaseComponent)
        ensures
            *r == old(self).base(),
            *final(self) == old(self).with_base(*final(r)),
    {
        match self {
            Component::Resistor(c) => &mut c.component,
            Component::Capacitor(c) => &mut c.component,
            Component::Inductor(c) => &mut c.component,
            Component::VoltageSource(c) => &mut c.component,
            Component::CurrentSource(c) => &mut c.component,
        }
    }
}

} // verus!
