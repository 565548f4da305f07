use circuits::circuit::{Circuit, ConnectionError};
use circuits::component::{
    Capacitor, Component, CurrentSource, Inductor, Polarity, Resistor, VoltageSource,
};
use circuits::node::{ConnectionItem, Node};
use circuits::quantity::Quantity;
use circuits::wire::Wire;

fn resistor(name: &str, ohms: i64) -> Component {
    Component::Resistor(Resistor::new(name, Quantity::new(ohms, 0)))
}

fn source(name: &str, volts: i64, polarity: Polarity) -> Component {
    Component::VoltageSource(VoltageSource::new(name, Quantity::new(volts, 0), polarity))
}

fn terminals(circuit: &Circuit, name: &str) -> (Option<usize>, Option<usize>) {
    let base = circuit.get_component(name).unwrap().component();
    (base.node1, base.node2)
}

#[test]
fn new_circuit_is_empty() {
    let circuit = Circuit::new();
    assert_eq!(circuit.nodes.len(), 0);
    assert_eq!(circuit.wires.len(), 0);
    assert_eq!(circuit.components.len(), 0);
    assert!(circuit.get_node(0).is_none());
    assert!(circuit.get_component("R1").is_none());
}

#[test]
fn resistor_source_and_wire_scenario() {
    let mut circuit = Circuit::new();
    circuit.add_component(resistor("R1", 100));
    assert_eq!(circuit.nodes.len(), 2);
    assert_eq!(circuit.components.len(), 1);
    assert_eq!(terminals(&circuit, "R1"), (Some(0), Some(1)));

    circuit.add_component(source("V1", 5, Polarity::Normal));
    assert_eq!(circuit.nodes.len(), 4);
    assert_eq!(terminals(&circuit, "V1"), (Some(2), Some(3)));

    let wire = circuit.connect(3, 0).unwrap();
    assert_eq!(wire, Wire::new(0, 3, 0));
    assert_eq!(wire.id, 0);
    assert_eq!(circuit.wires.len(), 1);
    let n3 = circuit.get_node(3).unwrap();
    let n0 = circuit.get_node(0).unwrap();
    assert_eq!(n3.connected.len(), 2);
    assert_eq!(n0.connected.len(), 2);
    assert_eq!(n3.connected[1], ConnectionItem::Wire(0));
    assert_eq!(n0.connected[1], ConnectionItem::Wire(0));
}

#[test]
fn self_connection_is_refused_without_change() {
    let mut circuit = Circuit::new();
    circuit.add_component(resistor("R1", 100));
    let err = circuit.connect(0, 0).unwrap_err();
    assert_eq!(err, ConnectionError::SelfConnection);
    assert_eq!(err.message(), "Cannot connect a node to itself");
    assert_eq!(circuit.nodes.len(), 2);
    assert_eq!(circuit.wires.len(), 0);
    assert_eq!(circuit.get_node(0).unwrap().connected.len(), 1);
    assert_eq!(circuit.get_node(1).unwrap().connected.len(), 1);
}

#[test]
fn every_node_refuses_itself() {
    let mut circuit = Circuit::new();
    circuit.add_component(resistor("R1", 1));
    circuit.add_component(resistor("R2", 2));
    for a in 0..4 {
        assert_eq!(circuit.connect(a, a), Err(ConnectionError::SelfConnection));
    }
    assert_eq!(circuit.wires.len(), 0);
}

#[test]
fn out_of_range_node_is_refused() {
    let mut circuit = Circuit::new();
    circuit.add_component(resistor("R1", 100));
    circuit.add_component(source("V1", 5, Polarity::Normal));
    let err = circuit.connect(5, 0).unwrap_err();
    assert_eq!(err, ConnectionError::InvalidNode);
    assert_eq!(err.message(), "Node does not exist");
    assert_eq!(circuit.connect(0, 4), Err(ConnectionError::InvalidNode));
    assert_eq!(circuit.wires.len(), 0);
    for id in 0..4 {
        assert_eq!(circuit.get_node(id).unwrap().connected.len(), 1);
    }
}

#[test]
fn invalid_node_is_checked_before_self_connection() {
    let mut circuit = Circuit::new();
    assert_eq!(circuit.connect(0, 0), Err(ConnectionError::InvalidNode));
    circuit.add_component(resistor("R1", 100));
    assert_eq!(circuit.connect(7, 7), Err(ConnectionError::InvalidNode));
}

#[test]
fn wire_ids_follow_the_wire_count() {
    let mut circuit = Circuit::new();
    circuit.add_component(resistor("R1", 1));
    circuit.add_component(resistor("R2", 2));
    assert_eq!(circuit.connect(1, 2).unwrap().id, 0);
    assert_eq!(circuit.connect(3, 0).unwrap().id, 1);
    assert_eq!(circuit.connect(0, 3).unwrap().id, 2);
    assert_eq!(circuit.wires.len(), 3);
    assert_eq!(circuit.wires[2], Wire::new(2, 0, 3));
    let n0 = circuit.get_node(0).unwrap();
    assert_eq!(
        n0.connected,
        vec![
            ConnectionItem::Component("R1".to_string()),
            ConnectionItem::Wire(1),
            ConnectionItem::Wire(2)
        ]
    );
}

#[test]
fn added_component_gets_fresh_distinct_terminals() {
    let mut circuit = Circuit::new();
    circuit.add_component(resistor("R1", 1));
    circuit.connect(0, 1).unwrap();
    circuit.add_component(Component::Capacitor(Capacitor::new("C1", Quantity::new(1, -6))));
    circuit.add_component(Component::Inductor(Inductor::new("L1", Quantity::new(10, -3))));
    assert_eq!(terminals(&circuit, "C1"), (Some(2), Some(3)));
    assert_eq!(terminals(&circuit, "L1"), (Some(4), Some(5)));
    let node = circuit.get_node(4).unwrap();
    assert_eq!(node.id, 4);
    assert!(node.voltage.is_none());
    assert_eq!(node.connected, vec![ConnectionItem::Component("L1".to_string())]);
}

#[test]
fn every_reference_is_an_existing_node() {
    let mut circuit = Circuit::new();
    circuit.add_component(resistor("R1", 1));
    circuit.add_component(source("V1", 9, Polarity::Inverted));
    circuit.connect(0, 2).unwrap();
    circuit.connect(1, 3).unwrap();
    let n = circuit.nodes.len();
    for w in circuit.wires.iter() {
        assert!(w.node1 < n && w.node2 < n && w.node1 != w.node2);
    }
    for c in circuit.components.iter() {
        assert!(c.component().node1.unwrap() < n);
        assert!(c.component().node2.unwrap() < n);
    }
}

#[test]
fn same_name_replaces_earlier_component() {
    let mut circuit = Circuit::new();
    circuit.add_component(resistor("R1", 100));
    circuit.add_component(resistor("R1", 220));
    assert_eq!(circuit.nodes.len(), 4);
    assert_eq!(circuit.components.len(), 1);
    assert_eq!(terminals(&circuit, "R1"), (Some(2), Some(3)));
    match circuit.get_component("R1").unwrap() {
        Component::Resistor(r) => assert_eq!(r.resistance, Quantity::new(220, 0)),
        _ => panic!("expected a resistor"),
    }
    assert!(circuit.get_node(0).unwrap().connected.is_empty());
    assert!(circuit.get_node(1).unwrap().connected.is_empty());
    assert_eq!(
        circuit.get_node(2).unwrap().connected,
        vec![ConnectionItem::Component("R1".to_string())]
    );
}

#[test]
fn replacing_keeps_wire_references_on_orphaned_nodes() {
    let mut circuit = Circuit::new();
    circuit.add_component(resistor("R1", 100));
    circuit.add_component(resistor("R2", 47));
    circuit.connect(1, 2).unwrap();
    circuit.add_component(source("R1", 12, Polarity::Normal));
    assert_eq!(circuit.components.len(), 2);
    assert!(circuit.get_node(0).unwrap().connected.is_empty());
    assert_eq!(circuit.get_node(1).unwrap().connected, vec![ConnectionItem::Wire(0)]);
    assert_eq!(
        circuit.get_node(2).unwrap().connected,
        vec![ConnectionItem::Component("R2".to_string()), ConnectionItem::Wire(0)]
    );
    assert_eq!(terminals(&circuit, "R1"), (Some(4), Some(5)));
    assert_eq!(terminals(&circuit, "R2"), (Some(2), Some(3)));
}

#[test]
fn constructors_leave_terminals_unassigned() {
    let r = Resistor::new("R1", Quantity::new(100, 0));
    assert_eq!(r.component.name, "R1");
    assert!(r.component.node1.is_none() && r.component.node2.is_none());
    assert!(r.component.current.is_none() && r.component.voltage.is_none());
    let v = VoltageSource::new("V1", Quantity::new(5, 0), Polarity::Normal);
    assert_eq!(v.positive_node(), None);
    assert_eq!(v.negative_node(), None);
    let i = CurrentSource::new("I1", Quantity::new(2, -3), Polarity::Normal);
    assert_eq!(i.input_node(), None);
    assert_eq!(i.output_node(), None);
    assert_eq!(i.current, Quantity::new(2, -3));
}

#[test]
fn voltage_source_polarity_round_trip() {
    let mut circuit = Circuit::new();
    circuit.add_component(source("V1", 5, Polarity::Normal));
    circuit.add_component(source("V2", 5, Polarity::Inverted));
    match circuit.get_component("V1").unwrap() {
        Component::VoltageSource(v) => {
            assert_eq!(v.positive_node(), Some(0));
            assert_eq!(v.negative_node(), Some(1));
        }
        _ => panic!("expected a voltage source"),
    }
    match circuit.get_component("V2").unwrap() {
        Component::VoltageSource(v) => {
            assert_eq!(v.positive_node(), Some(3));
            assert_eq!(v.negative_node(), Some(2));
        }
        _ => panic!("expected a voltage source"),
    }
}

#[test]
fn current_source_direction() {
    let mut circuit = Circuit::new();
    let normal = CurrentSource::new("I1", Quantity::new(1, 0), Polarity::Normal);
    let inverted = CurrentSource::new("I2", Quantity::new(1, 0), Polarity::Inverted);
    circuit.add_component(Component::CurrentSource(normal));
    circuit.add_component(Component::CurrentSource(inverted));
    match circuit.get_component("I1").unwrap() {
        Component::CurrentSource(s) => {
            assert_eq!(s.input_node(), Some(0));
            assert_eq!(s.output_node(), Some(1));
        }
        _ => panic!("expected a current source"),
    }
    match circuit.get_component("I2").unwrap() {
        Component::CurrentSource(s) => {
            assert_eq!(s.input_node(), Some(3));
            assert_eq!(s.output_node(), Some(2));
        }
        _ => panic!("expected a current source"),
    }
}

#[test]
fn mutable_lookups_write_through() {
    let mut circuit = Circuit::new();
    circuit.add_component(resistor("R1", 100));
    circuit.get_node_mut(1).unwrap().voltage = Some(Quantity::new(5, 0));
    assert_eq!(circuit.get_node(1).unwrap().voltage, Some(Quantity::new(5, 0)));
    assert!(circuit.get_node_mut(2).is_none());
    let base = circuit.get_component_mut("R1").unwrap().component_mut();
    base.current = Some(Quantity::new(50, -3));
    assert_eq!(circuit.get_component("R1").unwrap().component().current, Some(Quantity::new(50, -3)));
    assert!(circuit.get_component_mut("R2").is_none());
}

#[test]
fn node_add_connection_appends() {
    let mut node = Node::new(7);
    assert_eq!(node.id, 7);
    node.add_connection(ConnectionItem::Wire(3));
    node.add_connection(ConnectionItem::Wire(3));
    assert_eq!(node.connected, vec![ConnectionItem::Wire(3), ConnectionItem::Wire(3)]);
}
