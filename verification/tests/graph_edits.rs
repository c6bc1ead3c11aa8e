use gate_graph::gate::{Gate, GateInstance, Ntd};
use gate_graph::graph::blueprint::{Blueprint, NodeBP, WireBP};
use gate_graph::graph::template::{GraphList, GraphTemplate, NodeTemplate, WireTemplate};
use gate_graph::graph::{AlreadyExistsError, Elbow, Flow, Graph, NotOfGraphError};
use gate_graph::ids::{GraphId, NodeId, WireId};
use gate_graph::ivec::IVec2;
use gate_graph::console::{GraphRef, NodeRef, WireRef};

#[test]
fn create_node_refuses_a_taken_cell() {
    let mut g = Graph::new(GraphId(3));
    let a = g.create_node(Gate::Or, IVec2::new(0, 0)).unwrap();
    assert_eq!(a, NodeId(0));
    // (7, 7) lies in the same 8-unit cell as (0, 0)
    assert_eq!(g.create_node(Gate::And, IVec2::new(7, 7)), Err(AlreadyExistsError(a)));
    let b = g.create_node(Gate::And, IVec2::new(8, 0)).unwrap();
    assert_eq!(b, NodeId(1));
    assert_eq!(g.nodes_iter().len(), 2);
    assert!(g.is_eval_order_dirty());
    assert_eq!(g.node_at(IVec2::new(1, 0)).unwrap().id, b);
    assert!(g.node_at(IVec2::new(2, 0)).is_none());
}

#[test]
fn world_and_grid_positions() {
    assert_eq!(Graph::world_to_grid(IVec2::new(17, -9)), IVec2::new(2, -1));
    assert_eq!(Graph::grid_to_world(IVec2::new(2, -1)), IVec2::new(16, -8));
}

#[test]
fn translate_moves_the_grid_entry() {
    let mut g = Graph::new(GraphId(0));
    let a = g.create_node(Gate::Or, IVec2::new(0, 0)).unwrap();
    assert_eq!(g.translate_node(&a, IVec2::new(3, 3)), Ok(()));
    assert_eq!(g.node(&a).unwrap().position, IVec2::new(0, 0), "same cell: nothing moves");
    assert_eq!(g.translate_node(&a, IVec2::new(16, 0)), Ok(()));
    assert_eq!(g.node(&a).unwrap().position, IVec2::new(16, 0));
    assert!(g.node_at(IVec2::new(0, 0)).is_none());
    assert_eq!(g.node_at(IVec2::new(2, 0)).unwrap().id, a);
    assert_eq!(g.translate_node(&NodeId(9), IVec2::new(0, 0)), Err(NotOfGraphError));
}

#[test]
fn wires_between_nodes() {
    let mut g = Graph::new(GraphId(0));
    let a = g.create_node(Gate::Or, IVec2::new(0, 0)).unwrap();
    let b = g.create_node(Gate::Or, IVec2::new(8, 0)).unwrap();
    let w = g.create_wire(Elbow::Horizontal, a, b).unwrap();
    assert_eq!(w, WireId(0));
    assert_eq!(g.create_wire(Elbow::Vertical, a, b), Err(AlreadyExistsError(w)));
    let back = g.create_wire(Elbow::Vertical, b, a).unwrap();
    assert_eq!(back, WireId(1));
    assert_eq!(g.inputs_to(&b).len(), 1);
    assert_eq!(g.outputs_from(&b).len(), 1);
    let flows: Vec<Flow> = g.wires_of(&a).iter().map(|(_, f)| *f).collect();
    assert_eq!(flows, vec![Flow::Output, Flow::Input]);
    assert!(!g.is_inputless(&a));
    assert!(Flow::Loop.is_input() && Flow::Loop.is_output());
    assert_eq!(g.destroy_wire(&w).unwrap().id, w);
    assert_eq!(g.destroy_wire(&w), Err(NotOfGraphError));
    assert_eq!(g.wire(&back).unwrap().src, b);
    let (s, d) = g.get_wire_nodes(g.wire(&back).unwrap()).unwrap();
    assert_eq!((s.id, d.id), (b, a));
}

#[test]
fn destroying_a_node_takes_its_wires() {
    let mut g = Graph::new(GraphId(0));
    let a = g.create_node(Gate::Or, IVec2::new(0, 0)).unwrap();
    let b = g.create_node(Gate::Or, IVec2::new(8, 0)).unwrap();
    let c = g.create_node(Gate::Or, IVec2::new(16, 0)).unwrap();
    g.create_wire(Elbow::default(), a, b).unwrap();
    g.create_wire(Elbow::default(), b, c).unwrap();
    g.create_wire(Elbow::default(), a, c).unwrap();
    let removed = g.destroy_node(&b, false).unwrap();
    assert_eq!(removed.id, b);
    assert_eq!(g.wires_iter().len(), 1);
    assert!(g.node_at(IVec2::new(1, 0)).is_none());
    assert_eq!(g.destroy_node(&b, false), Err(NotOfGraphError));
    // a soft removal leaves the wires
    g.destroy_node(&c, true).unwrap();
    assert_eq!(g.wires_iter().len(), 1);
}

#[test]
fn set_gate_replaces_only_the_gate() {
    let mut g = Graph::new(GraphId(0));
    let a = g.create_node(Gate::Capacitor { capacity: Ntd::Three }, IVec2::new(0, 0)).unwrap();
    assert_eq!(g.node(&a).unwrap().gate, GateInstance::Capacitor { capacity: Ntd::Three, stored: Ntd::Zero });
    g.set_gate(&a, GateInstance::Xor).unwrap();
    assert_eq!(g.node(&a).unwrap().gate, GateInstance::Xor);
    assert_eq!(g.set_gate(&NodeId(5), GateInstance::Or), Err(NotOfGraphError));
}

#[test]
fn placing_a_blueprint() {
    let mut g = Graph::new(GraphId(0));
    let taken = g.create_node(Gate::Battery, IVec2::new(0, 0)).unwrap();
    let bp = Blueprint {
        nodes: vec![
            NodeBP { name: None, state: false, gate: Gate::Or, position: (0, 0) },
            NodeBP { name: Some(String::from("x")), state: true, gate: Gate::And, position: (8, 0) },
            NodeBP { name: None, state: false, gate: Gate::Nor, position: (16, 0) },
        ],
        wires: vec![
            WireBP { elbow: Elbow::Horizontal, src: 0, dst: 1 },
            WireBP { elbow: Elbow::Horizontal, src: 1, dst: 2 },
            WireBP { elbow: Elbow::Vertical, src: 1, dst: 2 },
        ],
    };
    g.place_blueprint(&bp);
    // the first node's cell was taken: it and its wire are left out; the repeated wire too
    assert_eq!(g.nodes_iter().len(), 3);
    assert_eq!(g.wires_iter().len(), 1);
    assert_eq!(g.wires_iter()[0].src, NodeId(1));
    assert_eq!(g.wires_iter()[0].dst, NodeId(2));
    assert_eq!(g.node_at(IVec2::new(0, 0)).unwrap().id, taken);
}

#[test]
fn templates_save_and_load() {
    let mut g = Graph::new(GraphId(0));
    let a = g.create_node(Gate::Resistor { resistance: Ntd::Two }, IVec2::new(0, 0)).unwrap();
    let b = g.create_node(Gate::Led { color: Ntd::Four }, IVec2::new(8, 8)).unwrap();
    g.create_wire(Elbow::DiagonalStart, b, a).unwrap();
    let t = g.template();
    assert_eq!(t.nodes.len(), 2);
    assert_eq!(t.nodes[1], NodeTemplate { gate: Gate::Led { color: Ntd::Four }, position: IVec2::new(8, 8), state: false });
    assert_eq!(t.wires, vec![WireTemplate { elbow: Elbow::DiagonalStart, src: 1, dst: 0 }]);
    let loaded = Graph::from_template(GraphId(5), &t);
    assert_eq!(*loaded.id(), GraphId(5));
    assert!(loaded.is_eval_order_dirty());
    assert_eq!(loaded.nodes_iter()[0].gate, GateInstance::Resistor { resistance: Ntd::Two });
    assert_eq!(loaded.wires_iter()[0].src, NodeId(1));
    assert_eq!(loaded.node_at(IVec2::new(1, 1)).unwrap().id, NodeId(1));
    // a repeated wire is loaded once
    let t2 = GraphTemplate {
        nodes: vec![],
        wires: vec![
            WireTemplate { elbow: Elbow::Vertical, src: 0, dst: 1 },
            WireTemplate { elbow: Elbow::Vertical, src: 0, dst: 1 },
        ],
    };
    assert_eq!(Graph::from_template(GraphId(0), &t2).wires_iter().len(), 1);
}

#[test]
fn graph_lists() {
    let mut list = GraphList::new();
    let a = list.create_graph();
    let b = list.create_graph();
    assert_eq!((a, b), (GraphId(0), GraphId(1)));
    assert_eq!(*list.get(&b).unwrap().id(), b);
    assert!(list.get(&GraphId(2)).is_none());
    let saved = list.templates();
    let loaded = GraphList::from_templates(&saved);
    assert!(loaded.get(&GraphId(1)).is_some());
}

#[test]
fn references_find_their_graph() {
    let one = GraphTemplate {
        nodes: vec![NodeTemplate { gate: Gate::Or, position: IVec2::new(0, 0), state: false }],
        wires: vec![],
    };
    let two = GraphTemplate {
        nodes: vec![
            NodeTemplate { gate: Gate::Battery, position: IVec2::new(0, 0), state: true },
            NodeTemplate { gate: Gate::Xor, position: IVec2::new(8, 0), state: false },
        ],
        wires: vec![WireTemplate { elbow: Elbow::Horizontal, src: 0, dst: 1 }],
    };
    let list = GraphList::from_templates(&vec![one, two]);
    assert_eq!(GraphRef(GraphId(1)).deref_with(&list, |g| g.nodes_iter().len()), Some(2));
    assert_eq!(GraphRef(GraphId(2)).deref_with(&list, |g| g.nodes_iter().len()), None);
    assert_eq!(NodeRef(NodeId(0)).deref_with(&list, |g, n| (*g.id(), n.state())), Some((GraphId(0), false)));
    assert_eq!(NodeRef(NodeId(1)).deref_with(&list, |g, _| *g.id()), Some(GraphId(1)));
    assert_eq!(NodeRef(NodeId(2)).deref_with(&list, |g, _| *g.id()), None);
    assert_eq!(WireRef(WireId(0)).deref_with(&list, |g, w| (*g.id(), *w.dst())), Some((GraphId(1), NodeId(1))));
    assert_eq!(WireRef(WireId(1)).deref_with(&list, |g, _| *g.id()), None);
}

#[test]
fn destroying_a_new_wire_restores_the_wires() {
    let mut g = Graph::new(GraphId(0));
    let a = g.create_node(Gate::Or, IVec2::new(0, 0)).unwrap();
    let b = g.create_node(Gate::Or, IVec2::new(8, 0)).unwrap();
    let first = g.create_wire(Elbow::Vertical, a, b).unwrap();
    let before: Vec<WireId> = g.wires_iter().iter().map(|w| *w.id()).collect();
    let w = g.create_wire(Elbow::Horizontal, b, a).unwrap();
    assert_eq!(g.destroy_wire(&w).map(|x| *x.id()), Ok(w));
    let after: Vec<WireId> = g.wires_iter().iter().map(|w| *w.id()).collect();
    assert_eq!(before, after);
    assert_eq!(after, vec![first]);
}

#[test]
fn saving_a_loaded_graph_gives_the_same_form() {
    let mut g = Graph::new(GraphId(4));
    let a = g.create_node(Gate::Or, IVec2::new(0, 0)).unwrap();
    let b = g.create_node(Gate::Capacitor { capacity: Ntd::Three }, IVec2::new(8, 0)).unwrap();
    let c = g.create_node(Gate::Delay, IVec2::new(16, 0)).unwrap();
    g.create_wire(Elbow::Vertical, b, c).unwrap();
    g.create_wire(Elbow::Horizontal, c, b).unwrap();
    g.destroy_node(&a, false).unwrap();
    let saved = g.template();
    assert_eq!(saved.wires[0], WireTemplate { elbow: Elbow::Vertical, src: 0, dst: 1 });
    let loaded = Graph::from_template(GraphId(9), &saved);
    assert_eq!(*loaded.nodes_iter()[0].id(), NodeId(0));
    assert_eq!(*loaded.nodes_iter()[1].id(), NodeId(1));
    assert_eq!(*loaded.wires_iter()[1].id(), WireId(1));
    assert_eq!((*loaded.wires_iter()[1].src(), *loaded.wires_iter()[1].dst()), (NodeId(1), NodeId(0)));
    let again = loaded.template();
    assert_eq!(again.nodes, saved.nodes);
    assert_eq!(again.wires, saved.wires);
}

#[test]
fn moved_and_destroyed_nodes_keep_the_grid_in_step() {
    let mut g = Graph::new(GraphId(0));
    let a = g.create_node(Gate::Or, IVec2::new(0, 0)).unwrap();
    let b = g.create_node(Gate::Or, IVec2::new(8, 0)).unwrap();
    assert_eq!(g.translate_node(&a, IVec2::new(40, 40)), Ok(()));
    // the new cell is taken by the moved node, the old one is free again
    assert_eq!(g.create_node(Gate::And, IVec2::new(41, 47)), Err(AlreadyExistsError(a)));
    let c = g.create_node(Gate::And, IVec2::new(1, 1)).unwrap();
    assert_eq!(g.destroy_node(&b, false).map(|n| n.id), Ok(b));
    assert!(g.node_at(IVec2::new(1, 0)).is_none());
    let d = g.create_node(Gate::Xor, IVec2::new(8, 0)).unwrap();
    assert_eq!(g.node_at(IVec2::new(1, 0)).unwrap().id, d);
    assert_eq!(g.node_at(IVec2::new(0, 0)).unwrap().id, c);
    assert_eq!(g.node_at(IVec2::new(5, 5)).unwrap().id, a);
}
