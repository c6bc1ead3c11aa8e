use gate_graph::gate::{Gate, GateInstance};
use gate_graph::graph::{Elbow, Graph, Node, Wire};
use gate_graph::ids::{GraphId, NodeId, WireId};
use gate_graph::ivec::IVec2;
use std::collections::{HashMap, HashSet};

/// A graph holding the given nodes (all at the origin, all off) and wires, numbered in
/// the order given, with its evaluation order still to be worked out.
fn gen_graph(nodes: &[(u128, Gate)], wires: &[(u128, u128)]) -> Graph {
    let ns: Vec<Node> = nodes
        .iter()
        .map(|(id, gate)| Node::new(NodeId(*id), *gate, IVec2::default(), false))
        .collect();
    let ws: Vec<Wire> = wires
        .iter()
        .enumerate()
        .map(|(i, (s, d))| Wire::new(WireId(i as u128), Elbow::default(), NodeId(*s), NodeId(*d)))
        .collect();
    Graph::from_parts(GraphId(0), ns, ws)
}

fn as_set(items: &[NodeId]) -> HashSet<u128> {
    items.iter().map(|id| id.0).collect()
}

/// The nodes of `sets`, in turn, fill `slice` in this order, each set in any order.
fn sets_match(sets: &[&[u128]], start: usize, slice: &[NodeId]) -> bool {
    let n = sets.len();
    let mut at = 0;
    for k in 0..n {
        let set = sets[(start + k) % n];
        if at + set.len() > slice.len() {
            return false;
        }
        let want: HashSet<u128> = set.iter().copied().collect();
        if as_set(&slice[at..at + set.len()]) != want {
            return false;
        }
        at += set.len();
    }
    at == slice.len()
}

/// The sets come in this order around a ring, starting from any of them.
fn ring_matches(sets: &[&[u128]], slice: &[NodeId]) -> bool {
    (0..sets.len()).any(|start| sets_match(sets, start, slice))
}

/// The order is made of these rings one after the other.
fn exact_order(rings: &[&[&[u128]]], order: &[NodeId]) -> bool {
    let mut rest = order;
    for ring in rings {
        let len: usize = ring.iter().map(|s| s.len()).sum();
        if rest.len() < len {
            return false;
        }
        if !ring_matches(ring, &rest[..len]) {
            return false;
        }
        rest = &rest[len..];
    }
    true
}

fn states(g: &Graph) -> HashMap<u128, bool> {
    g.nodes_iter().iter().map(|n| (n.id.0, n.state)).collect()
}

#[test]
fn test_one_to_one() {
    let (a, b, c, d) = (0, 1, 2, 3);
    let mut g = gen_graph(
        &[(a, Gate::Or), (b, Gate::Or), (c, Gate::Or), (d, Gate::Or)],
        &[(a, b), (b, c), (c, d)],
    );
    g.refresh_eval_order();
    assert!(
        exact_order(&[&[&[a]], &[&[b]], &[&[c]], &[&[d]]], g.eval_order()),
        "{d} relies on {c} which relies on {b} which relies on {a}, forcing a strict order."
    );
}

#[test]
fn test_many_to_many() {
    let (a, b, c, d, e, f) = (0, 1, 2, 3, 4, 5);
    let mut g = gen_graph(
        &[(a, Gate::Nor), (b, Gate::Or), (c, Gate::Or), (d, Gate::Or), (e, Gate::Or), (f, Gate::Or)],
        &[(a, b), (b, d), (c, d), (d, e), (d, f)],
    );
    g.refresh_eval_order();
    assert!(
        exact_order(&[&[&[a]], &[&[b, c]], &[&[d]], &[&[e, f]]], g.eval_order()),
        "{{e}} and {{f}} rely on {{d}}; {{d}} relies on {{b}} and {{c}}; {{b}} relies on {{a}}"
    );
}

#[test]
fn test_cyclic() {
    let (a, b, c) = (0, 1, 2);
    let mut g = gen_graph(&[(a, Gate::Or), (b, Gate::Or), (c, Gate::Or)], &[(a, b), (b, c), (c, a)]);
    g.refresh_eval_order();
    assert!(
        exact_order(&[&[&[a], &[b], &[c]]], g.eval_order()),
        "the starting/ending nodes don't matter, so long b does not come after c without a between them"
    );
}

#[test]
fn test_cyclic_with_input() {
    let (a, b, c, d) = (0, 1, 2, 3);
    let mut g = gen_graph(
        &[(a, Gate::Or), (b, Gate::Or), (c, Gate::Or), (d, Gate::Or)],
        &[(a, b), (b, c), (c, d), (d, b)],
    );
    g.refresh_eval_order();
    assert!(
        exact_order(&[&[&[a]], &[&[b]], &[&[c]], &[&[d]]], g.eval_order()),
        "b relies on a, making b the entrypoint of the cycle"
    );
}

#[test]
fn test_cyclic_with_output() {
    let (a, b, c, d) = (0, 1, 2, 3);
    let mut g = gen_graph(
        &[(a, Gate::Or), (b, Gate::Or), (c, Gate::Or), (d, Gate::Or)],
        &[(b, c), (c, d), (d, b), (d, a)],
    );
    g.refresh_eval_order();
    assert!(
        exact_order(&[&[&[b]], &[&[c]], &[&[d]], &[&[a]]], g.eval_order()),
        "a relies on d, forcing d to act as an endpoint for the cycle"
    );
}

#[test]
fn test_rs_nor_latch() {
    let (r, s, q, q_) = (0, 1, 2, 3);
    let mut g = gen_graph(
        &[(r, Gate::Or), (s, Gate::Or), (q, Gate::Nor), (q_, Gate::Nor)],
        &[(r, q), (s, q_), (q, q_), (q_, q)],
    );
    g.refresh_eval_order();
    assert!(
        exact_order(&[&[&[r, s]], &[&[q, q_]]], g.eval_order()),
        "q and q_ form a cycle; they rely on r and s, which must come before them"
    );

    g.evaluate();

    g.set_gate(&NodeId(s), GateInstance::Nor).unwrap();
    g.evaluate();
    assert_eq!(
        states(&g),
        HashMap::from([(r, false), (s, true), (q, true), (q_, false)]),
        "1: setting s should set q and unset q_"
    );

    g.set_gate(&NodeId(s), GateInstance::Or).unwrap();
    g.evaluate();
    assert_eq!(
        states(&g),
        HashMap::from([(r, false), (s, false), (q, true), (q_, false)]),
        "1: should remain latched after inputs are turned back off"
    );

    g.set_gate(&NodeId(r), GateInstance::Nor).unwrap();
    g.evaluate();
    assert_eq!(
        states(&g),
        HashMap::from([(r, true), (s, false), (q, false), (q_, true)]),
        "2: setting r should set q_ and unset q"
    );

    g.set_gate(&NodeId(r), GateInstance::Or).unwrap();
    g.evaluate();
    assert_eq!(
        states(&g),
        HashMap::from([(r, false), (s, false), (q, false), (q_, true)]),
        "2: should remain latched after inputs are turned back off"
    );
}

fn adjacency(list: Vec<(NodeId, Vec<NodeId>)>) -> HashMap<NodeId, Vec<NodeId>> {
    list.into_iter().collect()
}

#[test]
fn graph_test0() {
    let mut g = gen_graph(
        &[(0, Gate::Or), (1, Gate::Or), (2, Gate::Or), (3, Gate::Or)],
        &[(0, 1), (1, 2), (2, 3)],
    );
    assert_eq!(
        adjacency(g.adjacent_in()),
        HashMap::from([
            (NodeId(1), vec![NodeId(0)]),
            (NodeId(2), vec![NodeId(1)]),
            (NodeId(3), vec![NodeId(2)]),
        ]),
        "adjacent_in"
    );
    assert_eq!(
        adjacency(g.adjacent_out()),
        HashMap::from([
            (NodeId(0), vec![NodeId(1)]),
            (NodeId(1), vec![NodeId(2)]),
            (NodeId(2), vec![NodeId(3)]),
        ]),
        "adjacent_out"
    );
    assert_eq!(g.inputless_nodes().as_slice(), &[NodeId(0)], "inputless_nodes");
    assert_eq!(g.outputless_nodes().as_slice(), &[NodeId(3)], "outputless_nodes");
    g.refresh_eval_order();
    assert_eq!(g.eval_order(), &[NodeId(0), NodeId(1), NodeId(2), NodeId(3)], "eval_order");
    g.evaluate();
    assert_eq!(states(&g), HashMap::from([(0, false), (1, false), (2, false), (3, false)]));
    g.set_gate(&NodeId(0), GateInstance::Nor).unwrap();
    g.evaluate();
    assert_eq!(states(&g), HashMap::from([(0, true), (1, true), (2, true), (3, true)]));
    g.set_gate(&NodeId(0), GateInstance::Or).unwrap();
    g.evaluate();
    assert_eq!(states(&g), HashMap::from([(0, false), (1, false), (2, false), (3, false)]));
}

#[test]
fn graph_test1() {
    let mut g = gen_graph(
        &[(0, Gate::Nor), (1, Gate::Or), (2, Gate::Or), (3, Gate::Or), (4, Gate::Or), (5, Gate::Or)],
        &[(0, 1), (1, 3), (2, 3), (3, 4), (3, 5)],
    );
    assert_eq!(
        adjacency(g.adjacent_in()),
        HashMap::from([
            (NodeId(1), vec![NodeId(0)]),
            (NodeId(3), vec![NodeId(2), NodeId(1)]),
            (NodeId(4), vec![NodeId(3)]),
            (NodeId(5), vec![NodeId(3)]),
        ]),
        "adjacent_in"
    );
    assert_eq!(
        adjacency(g.adjacent_out()),
        HashMap::from([
            (NodeId(0), vec![NodeId(1)]),
            (NodeId(1), vec![NodeId(3)]),
            (NodeId(2), vec![NodeId(3)]),
            (NodeId(3), vec![NodeId(5), NodeId(4)]),
        ]),
        "adjacent_out"
    );
    assert_eq!(g.inputless_nodes().as_slice(), &[NodeId(0), NodeId(2)], "inputless_nodes");
    assert_eq!(g.outputless_nodes().as_slice(), &[NodeId(4), NodeId(5)], "outputless_nodes");
    g.refresh_eval_order();
    assert!(
        exact_order(&[&[&[0]], &[&[1, 2]], &[&[3]], &[&[4, 5]]], g.eval_order()),
        "eval_order"
    );
}

#[test]
fn refresh_records_depths_and_places() {
    let mut g = gen_graph(&[(0, Gate::Or), (1, Gate::Or), (2, Gate::Or)], &[(0, 1), (1, 2)]);
    assert!(g.is_eval_order_dirty());
    g.refresh_eval_order();
    assert!(!g.is_eval_order_dirty());
    assert_eq!(g.eval_order(), &[NodeId(0), NodeId(1), NodeId(2)]);
    assert_eq!(g.eval_order_of(&NodeId(2)), Ok((0, 0)));
    assert_eq!(g.eval_order_of(&NodeId(1)), Ok((1, 1)));
    assert_eq!(g.eval_order_of(&NodeId(0)), Ok((2, 2)));
    assert!(g.eval_order_of(&NodeId(7)).is_err());
    // a clean order is left as it is
    g.refresh_eval_order();
    assert_eq!(g.eval_order(), &[NodeId(0), NodeId(1), NodeId(2)]);
}

#[test]
fn evaluate_gates_and_capacitor() {
    // battery -> capacitor(2): charges while fed, then drains one unit per tick
    let mut g = gen_graph(
        &[(0, Gate::Battery), (1, Gate::Capacitor { capacity: gate_graph::gate::Ntd::Two })],
        &[(0, 1)],
    );
    g.refresh_eval_order();
    g.evaluate();
    assert_eq!(states(&g), HashMap::from([(0, true), (1, true)]));
    g.set_gate(&NodeId(0), GateInstance::Nor).unwrap();
    // nor with no inputs is on, so still charging
    g.evaluate();
    assert_eq!(states(&g), HashMap::from([(0, true), (1, true)]));
    g.set_gate(&NodeId(0), GateInstance::Or).unwrap();
    g.evaluate();
    // stored 2 -> drains to 1, still on
    assert_eq!(states(&g), HashMap::from([(0, false), (1, true)]));
    g.evaluate();
    // stored 1 -> drains to 0, off
    assert_eq!(states(&g), HashMap::from([(0, false), (1, false)]));
}

#[test]
fn shortcut_wire_keeps_inputs_first() {
    let (a, b, c, d) = (0, 1, 2, 3);
    let mut g = gen_graph(
        &[(a, Gate::Or), (b, Gate::Or), (c, Gate::Or), (d, Gate::Or)],
        &[(a, b), (b, c), (c, d), (a, d)],
    );
    g.refresh_eval_order();
    assert_eq!(g.eval_order(), &[NodeId(a), NodeId(b), NodeId(c), NodeId(d)]);
    assert_eq!(g.eval_order_of(&NodeId(a)), Ok((3, 3)));
    assert_eq!(g.eval_order_of(&NodeId(b)), Ok((2, 2)));
    assert_eq!(g.eval_order_of(&NodeId(c)), Ok((1, 1)));
    assert_eq!(g.eval_order_of(&NodeId(d)), Ok((0, 0)));
}

#[test]
fn two_inputs_into_a_cycle() {
    let (r1, r2, x, y) = (0, 1, 2, 3);
    let mut g = gen_graph(
        &[(r1, Gate::Or), (r2, Gate::Or), (x, Gate::Or), (y, Gate::Or)],
        &[(r1, x), (r2, x), (x, y), (y, x)],
    );
    g.refresh_eval_order();
    assert!(
        exact_order(&[&[&[r1, r2]], &[&[x]], &[&[y]]], g.eval_order()),
        "both inputs come first, then the cycle from the node they feed"
    );
}

#[test]
fn wires_outside_cycles_run_forward() {
    // a diamond feeding a cycle that feeds a chain, with the ids out of order
    let nodes: Vec<(u128, Gate)> = (0..9).map(|i| (i, Gate::Or)).collect();
    let wires = [(8, 3), (8, 5), (3, 0), (5, 0), (0, 6), (6, 1), (1, 6), (1, 7), (7, 2), (2, 4)];
    let mut g = gen_graph(&nodes, &wires);
    g.refresh_eval_order();
    let order = g.eval_order();
    assert_eq!(order.len(), 9);
    let place = |id: u128| order.iter().position(|n| n.0 == id).unwrap();
    for (s, d) in wires {
        let on_cycle = (s == 6 && d == 1) || (s == 1 && d == 6);
        if !on_cycle {
            assert!(place(s) < place(d), "{s} should come before {d} in {order:?}");
        }
    }
}

#[test]
fn chain_settles_in_one_tick() {
    let mut g = gen_graph(
        &[(0, Gate::Or), (1, Gate::Or), (2, Gate::Or), (3, Gate::Or), (4, Gate::Or)],
        &[(3, 4), (2, 3), (1, 2), (0, 1)],
    );
    g.refresh_eval_order();
    g.evaluate();
    g.set_gate(&NodeId(0), GateInstance::Nor).unwrap();
    g.evaluate();
    assert_eq!(states(&g), HashMap::from([(0, true), (1, true), (2, true), (3, true), (4, true)]));
}

#[test]
fn cycle_fed_from_nowhere_ends_where_it_feeds_out() {
    // the same shape as the cycle with an output, with the nodes numbered the other way
    let (a, b, c, d) = (3, 2, 1, 0);
    let mut g = gen_graph(
        &[(d, Gate::Or), (c, Gate::Or), (b, Gate::Or), (a, Gate::Or)],
        &[(b, c), (c, d), (d, b), (d, a)],
    );
    g.refresh_eval_order();
    assert_eq!(g.eval_order(), &[NodeId(b), NodeId(c), NodeId(d), NodeId(a)]);
}

#[test]
fn cycle_without_exits_is_a_rotation() {
    let mut g = gen_graph(&[(0, Gate::Or), (1, Gate::Or), (2, Gate::Or)], &[(0, 1), (1, 2), (2, 0)]);
    g.refresh_eval_order();
    assert!(exact_order(&[&[&[0], &[1], &[2]]], g.eval_order()));
    assert_eq!(g.eval_order_of(&NodeId(0)).map(|p| p.0), Ok(0));
}
