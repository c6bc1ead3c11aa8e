//! Graphs as they are saved and loaded: nodes in a list, wires naming their two nodes by
//! number, and lists of graphs.
use super::{
    cell_key, contains_node, index_in, key_of, lemma_cell_key_injective, lemma_index_in,
    grid_synced, spec_world_to_grid, unique_nodes, unique_wires, wire_between, Elbow, Graph, Node, Wire,
};
use crate::gate::{Gate, GateInstance};
use crate::ids::{GraphId, NodeId, WireId};
use crate::ivec::IVec2;
use std::collections::HashMap;
use vstd::prelude::*;

verus! {

broadcast use vstd::std_specs::hash::group_hash_axioms;

/// A node as saved: its gate, world position and state.
#[derive(Debug, Clone, Copy, PartialEq, Eq, Structural)]
pub struct NodeTemplate {
    pub gate: Gate,
    pub position: IVec2,
    pub state: bool,
}

/// A wire as saved: its bend and the numbers of the nodes it leaves and enters.
#[derive(Debug, Clone, Copy, PartialEq, Eq, Structural)]
pub struct WireTemplate {
    pub elbow: Elbow,
    pub src: u128,
    pub dst: u128,
}

/// A graph as saved.
#[derive(Debug)]
pub struct GraphTemplate {
    pub nodes: Vec<NodeTemplate>,
    pub wires: Vec<WireTemplate>,
}

/// The saved form of a node.
pub open spec fn node_template(n: Node) -> NodeTemplate {
    NodeTemplate { gate: n.gate.spec_as_gate(), position: n.position, state: n.state }
}

/// The saved form of a wire: its ends named by their place in `nodes`.
pub open spec fn wire_template(nodes: Seq<Node>, w: Wire) -> WireTemplate {
    WireTemplate {
        elbow: w.elbow,
        src: index_in(nodes, w.src) as u128,
        dst: index_in(nodes, w.dst) as u128,
    }
}

/// The nodes a load gives: the `i`-th saved node gets the identifier `i`.
pub open spec fn loaded_nodes(ts: Seq<NodeTemplate>) -> Seq<Node> {
    Seq::new(
        ts.len(),
        |i: int|
            Node {
                state: ts[i].state,
                id: NodeId(i as u128),
                gate: GateInstance::spec_from_gate(ts[i].gate),
                position: ts[i].position,
            },
    )
}

/// The grid a load gives: each node recorded in its cell, a later node taking the cell
/// of an earlier one.
pub open spec fn loaded_grid(ts: Seq<NodeTemplate>) -> Map<i128, NodeId>
    decreases ts.len(),
{
    if ts.len() == 0 {
        Map::empty()
    } else {
        loaded_grid(ts.drop_last()).insert(
            cell_key(spec_world_to_grid(ts.last().position)),
            NodeId((ts.len() - 1) as u128),
        )
    }
}

/// The wires a load gives, numbered in order; a wire joining two nodes that an earlier
/// one already joins is left out.
pub open spec fn loaded_wires(ts: Seq<WireTemplate>) -> Seq<Wire>
    decreases ts.len(),
{
    if ts.len() == 0 {
        Seq::empty()
    } else {
        let w = loaded_wires(ts.drop_last());
        let t = ts.last();
        if wire_between(w, NodeId(t.src), NodeId(t.dst)) {
            w
        } else {
            w.push(
                Wire { id: WireId(w.len() as u128), elbow: t.elbow, src: NodeId(t.src), dst: NodeId(t.dst) },
            )
        }
    }
}

/// Loaded wires are numbered by their place, and no two join the same nodes.
proof fn lemma_loaded_wires(ts: Seq<WireTemplate>)
    requires
        ts.len() <= usize::MAX,
    ensures
        unique_wires(loaded_wires(ts)),
        loaded_wires(ts).len() <= ts.len(),
        forall|i: int| 0 <= i < loaded_wires(ts).len() ==> (#[trigger] loaded_wires(ts)[i]).id
            == WireId(i as u128),
    decreases ts.len(),
{
    if ts.len() > 0 {
        let p = ts.drop_last();
        lemma_loaded_wires(p);
        let w = loaded_wires(p);
        let t = ts.last();
        if !wire_between(w, NodeId(t.src), NodeId(t.dst)) {
            let nw = Wire { id: WireId(w.len() as u128), elbow: t.elbow, src: NodeId(t.src), dst: NodeId(t.dst) };
            let w2 = w.push(nw);
            assert(loaded_wires(ts) == w2);
            assert forall|i: int| 0 <= i < w2.len() implies (#[trigger] w2[i]).id == WireId(i as u128) by {
                if i < w.len() {
                    assert(w2[i] == w[i]);
                }
            }
            assert forall|a: int, b: int|
                0 <= a < w2.len() && 0 <= b < w2.len() && a != b implies w2[a].id != w2[b].id by {
                assert(w2[a].id == WireId(a as u128));
                assert(w2[b].id == WireId(b as u128));
            }
            assert forall|a: int, b: int|
                0 <= a < w2.len() && 0 <= b < w2.len() && a != b implies !(w2[a].src == w2[b].src
                && w2[a].dst == w2[b].dst) by {
                if a < w.len() && b < w.len() {
                    assert(w2[a] == w[a] && w2[b] == w[b]);
                } else if a < w.len() {
                    assert(w2[a] == w[a]);
                } else {
                    assert(w2[b] == w[b]);
                }
            }
        }
    }
}

/// Every entry of a loaded grid names a loaded node in that node's cell.
proof fn lemma_loaded_grid(ts: Seq<NodeTemplate>)
    requires
        ts.len() <= usize::MAX,
    ensures
        forall|k: i128| #[trigger]
            loaded_grid(ts).contains_key(k) ==> loaded_grid(ts)[k].0 < ts.len() && k == cell_key(
                spec_world_to_grid(ts[loaded_grid(ts)[k].0 as int].position),
            ),
    decreases ts.len(),
{
    if ts.len() > 0 {
        lemma_loaded_grid(ts.drop_last());
        let p = ts.drop_last();
        assert forall|k: i128| #[trigger] loaded_grid(ts).contains_key(k) implies loaded_grid(ts)[k].0
            < ts.len() && k == cell_key(spec_world_to_grid(ts[loaded_grid(ts)[k].0 as int].position)) by {
            let key = cell_key(spec_world_to_grid(ts.last().position));
            assert(loaded_grid(ts) == loaded_grid(p).insert(key, NodeId((ts.len() - 1) as u128)));
            if k != key {
                assert(loaded_grid(p).contains_key(k));
                assert(loaded_grid(ts)[k] == loaded_grid(p)[k]);
                assert(ts[loaded_grid(p)[k].0 as int] == p[loaded_grid(p)[k].0 as int]);
            } else {
                assert(loaded_grid(ts)[k] == NodeId((ts.len() - 1) as u128));
                assert(ts[ts.len() - 1] == ts.last());
            }
        }
    }
}

/// Wire `w`, the `i`-th of a graph with nodes `nodes`, as a load renames it: numbered
/// `i`, its ends numbered by their place in `nodes`.
pub open spec fn renamed_wire(nodes: Seq<Node>, w: Wire, i: int) -> Wire {
    Wire {
        id: WireId(i as u128),
        elbow: w.elbow,
        src: NodeId(index_in(nodes, w.src) as u128),
        dst: NodeId(index_in(nodes, w.dst) as u128),
    }
}

/// Loading the saved wires of a graph gives them all back, in order, renamed.
proof fn lemma_loaded_saved_wires(nodes: Seq<Node>, wires: Seq<Wire>, k: int)
    requires
        unique_nodes(nodes),
        unique_wires(wires),
        nodes.len() <= usize::MAX,
        wires.len() <= usize::MAX,
        forall|i: int| 0 <= i < wires.len() ==> contains_node(nodes, #[trigger] wires[i].src)
            && contains_node(nodes, wires[i].dst),
        0 <= k <= wires.len(),
    ensures
        loaded_wires(wires.map_values(|w: Wire| wire_template(nodes, w)).take(k)) == Seq::new(
            k as nat,
            |i: int| renamed_wire(nodes, wires[i], i),
        ),
    decreases k,
{
    let ts = wires.map_values(|w: Wire| wire_template(nodes, w));
    let want = Seq::new(k as nat, |i: int| renamed_wire(nodes, wires[i], i));
    if k == 0 {
        assert(ts.take(0) =~= Seq::<WireTemplate>::empty());
        assert(want =~= Seq::<Wire>::empty());
    } else {
        lemma_loaded_saved_wires(nodes, wires, k - 1);
        let prev = Seq::new((k - 1) as nat, |i: int| renamed_wire(nodes, wires[i], i));
        assert(ts.take(k).drop_last() =~= ts.take(k - 1));
        let t = ts.take(k).last();
        assert(t == wire_template(nodes, wires[k - 1]));
        let a = index_in(nodes, wires[k - 1].src);
        let b = index_in(nodes, wires[k - 1].dst);
        assert(0 <= a < nodes.len() && nodes[a].id == wires[k - 1].src);
        assert(0 <= b < nodes.len() && nodes[b].id == wires[k - 1].dst);
        if wire_between(prev, NodeId(t.src), NodeId(t.dst)) {
            let j = choose|j: int| 0 <= j < prev.len() && prev[j].src == NodeId(t.src) && prev[j].dst
                == NodeId(t.dst);
            let aj = index_in(nodes, wires[j].src);
            let bj = index_in(nodes, wires[j].dst);
            assert(0 <= aj < nodes.len() && nodes[aj].id == wires[j].src);
            assert(0 <= bj < nodes.len() && nodes[bj].id == wires[j].dst);
            assert(aj == a && bj == b);
            assert(wires[j].src == wires[k - 1].src && wires[j].dst == wires[k - 1].dst);
            assert(false);
        }
        assert(loaded_wires(ts.take(k)) == prev.push(
            Wire { id: WireId(prev.len() as u128), elbow: t.elbow, src: NodeId(t.src), dst: NodeId(t.dst) },
        ));
        assert(prev.push(
            Wire { id: WireId(prev.len() as u128), elbow: t.elbow, src: NodeId(t.src), dst: NodeId(t.dst) },
        ) =~= want);
    }
}

/// Loading saved nodes that lie in distinct cells records every loaded node in the grid
/// at its own cell.
pub proof fn lemma_loaded_grid_synced(ts: Seq<NodeTemplate>)
    requires
        forall|i: int, j: int|
            0 <= i < ts.len() && 0 <= j < ts.len() && i != j ==> spec_world_to_grid(ts[i].position)
                != spec_world_to_grid(ts[j].position),
    ensures
        grid_synced(loaded_nodes(ts), loaded_grid(ts)),
    decreases ts.len(),
{
    if ts.len() > 0 {
        let p = ts.drop_last();
        assert forall|i: int, j: int|
            0 <= i < p.len() && 0 <= j < p.len() && i != j implies spec_world_to_grid(p[i].position)
                != spec_world_to_grid(p[j].position) by {
            assert(p[i] == ts[i] && p[j] == ts[j]);
        }
        lemma_loaded_grid_synced(p);
        let last = ts.len() - 1;
        let nodes = loaded_nodes(ts);
        let key = cell_key(spec_world_to_grid(ts.last().position));
        assert forall|i: int| 0 <= i < nodes.len() implies loaded_grid(ts).contains_key(
            cell_key(spec_world_to_grid((#[trigger] nodes[i]).position)),
        ) && loaded_grid(ts)[cell_key(spec_world_to_grid(nodes[i].position))] == nodes[i].id by {
            if i < last {
                assert(loaded_nodes(p)[i] == nodes[i]);
                assert(spec_world_to_grid(ts[i].position) != spec_world_to_grid(ts[last].position));
                lemma_cell_key_injective(spec_world_to_grid(ts[i].position), spec_world_to_grid(ts[last].position));
            }
        }
    }
}

/// Every loaded wire joins the nodes that some saved wire names.
proof fn lemma_loaded_wire_ends(ts: Seq<WireTemplate>)
    ensures
        forall|i: int|
            0 <= i < loaded_wires(ts).len() ==> exists|j: int|
                0 <= j < ts.len() && (#[trigger] loaded_wires(ts)[i]).src == NodeId(ts[j].src)
                    && loaded_wires(ts)[i].dst == NodeId(ts[j].dst),
    decreases ts.len(),
{
    if ts.len() > 0 {
        let p = ts.drop_last();
        lemma_loaded_wire_ends(p);
        let w = loaded_wires(p);
        assert forall|i: int| 0 <= i < loaded_wires(ts).len() implies exists|j: int|
            0 <= j < ts.len() && (#[trigger] loaded_wires(ts)[i]).src == NodeId(ts[j].src)
                && loaded_wires(ts)[i].dst == NodeId(ts[j].dst) by {
            if i < w.len() {
                assert(loaded_wires(ts)[i] == w[i]);
                let j = choose|j: int| 0 <= j < p.len() && w[i].src == NodeId(p[j].src) && w[i].dst == NodeId(p[j].dst);
                assert(p[j] == ts[j]);
            } else {
                assert(ts[ts.len() - 1] == ts.last());
            }
        }
    }
}

/// A graph loaded from a template whose nodes lie in distinct cells has every node
/// recorded in the grid at its own cell; and when every saved wire names two saved nodes,
/// every loaded wire joins two nodes of the graph.
pub proof fn lemma_loaded_graph_in_step(g: Graph, nodes: Seq<NodeTemplate>, wires: Seq<WireTemplate>)
    requires
        g.nodes_view() == loaded_nodes(nodes),
        g.wires_view() == loaded_wires(wires),
        g.grid_view() == loaded_grid(nodes),
    ensures
        (forall|i: int, j: int|
            0 <= i < nodes.len() && 0 <= j < nodes.len() && i != j ==> spec_world_to_grid(nodes[i].position)
                != spec_world_to_grid(nodes[j].position)) ==> g.synced(),
        (forall|j: int| 0 <= j < wires.len() ==> (#[trigger] wires[j]).src < nodes.len() && wires[j].dst < nodes.len())
            ==> g.wires_connected(),
{
    if forall|i: int, j: int|
        0 <= i < nodes.len() && 0 <= j < nodes.len() && i != j ==> spec_world_to_grid(nodes[i].position)
            != spec_world_to_grid(nodes[j].position) {
        lemma_loaded_grid_synced(nodes);
    }
    if forall|j: int| 0 <= j < wires.len() ==> (#[trigger] wires[j]).src < nodes.len() && wires[j].dst < nodes.len() {
        lemma_loaded_wire_ends(wires);
        let ln = loaded_nodes(nodes);
        assert forall|i: int| 0 <= i < g.wires_view().len() implies g.has_node(#[trigger] g.wires_view()[i].src)
            && g.has_node(g.wires_view()[i].dst) by {
            let j = choose|j: int|
                0 <= j < wires.len() && loaded_wires(wires)[i].src == NodeId(wires[j].src) && loaded_wires(wires)[i].dst
                    == NodeId(wires[j].dst);
            let s = wires[j].src as int;
            let d = wires[j].dst as int;
            assert(ln[s].id == NodeId(wires[j].src));
            assert(ln[d].id == NodeId(wires[j].dst));
        }
    }
}

/// A graph that holds what a template loads as (its nodes, wires and grid, with new
/// identifiers continuing after them and a dirty order) keeps the graph invariant.
pub proof fn lemma_loaded_graph_wf(g: Graph, nodes: Seq<NodeTemplate>, wires: Seq<WireTemplate>)
    requires
        nodes.len() <= usize::MAX,
        wires.len() <= usize::MAX,
        g.nodes_view() == loaded_nodes(nodes),
        g.wires_view() == loaded_wires(wires),
        g.grid_view() == loaded_grid(nodes),
        g.next_node() == NodeId(nodes.len() as u128),
        g.next_wire() == WireId(loaded_wires(wires).len() as u128),
        g.dirty(),
    ensures
        g.wf(),
{
    lemma_loaded_wires(wires);
    lemma_loaded_grid(nodes);
    let s = g.nodes_view();
    assert forall|a: int, b: int| 0 <= a < s.len() && 0 <= b < s.len() && a != b implies s[a].id
        != s[b].id by {
        assert(s[a].id == NodeId(a as u128));
        assert(s[b].id == NodeId(b as u128));
    }
    assert forall|k: i128| #[trigger] g.grid_view().contains_key(k) implies g.has_node(
        g.grid_view()[k],
    ) && k == cell_key(spec_world_to_grid(g.node_of(g.grid_view()[k]).position)) by {
        let m = g.grid_view()[k];
        let idx = m.0 as int;
        assert(s[idx].id == m);
        lemma_index_in(s, m, idx);
    }
}

/// Saving a graph and loading it back gives its nodes in order, the `i`-th numbered
/// `i` with a fresh instance of its gate at its position with its output, and its
/// wires in order, the `i`-th numbered `i` with its ends renumbered the same way; and
/// saving the loaded graph gives the same saved form again.
pub proof fn lemma_load_of_save(g: Graph)
    requires
        g.wf(),
        g.wires_connected(),
        g.nodes_view().len() <= usize::MAX,
        g.wires_view().len() <= usize::MAX,
    ensures
        ({
            let ns = g.nodes_view().map_values(|n: Node| node_template(n));
            let ws = g.wires_view().map_values(|w: Wire| wire_template(g.nodes_view(), w));
            &&& loaded_nodes(ns) == Seq::new(
                g.nodes_view().len(),
                |i: int|
                    Node {
                        id: NodeId(i as u128),
                        gate: GateInstance::spec_from_gate(g.nodes_view()[i].gate.spec_as_gate()),
                        ..g.nodes_view()[i]
                    },
            )
            &&& loaded_wires(ws) == Seq::new(
                g.wires_view().len(),
                |i: int| renamed_wire(g.nodes_view(), g.wires_view()[i], i),
            )
            &&& loaded_nodes(ns).map_values(|n: Node| node_template(n)) == ns
            &&& loaded_wires(ws).map_values(|w: Wire| wire_template(loaded_nodes(ns), w)) == ws
        }),
{
    let nodes = g.nodes_view();
    let wires = g.wires_view();
    let ns = nodes.map_values(|n: Node| node_template(n));
    let ws = wires.map_values(|w: Wire| wire_template(nodes, w));
    assert forall|i: int| 0 <= i < wires.len() implies contains_node(nodes, #[trigger] wires[i].src)
        && contains_node(nodes, wires[i].dst) by {
        assert(0 <= i < g.wires_view().len());
        assert(g.has_node(g.wires_view()[i].src));
        assert(g.has_node(g.wires_view()[i].dst));
    }
    lemma_loaded_saved_wires(nodes, wires, wires.len() as int);
    assert(ws.take(wires.len() as int) =~= ws);
    let ln = loaded_nodes(ns);
    assert(ln =~= Seq::new(
        nodes.len(),
        |i: int|
            Node {
                id: NodeId(i as u128),
                gate: GateInstance::spec_from_gate(nodes[i].gate.spec_as_gate()),
                ..nodes[i]
            },
    ));
    assert(ln.map_values(|n: Node| node_template(n)) =~= ns);
    let lw = loaded_wires(ws);
    assert forall|i: int| 0 <= i < lw.len() implies #[trigger] wire_template(ln, lw[i]) == ws[i] by {
        let a = index_in(nodes, wires[i].src);
        let b = index_in(nodes, wires[i].dst);
        assert(0 <= a < nodes.len() && nodes[a].id == wires[i].src);
        assert(0 <= b < nodes.len() && nodes[b].id == wires[i].dst);
        assert(unique_nodes(ln));
        assert(ln[a].id == NodeId(a as u128));
        assert(ln[b].id == NodeId(b as u128));
        lemma_index_in(ln, NodeId(a as u128), a);
        lemma_index_in(ln, NodeId(b as u128), b);
    }
    assert(lw.map_values(|w: Wire| wire_template(ln, w)) =~= ws);
}

impl Graph {
    /// The graph as saved: its nodes in order, and each wire with its two nodes named by
    /// their place in that order. Every wire must join two nodes of the graph.
    pub fn template(&self) -> (r: GraphTemplate)
        requires
            self.wf(),
            self.wires_connected(),
        ensures
            r.nodes@ == self.nodes_view().map_values(|n: Node| node_template(n)),
            r.wires@ == self.wires_view().map_values(|w: Wire| wire_template(self.nodes_view(), w)),
    {
        let mut nodes: Vec<NodeTemplate> = Vec::new();
        let mut i: usize = 0;
        while i < self.nodes.len()
            invariant
                i <= self.nodes@.len(),
                nodes@ == self.nodes@.take(i as int).map_values(|n: Node| node_template(n)),
            decreases self.nodes@.len() - i,
        {
            let n = self.nodes[i];
            nodes.push(NodeTemplate { gate: n.gate.as_gate(), position: n.position, state: n.state });
            i = i + 1;
            assert(nodes@ =~= self.nodes@.take(i as int).map_values(|n: Node| node_template(n)));
        }
        assert(self.nodes@.take(self.nodes@.len() as int) =~= self.nodes@);
        let mut wires: Vec<WireTemplate> = Vec::new();
        let mut e: usize = 0;
        while e < self.wires.len()
            invariant
                e <= self.wires@.len(),
                self.wf(),
                self.wires_connected(),
                wires@ == self.wires@.take(e as int).map_values(
                    |w: Wire| wire_template(self.nodes@, w),
                ),
            decreases self.wires@.len() - e,
        {
            let w = self.wires[e];
            assert(self.wires@[e as int] == w);
            let s = match self.index_of(w.src) {
                Some(k) => k,
                None => 0,
            };
            let d = match self.index_of(w.dst) {
                Some(k) => k,
                None => 0,
            };
            wires.push(WireTemplate { elbow: w.elbow, src: s as u128, dst: d as u128 });
            e = e + 1;
            assert(wires@ =~= self.wires@.take(e as int).map_values(
                |w: Wire| wire_template(self.nodes@, w),
            ));
        }
        assert(self.wires@.take(self.wires@.len() as int) =~= self.wires@);
        GraphTemplate { nodes, wires }
    }

    /// The graph a template loads as: the `i`-th node gets the identifier `i`, wires are
    /// numbered in order (one joining two nodes an earlier one joins is left out), each
    /// node is recorded in the grid at its cell (a later node taking the cell of an
    /// earlier one), and the evaluation order is dirty.
    pub fn from_template(id: GraphId, t: &GraphTemplate) -> (g: Graph)
        ensures
            g.wf(),
            g.graph_id() == id,
            g.nodes_view() == loaded_nodes(t.nodes@),
            g.wires_view() == loaded_wires(t.wires@),
            g.grid_view() == loaded_grid(t.nodes@),
            g.names_view() == Map::<u128, String>::empty(),
            g.dirty(),
            g.next_node() == NodeId(t.nodes@.len() as u128),
            g.next_wire() == WireId(loaded_wires(t.wires@).len() as u128),
    {
        let mut nodes: Vec<Node> = Vec::new();
        let mut grid: HashMap<i128, NodeId> = HashMap::new();
        let mut i: usize = 0;
        while i < t.nodes.len()
            invariant
                i <= t.nodes@.len(),
                nodes@ == loaded_nodes(t.nodes@.take(i as int)),
                grid@ == loaded_grid(t.nodes@.take(i as int)),
            decreases t.nodes@.len() - i,
        {
            let nt = t.nodes[i];
            let id = NodeId(i as u128);
            nodes.push(Node::new(id, nt.gate, nt.position, nt.state));
            grid.insert(key_of(Graph::world_to_grid(nt.position)), id);
            proof {
                assert(t.nodes@.take(i + 1).drop_last() =~= t.nodes@.take(i as int));
            }
            i = i + 1;
            assert(nodes@ =~= loaded_nodes(t.nodes@.take(i as int)));
        }
        assert(t.nodes@.take(t.nodes@.len() as int) =~= t.nodes@);
        let mut wires: Vec<Wire> = Vec::new();
        let mut e: usize = 0;
        while e < t.wires.len()
            invariant
                e <= t.wires@.len(),
                wires@ == loaded_wires(t.wires@.take(e as int)),
            decreases t.wires@.len() - e,
        {
            proof {
                assert(t.wires@.take(e + 1).drop_last() =~= t.wires@.take(e as int));
                lemma_loaded_wires(t.wires@.take(e as int));
            }
            let wt = t.wires[e];
            let src = NodeId(wt.src);
            let dst = NodeId(wt.dst);
            let mut found = false;
            let mut k: usize = 0;
            while k < wires.len()
                invariant
                    k <= wires@.len(),
                    !found ==> forall|a: int| 0 <= a < k ==> !(wires@[a].src == src && wires@[a].dst == dst),
                    found ==> wire_between(wires@, src, dst),
                decreases wires@.len() - k,
            {
                if wires[k].src == src && wires[k].dst == dst {
                    found = true;
                }
                k = k + 1;
            }
            if !found {
                let n = wires.len();
                wires.push(Wire { id: WireId(n as u128), elbow: wt.elbow, src, dst });
            }
            e = e + 1;
        }
        assert(t.wires@.take(t.wires@.len() as int) =~= t.wires@);
        proof {
            lemma_loaded_wires(t.wires@);
        }
        let next_wire = WireId(wires.len() as u128);
        let g = Graph {
            id,
            next_node_id: NodeId(t.nodes.len() as u128),
            next_wire_id: next_wire,
            nodes,
            wires,
            node_grid: grid,
            named_nodes: HashMap::new(),
            eval_order: Vec::new(),
            eval_order_dict: HashMap::new(),
            is_eval_order_dirty: true,
        };
        proof {
            lemma_loaded_graph_wf(g, t.nodes@, t.wires@);
        }
        g
    }
}

/// The graphs that are open, each under its own identifier.
#[derive(Debug)]
pub struct GraphList {
    graphs: Vec<Graph>,
    next_graph_id: GraphId,
}

impl GraphList {
    /// The graphs, in the order they were added.
    pub closed spec fn graphs_view(&self) -> Seq<Graph> {
        self.graphs@
    }

    /// The identifier the next created graph gets.
    pub closed spec fn next_id(&self) -> GraphId {
        self.next_graph_id
    }

    /// The graph `id` is in the list.
    pub open spec fn has_graph(&self, id: GraphId) -> bool {
        exists|i: int| 0 <= i < self.graphs_view().len() && self.graphs_view()[i].graph_id() == id
    }

    /// Every graph is well formed, and the identifiers differ and lie below the next one.
    pub open spec fn wf(&self) -> bool {
        &&& forall|i: int| 0 <= i < self.graphs_view().len() ==> (#[trigger] self.graphs_view()[i]).wf()
        &&& forall|i: int, j: int|
            0 <= i < self.graphs_view().len() && 0 <= j < self.graphs_view().len() && i != j
                ==> (#[trigger] self.graphs_view()[i]).graph_id() != (
            #[trigger] self.graphs_view()[j]).graph_id()
        &&& forall|i: int|
            0 <= i < self.graphs_view().len() ==> (#[trigger] self.graphs_view()[i]).graph_id().0
                < self.next_id().0
    }

    /// An empty list.
    pub fn new() -> (r: GraphList)
        ensures
            r.wf(),
            r.graphs_view() == Seq::<Graph>::empty(),
            r.next_id() == GraphId(0),
    {
        GraphList { graphs: Vec::new(), next_graph_id: GraphId(0) }
    }

    /// The default list is empty.
    pub fn default() -> (r: GraphList)
        ensures
            r.wf(),
            r.graphs_view() == Seq::<Graph>::empty(),
            r.next_id() == GraphId(0),
    {
        GraphList::new()
    }

    /// Adds an empty graph under the next identifier and returns that identifier; there
    /// must be one left.
    pub fn create_graph(&mut self) -> (r: GraphId)
        requires
            old(self).wf(),
            old(self).next_id().0 < u32::MAX,
        ensures
            final(self).wf(),
            r == old(self).next_id(),
            final(self).next_id() == GraphId((r.0 + 1) as u32),
            final(self).graphs_view().len() == old(self).graphs_view().len() + 1,
            final(self).graphs_view().drop_last() == old(self).graphs_view(),
            final(self).graphs_view().last().graph_id() == r,
            final(self).graphs_view().last().nodes_view() == Seq::<Node>::empty(),
            final(self).graphs_view().last().wires_view() == Seq::<Wire>::empty(),
    {
        let id = self.next_graph_id;
        self.next_graph_id = GraphId(id.0 + 1);
        self.graphs.push(Graph::new(id));
        proof {
            let s = self.graphs@;
            assert(s.drop_last() =~= old(self).graphs@);
            assert forall|i: int| 0 <= i < s.len() implies (#[trigger] s[i]).wf() by {
                if i < s.len() - 1 {
                    assert(s[i] == old(self).graphs_view()[i]);
                    assert(old(self).graphs_view()[i].wf());
                }
            }
            assert forall|i: int, j: int|
                0 <= i < s.len() && 0 <= j < s.len() && i != j implies (#[trigger] s[i]).graph_id()
                != (#[trigger] s[j]).graph_id() by {
                if i < s.len() - 1 {
                    assert(s[i] == old(self).graphs_view()[i]);
                    assert(old(self).graphs_view()[i].graph_id().0 < id.0);
                }
                if j < s.len() - 1 {
                    assert(s[j] == old(self).graphs_view()[j]);
                    assert(old(self).graphs_view()[j].graph_id().0 < id.0);
                }
                if i < s.len() - 1 && j < s.len() - 1 {
                    assert(old(self).graphs_view()[i].graph_id() != old(self).graphs_view()[j].graph_id());
                }
            }
            assert forall|i: int| 0 <= i < s.len() implies (#[trigger] s[i]).graph_id().0
                < self.next_graph_id.0 by {
                if i < s.len() - 1 {
                    assert(s[i] == old(self).graphs_view()[i]);
                    assert(old(self).graphs_view()[i].graph_id().0 < id.0);
                }
            }
        }
        id
    }

    /// The graphs, in the order they were added.
    pub fn graphs(&self) -> (r: &[Graph])
        ensures
            r@ == self.graphs_view(),
    {
        self.graphs.as_slice()
    }

    /// The graph `id`, if the list holds it.
    pub fn get(&self, id: &GraphId) -> (r: Option<&Graph>)
        requires
            self.wf(),
        ensures
            self.has_graph(*id) ==> r is Some && r.unwrap().graph_id() == *id && self.graphs_view().contains(
                *r.unwrap(),
            ),
            !self.has_graph(*id) ==> r is None,
    {
        let mut i: usize = 0;
        while i < self.graphs.len()
            invariant
                i <= self.graphs@.len(),
                forall|k: int| 0 <= k < i ==> self.graphs@[k].graph_id() != *id,
            decreases self.graphs@.len() - i,
        {
            if self.graphs[i].id == *id {
                assert(self.graphs@[i as int].graph_id() == *id);
                return Some(&self.graphs[i]);
            }
            i = i + 1;
        }
        None
    }

    /// A list of graphs loaded from `templates`, which get the identifiers `0`, `1`, ...
    /// in order; there must be fewer of them than identifiers.
    pub fn from_templates(templates: &Vec<GraphTemplate>) -> (r: GraphList)
        requires
            templates@.len() < u32::MAX,
        ensures
            r.wf(),
            r.graphs_view().len() == templates@.len(),
            r.next_id() == GraphId(templates@.len() as u32),
            forall|i: int|
                0 <= i < templates@.len() ==> (#[trigger] r.graphs_view()[i]).graph_id() == GraphId(
                    i as u32,
                ) && r.graphs_view()[i].nodes_view() == loaded_nodes(templates@[i].nodes@)
                    && r.graphs_view()[i].wires_view() == loaded_wires(templates@[i].wires@),
    {
        let mut graphs: Vec<Graph> = Vec::new();
        let mut i: usize = 0;
        while i < templates.len()
            invariant
                i <= templates@.len(),
                templates@.len() < u32::MAX,
                graphs@.len() == i,
                forall|k: int|
                    0 <= k < i ==> (#[trigger] graphs@[k]).wf() && graphs@[k].graph_id() == GraphId(
                        k as u32,
                    ) && graphs@[k].nodes_view() == loaded_nodes(templates@[k].nodes@)
                        && graphs@[k].wires_view() == loaded_wires(templates@[k].wires@),
            decreases templates@.len() - i,
        {
            let g = Graph::from_template(GraphId(i as u32), &templates[i]);
            graphs.push(g);
            i = i + 1;
        }
        let r = GraphList { graphs, next_graph_id: GraphId(templates.len() as u32) };
        proof {
            assert forall|a: int, b: int|
                0 <= a < r.graphs@.len() && 0 <= b < r.graphs@.len() && a != b implies (
                #[trigger] r.graphs@[a]).graph_id() != (#[trigger] r.graphs@[b]).graph_id() by {
                assert(r.graphs@[a].graph_id() == GraphId(a as u32));
                assert(r.graphs@[b].graph_id() == GraphId(b as u32));
            }
        }
        r
    }

    /// Each graph as saved, in order; every wire of every graph must join two nodes of
    /// its graph.
    pub fn templates(&self) -> (r: Vec<GraphTemplate>)
        requires
            self.wf(),
            forall|i: int| 0 <= i < self.graphs_view().len() ==> (#[trigger] self.graphs_view()[i]).wires_connected(),
        ensures
            r@.len() == self.graphs_view().len(),
            forall|i: int|
                0 <= i < r@.len() ==> (#[trigger] r@[i]).nodes@ == self.graphs_view()[i].nodes_view().map_values(
                    |n: Node| node_template(n),
                ) && r@[i].wires@ == self.graphs_view()[i].wires_view().map_values(
                    |w: Wire| wire_template(self.graphs_view()[i].nodes_view(), w),
                ),
    {
        let mut r: Vec<GraphTemplate> = Vec::new();
        let mut i: usize = 0;
        while i < self.graphs.len()
            invariant
                i <= self.graphs@.len(),
                self.wf(),
                forall|k: int| 0 <= k < self.graphs_view().len() ==> (#[trigger] self.graphs_view()[k]).wires_connected(),
                r@.len() == i,
                forall|k: int|
                    0 <= k < i ==> (#[trigger] r@[k]).nodes@ == self.graphs@[k].nodes_view().map_values(
                        |n: Node| node_template(n),
                    ) && r@[k].wires@ == self.graphs@[k].wires_view().map_values(
                        |w: Wire| wire_template(self.graphs@[k].nodes_view(), w),
                    ),
            decreases self.graphs@.len() - i,
        {
            assert(self.graphs_view()[i as int].wf());
            assert(self.graphs_view()[i as int].wires_connected());
            let t = self.graphs[i].template();
            r.push(t);
            i = i + 1;
        }
        r
    }
}

} // verus!
