//! Blueprints: a set of nodes and the wires between them, to be placed into a graph.
use super::{cell_key, spec_world_to_grid, wire_between, Elbow, Graph, Node, Wire};
use crate::gate::Gate;
use crate::ids::{NodeId, WireId};
use crate::ivec::{ivec, IVec2};
use vstd::prelude::*;

verus! {

/// A wire of a blueprint, between two of its nodes given by their place in the list.
#[derive(Debug, Clone, Copy, PartialEq, Eq, Structural)]
pub struct WireBP {
    pub elbow: Elbow,
    pub src: u32,
    pub dst: u32,
}

/// A node of a blueprint.
#[derive(Debug)]
pub struct NodeBP {
    /// Shown as a tooltip.
    pub name: Option<String>,
    pub state: bool,
    pub gate: Gate,
    pub position: (i32, i32),
}

/// Nodes, and wires between them.
#[derive(Debug)]
pub struct Blueprint {
    pub nodes: Vec<NodeBP>,
    pub wires: Vec<WireBP>,
}

/// The world position of a blueprint node.
pub open spec fn bp_position(bp: NodeBP) -> IVec2 {
    ivec(bp.position.0 as int, bp.position.1 as int)
}

/// Placing the nodes `bps` one after another into a graph with `nodes`, `grid` and next
/// node number `next`: a node whose cell is taken is left out. Gives the new nodes,
/// grid and next number, and for each blueprint node the identifier it got, if any.
pub open spec fn place_nodes(
    nodes: Seq<Node>,
    grid: Map<i128, NodeId>,
    next: u128,
    bps: Seq<NodeBP>,
) -> (Seq<Node>, Map<i128, NodeId>, u128, Seq<Option<NodeId>>)
    decreases bps.len(),
{
    if bps.len() == 0 {
        (nodes, grid, next, Seq::empty())
    } else {
        let (n, g, nx, ids) = place_nodes(nodes, grid, next, bps.drop_last());
        let bp = bps.last();
        let key = cell_key(spec_world_to_grid(bp_position(bp)));
        if g.contains_key(key) {
            (n, g, nx, ids.push(None))
        } else {
            (
                n.push(Node::new_spec(NodeId(nx), bp.gate, bp_position(bp))),
                g.insert(key, NodeId(nx)),
                (nx + 1) as u128,
                ids.push(Some(NodeId(nx))),
            )
        }
    }
}

/// Placing the wires `bps` one after another into `wires`, with next wire number `next`,
/// between the nodes `ids` gave: a wire whose ends were not both placed, or that joins
/// two nodes already joined, is left out.
pub open spec fn place_wires(
    wires: Seq<Wire>,
    next: u128,
    ids: Seq<Option<NodeId>>,
    bps: Seq<WireBP>,
) -> (Seq<Wire>, u128)
    decreases bps.len(),
{
    if bps.len() == 0 {
        (wires, next)
    } else {
        let (w, nx) = place_wires(wires, next, ids, bps.drop_last());
        let bp = bps.last();
        match (ids[bp.src as int], ids[bp.dst as int]) {
            (Some(s), Some(d)) => if wire_between(w, s, d) {
                (w, nx)
            } else {
                (w.push(Wire { id: WireId(nx), elbow: bp.elbow, src: s, dst: d }), (nx + 1) as u128)
            },
            _ => (w, nx),
        }
    }
}

/// Placing stops at most one number further on per item.
proof fn lemma_place_nodes_next(nodes: Seq<Node>, grid: Map<i128, NodeId>, next: u128, bps: Seq<NodeBP>)
    requires
        next + bps.len() < u128::MAX,
    ensures
        next <= place_nodes(nodes, grid, next, bps).2 <= next + bps.len(),
        place_nodes(nodes, grid, next, bps).3.len() == bps.len(),
    decreases bps.len(),
{
    if bps.len() > 0 {
        lemma_place_nodes_next(nodes, grid, next, bps.drop_last());
    }
}

proof fn lemma_place_wires_next(wires: Seq<Wire>, next: u128, ids: Seq<Option<NodeId>>, bps: Seq<WireBP>)
    requires
        next + bps.len() < u128::MAX,
    ensures
        next <= place_wires(wires, next, ids, bps).1 <= next + bps.len(),
    decreases bps.len(),
{
    if bps.len() > 0 {
        lemma_place_wires_next(wires, next, ids, bps.drop_last());
    }
}

impl Graph {
    /// Places a blueprint: each of its nodes is created where its cell is free (others
    /// are left out), then each of its wires is created between the nodes it names, when
    /// both were created and are not yet joined. Wires must name nodes of the blueprint,
    /// two different ones, and there must be numbers enough for the new nodes and wires.
    pub fn place_blueprint(&mut self, blueprint: &Blueprint)
        requires
            old(self).wf(),
            old(self).next_node().0 + blueprint.nodes@.len() < u128::MAX,
            old(self).next_wire().0 + blueprint.wires@.len() < u128::MAX,
            forall|k: int|
                0 <= k < blueprint.wires@.len() ==> (#[trigger] blueprint.wires@[k]).src
                    < blueprint.nodes@.len() && blueprint.wires@[k].dst < blueprint.nodes@.len()
                    && blueprint.wires@[k].src != blueprint.wires@[k].dst,
        ensures
            final(self).wf(),
            ({
                let (n, g, nx, ids) = place_nodes(
                    old(self).nodes_view(),
                    old(self).grid_view(),
                    old(self).next_node().0,
                    blueprint.nodes@,
                );
                let (w, wx) = place_wires(
                    old(self).wires_view(),
                    old(self).next_wire().0,
                    ids,
                    blueprint.wires@,
                );
                &&& final(self).nodes_view() == n
                &&& final(self).grid_view() == g
                &&& final(self).next_node() == NodeId(nx)
                &&& final(self).wires_view() == w
                &&& final(self).next_wire() == WireId(wx)
            }),
            final(self).names_view() == old(self).names_view(),
            final(self).graph_id() == old(self).graph_id(),
            final(self).dirty() == (old(self).dirty() || final(self).nodes_view()
                != old(self).nodes_view() || final(self).wires_view() != old(self).wires_view()),
    {
        let ghost g0 = *self;
        let mut ids: Vec<Option<NodeId>> = Vec::new();
        let mut i: usize = 0;
        while i < blueprint.nodes.len()
            invariant
                i <= blueprint.nodes@.len(),
                self.wf(),
                g0.wf(),
                g0.next_node().0 + blueprint.nodes@.len() < u128::MAX,
                ({
                    let (n, g, nx, ids2) = place_nodes(
                        g0.nodes_view(),
                        g0.grid_view(),
                        g0.next_node().0,
                        blueprint.nodes@.take(i as int),
                    );
                    &&& self.nodes_view() == n
                    &&& self.grid_view() == g
                    &&& self.next_node() == NodeId(nx)
                    &&& ids@ == ids2
                }),
                self.wires_view() == g0.wires_view(),
                self.next_wire() == g0.next_wire(),
                self.names_view() == g0.names_view(),
                self.graph_id() == g0.graph_id(),
                self.dirty() == (g0.dirty() || self.nodes_view() != g0.nodes_view()),
                self.nodes_view().len() >= g0.nodes_view().len(),
                g0.next_node().0 <= self.next_node().0,
                forall|a: int|
                    0 <= a < ids@.len() && (#[trigger] ids@[a]) is Some ==> g0.next_node().0
                        <= ids@[a].unwrap().0 < self.next_node().0,
                forall|a: int, b: int|
                    0 <= a < ids@.len() && 0 <= b < ids@.len() && a != b && ids@[a] is Some
                        && ids@[b] is Some ==> ids@[a] != ids@[b],
            decreases blueprint.nodes@.len() - i,
        {
            let ghost prev = *self;
            proof {
                assert(blueprint.nodes@.take(i + 1).drop_last() =~= blueprint.nodes@.take(i as int));
                lemma_place_nodes_next(
                    g0.nodes_view(),
                    g0.grid_view(),
                    g0.next_node().0,
                    blueprint.nodes@.take(i as int),
                );
            }
            let bp = &blueprint.nodes[i];
            let (x, y) = bp.position;
            match self.create_node(bp.gate, IVec2::new(x, y)) {
                Ok(id) => {
                    ids.push(Some(id));
                    proof {
                        assert(self.nodes_view().len() == prev.nodes_view().len() + 1);
                    }
                },
                Err(_) => {
                    ids.push(None);
                },
            }
            i = i + 1;
        }
        proof {
            assert(blueprint.nodes@.take(blueprint.nodes@.len() as int) =~= blueprint.nodes@);
            lemma_place_nodes_next(
                g0.nodes_view(),
                g0.grid_view(),
                g0.next_node().0,
                blueprint.nodes@,
            );
        }
        let ghost g1 = *self;
        let mut j: usize = 0;
        while j < blueprint.wires.len()
            invariant
                j <= blueprint.wires@.len(),
                self.wf(),
                g1.wf(),
                ids@.len() == blueprint.nodes@.len(),
                g1.next_wire().0 + blueprint.wires@.len() < u128::MAX,
                forall|k: int|
                    0 <= k < blueprint.wires@.len() ==> (#[trigger] blueprint.wires@[k]).src
                        < blueprint.nodes@.len() && blueprint.wires@[k].dst < blueprint.nodes@.len()
                        && blueprint.wires@[k].src != blueprint.wires@[k].dst,
                forall|a: int, b: int|
                    0 <= a < ids@.len() && 0 <= b < ids@.len() && a != b && ids@[a] is Some
                        && ids@[b] is Some ==> ids@[a] != ids@[b],
                ({
                    let (w, wx) = place_wires(
                        g1.wires_view(),
                        g1.next_wire().0,
                        ids@,
                        blueprint.wires@.take(j as int),
                    );
                    &&& self.wires_view() == w
                    &&& self.next_wire() == WireId(wx)
                }),
                self.nodes_view() == g1.nodes_view(),
                self.grid_view() == g1.grid_view(),
                self.next_node() == g1.next_node(),
                self.names_view() == g1.names_view(),
                self.graph_id() == g1.graph_id(),
                self.dirty() == (g1.dirty() || self.wires_view() != g1.wires_view()),
                self.wires_view().len() >= g1.wires_view().len(),
            decreases blueprint.wires@.len() - j,
        {
            proof {
                assert(blueprint.wires@.take(j + 1).drop_last() =~= blueprint.wires@.take(j as int));
                lemma_place_wires_next(
                    g1.wires_view(),
                    g1.next_wire().0,
                    ids@,
                    blueprint.wires@.take(j as int),
                );
            }
            let wbp = blueprint.wires[j];
            assert(blueprint.wires@[j as int] == wbp);
            let s = ids[wbp.src as usize];
            let d = ids[wbp.dst as usize];
            match (s, d) {
                (Some(src), Some(dst)) => {
                    let ghost prev = *self;
                    let r = self.create_wire(wbp.elbow, src, dst);
                    proof {
                        if r is Ok {
                            assert(self.wires_view().len() == prev.wires_view().len() + 1);
                        }
                    }
                },
                _ => {},
            }
            j = j + 1;
        }
        proof {
            assert(blueprint.wires@.take(blueprint.wires@.len() as int) =~= blueprint.wires@);
        }
    }
}

} // verus!
