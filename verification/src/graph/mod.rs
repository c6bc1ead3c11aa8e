//! The circuit graph: nodes (placed gates) on a grid, wires between them, the
//! order in which nodes are evaluated, and one tick of evaluation.
use crate::gate::{count_true, Gate, GateInstance};
use crate::ids::{GraphId, NodeId, OutOfIDsError, WireId};
use crate::ivec::{fits, ivec, trunc_div, IVec2};
use std::collections::HashMap;
use vstd::prelude::*;

pub mod blueprint;
pub mod order;
pub mod query;
pub mod template;

verus! {

broadcast use vstd::std_specs::hash::group_hash_axioms;

/// The side of a grid cell in world units.
pub const GRID_SIZE: i32 = 8;

/// Where a wire bends between its two ends.
#[derive(Debug, Clone, Copy, PartialEq, Eq, Structural, Hash)]
pub enum Elbow {
    Horizontal,
    DiagonalStart,
    Vertical,
    DiagonalEnd,
}

impl Elbow {
    /// The default bend is `DiagonalEnd`.
    pub fn default() -> (r: Elbow)
        ensures
            r == Elbow::DiagonalEnd,
    {
        Elbow::DiagonalEnd
    }
}

/// How a wire touches a node: it enters it, leaves it, or both.
#[derive(Debug, Clone, Copy, PartialEq, Eq, Structural, Hash)]
pub enum Flow {
    Input,
    Output,
    Loop,
}

impl Flow {
    /// The wire enters the node.
    pub fn is_input(self) -> (r: bool)
        ensures
            r == (self == Flow::Input || self == Flow::Loop),
    {
        match self {
            Flow::Input | Flow::Loop => true,
            Flow::Output => false,
        }
    }

    /// The wire leaves the node.
    pub fn is_output(self) -> (r: bool)
        ensures
            r == (self == Flow::Output || self == Flow::Loop),
    {
        match self {
            Flow::Output | Flow::Loop => true,
            Flow::Input => false,
        }
    }
}

/// A wire from the node `src` to the node `dst`.
#[derive(Debug, Clone, Copy, PartialEq, Eq, Structural, Hash)]
pub struct Wire {
    pub id: WireId,
    pub elbow: Elbow,
    pub src: NodeId,
    pub dst: NodeId,
}

impl Wire {
    /// The wire `id` from `src` to `dst`.
    pub fn new(id: WireId, elbow: Elbow, src: NodeId, dst: NodeId) -> (r: Wire)
        ensures
            r == (Wire { id, elbow, src, dst }),
    {
        Wire { id, elbow, src, dst }
    }

    /// The wire's identifier.
    pub fn id(&self) -> (r: &WireId)
        ensures
            *r == self.id,
    {
        &self.id
    }

    /// The node the wire leaves.
    pub fn src(&self) -> (r: &NodeId)
        ensures
            *r == self.src,
    {
        &self.src
    }

    /// The node the wire enters.
    pub fn dst(&self) -> (r: &NodeId)
        ensures
            *r == self.dst,
    {
        &self.dst
    }

    /// The two nodes of the wire in `graph`; an error if either is not there.
    pub fn nodes<'a>(&self, graph: &'a Graph) -> (r: Result<(&'a Node, &'a Node), NotOfGraphError>)
        requires
            graph.wf(),
        ensures
            graph.has_node(self.src) && graph.has_node(self.dst) ==> r == Ok::<
                (&Node, &Node),
                NotOfGraphError,
            >((&graph.node_of(self.src), &graph.node_of(self.dst))),
            !(graph.has_node(self.src) && graph.has_node(self.dst)) ==> r is Err,
    {
        graph.get_wire_nodes(self)
    }
}

/// A gate placed at a position in a graph, with its current output.
#[derive(Debug, Clone, Copy, PartialEq, Eq, Structural, Hash)]
pub struct Node {
    pub state: bool,
    pub id: NodeId,
    pub gate: GateInstance,
    pub position: IVec2,
}

impl Node {
    /// A node `id` holding a fresh instance of `gate` at `position`.
    pub fn new(id: NodeId, gate: Gate, position: IVec2, state: bool) -> (r: Node)
        ensures
            r == (Node { state, id, gate: GateInstance::spec_from_gate(gate), position }),
    {
        Node { state, id, gate: GateInstance::from_gate(gate), position }
    }

    /// The node's identifier.
    pub fn id(&self) -> (r: &NodeId)
        ensures
            *r == self.id,
    {
        &self.id
    }

    /// The node's current output.
    pub fn state(&self) -> (r: bool)
        ensures
            r == self.state,
    {
        self.state
    }

    /// The node's position in world units.
    pub fn position(&self) -> (r: IVec2)
        ensures
            r == self.position,
    {
        self.position
    }

    /// The node's gate.
    pub fn gate(&self) -> (r: &GateInstance)
        ensures
            *r == self.gate,
    {
        &self.gate
    }

    /// The node's gate, to be changed in place.
    pub fn gate_mut(&mut self) -> (r: &mut GateInstance)
        ensures
            *r == old(self).gate,
            *final(self) == (Node { gate: *final(r), ..*old(self) }),
    {
        &mut self.gate
    }
}

/// The identifier does not name an element of this graph.
#[derive(Debug, Clone, Copy, PartialEq, Eq, Structural)]
pub struct NotOfGraphError;

/// The grid and the nodes no longer agree on where a node is.
#[derive(Debug, Clone, Copy, PartialEq, Eq, Structural)]
pub struct NodeGridDesyncError;

/// The graph already holds a matching element; it is carried in the error.
#[derive(Debug, PartialEq, Eq)]
pub struct AlreadyExistsError<T>(pub T);

/// The grid cell that a world position falls in: each coordinate divided by
/// [`GRID_SIZE`] and rounded toward zero.
pub open spec fn spec_world_to_grid(p: IVec2) -> IVec2 {
    ivec(trunc_div(p.x as int, GRID_SIZE as int), trunc_div(p.y as int, GRID_SIZE as int))
}

/// The key under which the grid keeps a cell: one integer per cell.
pub open spec fn cell_key(c: IVec2) -> i128 {
    (c.x * 4294967296 + c.y) as i128
}

/// Different cells have different keys.
pub proof fn lemma_cell_key_injective(a: IVec2, b: IVec2)
    ensures
        cell_key(a) == cell_key(b) ==> a == b,
{
}

fn key_of(c: IVec2) -> (k: i128)
    ensures
        k == cell_key(c),
{
    (c.x as i128) * 4294967296 + (c.y as i128)
}

/// Every node of `nodes` is recorded in `grid`, at its own cell.
pub open spec fn grid_synced(nodes: Seq<Node>, grid: Map<i128, NodeId>) -> bool {
    forall|i: int|
        0 <= i < nodes.len() ==> grid.contains_key(
            cell_key(spec_world_to_grid((#[trigger] nodes[i]).position)),
        ) && grid[cell_key(spec_world_to_grid(nodes[i].position))] == nodes[i].id
}

/// Adding a node at a cell the grid does not hold, and recording it there, keeps every
/// node recorded at its cell.
proof fn lemma_synced_push(nodes: Seq<Node>, grid: Map<i128, NodeId>, node: Node)
    requires
        grid_synced(nodes, grid),
        !grid.contains_key(cell_key(spec_world_to_grid(node.position))),
    ensures
        grid_synced(nodes.push(node), grid.insert(cell_key(spec_world_to_grid(node.position)), node.id)),
{
    let s = nodes.push(node);
    assert forall|i: int| 0 <= i < s.len() implies grid.insert(cell_key(spec_world_to_grid(node.position)), node.id).contains_key(
        cell_key(spec_world_to_grid((#[trigger] s[i]).position)),
    ) && grid.insert(cell_key(spec_world_to_grid(node.position)), node.id)[cell_key(spec_world_to_grid(s[i].position))] == s[i].id by {
        if i < nodes.len() {
            assert(s[i] == nodes[i]);
        }
    }
}

/// In a graph where every node is recorded at its cell, two nodes never share a cell.
proof fn lemma_synced_cells_differ(nodes: Seq<Node>, grid: Map<i128, NodeId>, i: int, j: int)
    requires
        grid_synced(nodes, grid),
        unique_nodes(nodes),
        0 <= i < nodes.len(),
        0 <= j < nodes.len(),
        i != j,
    ensures
        cell_key(spec_world_to_grid(nodes[i].position)) != cell_key(spec_world_to_grid(nodes[j].position)),
{
    assert(nodes[i].id != nodes[j].id);
}

/// Taking a node out, and its cell out of the grid, keeps every node recorded at its cell.
proof fn lemma_synced_remove(nodes: Seq<Node>, grid: Map<i128, NodeId>, i: int)
    requires
        grid_synced(nodes, grid),
        unique_nodes(nodes),
        0 <= i < nodes.len(),
    ensures
        grid_synced(nodes.remove(i), grid.remove(cell_key(spec_world_to_grid(nodes[i].position)))),
{
    let s = nodes.remove(i);
    let g2 = grid.remove(cell_key(spec_world_to_grid(nodes[i].position)));
    assert forall|a: int| 0 <= a < s.len() implies g2.contains_key(
        cell_key(spec_world_to_grid((#[trigger] s[a]).position)),
    ) && g2[cell_key(spec_world_to_grid(s[a].position))] == s[a].id by {
        let oa = if a < i { a } else { a + 1 };
        assert(s[a] == nodes[oa]);
        lemma_synced_cells_differ(nodes, grid, oa, i);
    }
}

/// Moving a node to a cell the grid does not hold, and recording the move, keeps every
/// node recorded at its cell.
proof fn lemma_synced_move(nodes: Seq<Node>, grid: Map<i128, NodeId>, i: int, moved: Node)
    requires
        grid_synced(nodes, grid),
        unique_nodes(nodes),
        0 <= i < nodes.len(),
        moved.id == nodes[i].id,
        !grid.contains_key(cell_key(spec_world_to_grid(moved.position))),
    ensures
        grid_synced(
            nodes.update(i, moved),
            grid.remove(cell_key(spec_world_to_grid(nodes[i].position))).insert(
                cell_key(spec_world_to_grid(moved.position)),
                moved.id,
            ),
        ),
{
    let s = nodes.update(i, moved);
    let g2 = grid.remove(cell_key(spec_world_to_grid(nodes[i].position))).insert(
        cell_key(spec_world_to_grid(moved.position)),
        moved.id,
    );
    assert forall|a: int| 0 <= a < s.len() implies g2.contains_key(
        cell_key(spec_world_to_grid((#[trigger] s[a]).position)),
    ) && g2[cell_key(spec_world_to_grid(s[a].position))] == s[a].id by {
        if a != i {
            assert(s[a] == nodes[a]);
            lemma_synced_cells_differ(nodes, grid, a, i);
            assert(grid.contains_key(cell_key(spec_world_to_grid(nodes[a].position))));
        }
    }
}

/// The first index of the wire from `src` to `dst`, if there is one.
pub open spec fn wire_between(s: Seq<Wire>, src: NodeId, dst: NodeId) -> bool {
    exists|i: int| 0 <= i < s.len() && s[i].src == src && s[i].dst == dst
}

/// The nodes `s` have distinct identifiers.
pub open spec fn unique_nodes(s: Seq<Node>) -> bool {
    forall|i: int, j: int| 0 <= i < s.len() && 0 <= j < s.len() && i != j ==> s[i].id != s[j].id
}

/// The wires `s` have distinct identifiers and no two join the same pair of nodes.
pub open spec fn unique_wires(s: Seq<Wire>) -> bool {
    &&& forall|i: int, j: int|
        0 <= i < s.len() && 0 <= j < s.len() && i != j ==> s[i].id != s[j].id
    &&& forall|i: int, j: int|
        0 <= i < s.len() && 0 <= j < s.len() && i != j ==> !(s[i].src == s[j].src && s[i].dst
            == s[j].dst)
}

/// Some node of `s` has identifier `id`.
pub open spec fn contains_node(s: Seq<Node>, id: NodeId) -> bool {
    exists|i: int| 0 <= i < s.len() && s[i].id == id
}

/// The index of the node `id` in `s`.
pub open spec fn index_in(s: Seq<Node>, id: NodeId) -> int {
    choose|i: int| 0 <= i < s.len() && s[i].id == id
}

/// Some wire of `s` has identifier `id`.
pub open spec fn contains_wire(s: Seq<Wire>, id: WireId) -> bool {
    exists|i: int| 0 <= i < s.len() && s[i].id == id
}

/// The index of the wire `id` in `s`.
pub open spec fn wire_index_in(s: Seq<Wire>, id: WireId) -> int {
    choose|i: int| 0 <= i < s.len() && s[i].id == id
}

/// `order` lists each node of `nodes` exactly once and nothing else.
pub open spec fn is_permutation_of_nodes(order: Seq<NodeId>, nodes: Seq<Node>) -> bool {
    &&& order.len() == nodes.len()
    &&& order.no_duplicates()
    &&& forall|i: int| 0 <= i < order.len() ==> contains_node(nodes, #[trigger] order[i])
    &&& forall|i: int| 0 <= i < nodes.len() ==> order.contains(#[trigger] nodes[i].id)
}

/// The node at index `i` is the one `index_in` finds for its identifier.
pub proof fn lemma_index_in(s: Seq<Node>, id: NodeId, i: int)
    requires
        unique_nodes(s),
        0 <= i < s.len(),
        s[i].id == id,
    ensures
        contains_node(s, id),
        index_in(s, id) == i,
{
    assert(contains_node(s, id));
    let j = index_in(s, id);
    assert(s[j].id == s[i].id);
}

/// Replacing a node by one with the same identifier keeps every lookup by identifier
/// pointing at the same index.
proof fn lemma_same_ids_wf(a: Seq<Node>, b: Seq<Node>, i: int)
    requires
        unique_nodes(a),
        0 <= i < a.len(),
        b.len() == a.len(),
        forall|k: int| 0 <= k < a.len() && k != i ==> b[k] == a[k],
        b[i].id == a[i].id,
    ensures
        unique_nodes(b),
        forall|k: int| 0 <= k < b.len() ==> (#[trigger] b[k]).id == a[k].id,
        forall|m: NodeId| contains_node(a, m) == contains_node(b, m),
        forall|m: NodeId| contains_node(a, m) ==> index_in(b, m) == index_in(a, m),
{
    assert forall|k: int| 0 <= k < b.len() implies (#[trigger] b[k]).id == a[k].id by {
        if k != i {
            assert(b[k] == a[k]);
        }
    }
    assert forall|m: NodeId| contains_node(a, m) == contains_node(b, m) by {
        if contains_node(a, m) {
            let k = index_in(a, m);
            assert(b[k].id == m);
        }
        if contains_node(b, m) {
            let k = index_in(b, m);
            assert(a[k].id == m);
        }
    }
    assert forall|m: NodeId| contains_node(a, m) implies index_in(b, m) == index_in(a, m) by {
        let k = index_in(a, m);
        assert(b[k].id == m);
        lemma_index_in(b, m, k);
    }
}

/// Destroying the wire just created gives back the wires as they were: when `w` has an
/// identifier none of `wires` has, removing the wire with that identifier from
/// `wires` with `w` added at the end leaves `wires`.
pub proof fn lemma_destroy_wire_undoes_create_wire(wires: Seq<Wire>, w: Wire)
    requires
        forall|i: int| 0 <= i < wires.len() ==> (#[trigger] wires[i]).id != w.id,
    ensures
        contains_wire(wires.push(w), w.id),
        wires.push(w).remove(wire_index_in(wires.push(w), w.id)) == wires,
{
    let s = wires.push(w);
    assert(s[wires.len() as int].id == w.id);
    let j = wire_index_in(s, w.id);
    if j < wires.len() {
        assert(s[j] == wires[j]);
    }
    assert(j == wires.len());
    assert(s.remove(j) =~= wires);
}

/// Keeping some of a list of distinct wires keeps them distinct and takes nothing new.
proof fn lemma_filter_unique_wires(s: Seq<Wire>, pred: spec_fn(Wire) -> bool)
    requires
        unique_wires(s),
    ensures
        unique_wires(s.filter(pred)),
        forall|i: int| 0 <= i < s.filter(pred).len() ==> s.contains(#[trigger] s.filter(pred)[i]),
    decreases s.len(),
{
    reveal(Seq::filter);
    if s.len() > 0 {
        let p = s.drop_last();
        assert forall|a: int, b: int|
            0 <= a < p.len() && 0 <= b < p.len() && a != b implies p[a].id != p[b].id && !(
            p[a].src == p[b].src && p[a].dst == p[b].dst) by {
            assert(p[a] == s[a] && p[b] == s[b]);
        }
        lemma_filter_unique_wires(p, pred);
        let f = s.filter(pred);
        let fp = p.filter(pred);
        assert forall|i: int| 0 <= i < f.len() implies s.contains(#[trigger] f[i]) by {
            if i < fp.len() {
                assert(f[i] == fp[i]);
                assert(p.contains(fp[i]));
                let k = choose|k: int| 0 <= k < p.len() && p[k] == fp[i];
                assert(s[k] == p[k]);
            } else {
                assert(f[i] == s.last());
                assert(s[s.len() - 1] == s.last());
            }
        }
        if pred(s.last()) {
            assert forall|a: int, b: int|
                0 <= a < f.len() && 0 <= b < f.len() && a != b implies f[a].id != f[b].id && !(
                f[a].src == f[b].src && f[a].dst == f[b].dst) by {
                if a < fp.len() && b < fp.len() {
                    assert(f[a] == fp[a] && f[b] == fp[b]);
                } else {
                    let x = if a < fp.len() { a } else { b };
                    if x < fp.len() {
                        assert(f[x] == fp[x]);
                        assert(p.contains(fp[x]));
                        let k = choose|k: int| 0 <= k < p.len() && p[k] == fp[x];
                        assert(s[k] == p[k]);
                        assert(s[s.len() - 1] == s.last());
                    }
                }
            }
        }
    }
}

/// The identifier of the wire from `src` to `dst`.
pub open spec fn wire_id_between(s: Seq<Wire>, src: NodeId, dst: NodeId) -> WireId {
    s[choose|i: int| 0 <= i < s.len() && s[i].src == src && s[i].dst == dst].id
}

impl Node {
    /// The node `Node::new` builds.
    pub open spec fn new_spec(id: NodeId, gate: Gate, position: IVec2) -> Node {
        Node { state: false, id, gate: GateInstance::spec_from_gate(gate), position }
    }
}

/// The graph of a circuit.
#[derive(Debug)]
pub struct Graph {
    id: GraphId,
    next_node_id: NodeId,
    next_wire_id: WireId,
    nodes: Vec<Node>,
    wires: Vec<Wire>,
    node_grid: HashMap<i128, NodeId>,
    named_nodes: HashMap<u128, String>,
    eval_order: Vec<NodeId>,
    eval_order_dict: HashMap<u128, (usize, usize)>,
    is_eval_order_dirty: bool,
}

impl Graph {
    /// The nodes, in the order the graph keeps them.
    pub closed spec fn nodes_view(&self) -> Seq<Node> {
        self.nodes@
    }

    /// The wires, in the order the graph keeps them.
    pub closed spec fn wires_view(&self) -> Seq<Wire> {
        self.wires@
    }

    /// The grid: for each occupied cell key, the node recorded there.
    pub closed spec fn grid_view(&self) -> Map<i128, NodeId> {
        self.node_grid@
    }

    /// The names of named nodes, by node number.
    pub closed spec fn names_view(&self) -> Map<u128, String> {
        self.named_nodes@
    }

    /// The current evaluation order.
    pub closed spec fn eval_order_view(&self) -> Seq<NodeId> {
        self.eval_order@
    }

    /// For each node number in the evaluation order: its depth and its place counted from the end.
    pub closed spec fn eval_dict_view(&self) -> Map<u128, (usize, usize)> {
        self.eval_order_dict@
    }

    /// Whether the evaluation order must be refreshed before evaluating.
    pub closed spec fn dirty(&self) -> bool {
        self.is_eval_order_dirty
    }

    /// The graph's identifier.
    pub closed spec fn graph_id(&self) -> GraphId {
        self.id
    }

    /// The identifier the next created node gets.
    pub closed spec fn next_node(&self) -> NodeId {
        self.next_node_id
    }

    /// The identifier the next created wire gets.
    pub closed spec fn next_wire(&self) -> WireId {
        self.next_wire_id
    }

    /// The graph holds a node `id`.
    pub open spec fn has_node(&self, id: NodeId) -> bool {
        contains_node(self.nodes_view(), id)
    }

    /// The node `id` of the graph.
    pub open spec fn node_of(&self, id: NodeId) -> Node {
        self.nodes_view()[index_in(self.nodes_view(), id)]
    }

    /// The graph holds a wire `id`.
    pub open spec fn has_wire(&self, id: WireId) -> bool {
        contains_wire(self.wires_view(), id)
    }

    /// The wire `id` of the graph.
    pub open spec fn wire_of(&self, id: WireId) -> Wire {
        self.wires_view()[wire_index_in(self.wires_view(), id)]
    }

    /// Every wire joins two nodes of the graph.
    pub open spec fn wires_connected(&self) -> bool {
        forall|i: int|
            0 <= i < self.wires_view().len() ==> self.has_node(#[trigger] self.wires_view()[i].src)
                && self.has_node(self.wires_view()[i].dst)
    }

    /// Every node is recorded in the grid, at its own cell. Creating and destroying nodes
    /// keep this, and so does moving a node to a free cell; moving it onto a cell that
    /// another node holds ends it.
    pub open spec fn synced(&self) -> bool {
        grid_synced(self.nodes_view(), self.grid_view())
    }

    /// What every graph keeps: distinct node and wire identifiers, each below the next one
    /// to be handed out; no two wires joining the same pair of nodes; every grid entry names
    /// a node and lies in that node's cell; and while the order is not dirty it lists each
    /// node once.
    pub open spec fn wf(&self) -> bool {
        &&& unique_nodes(self.nodes_view())
        &&& unique_wires(self.wires_view())
        &&& forall|i: int|
            0 <= i < self.nodes_view().len() ==> (#[trigger] self.nodes_view()[i]).id.0
                < self.next_node().0 || self.next_node().0 == u128::MAX
        &&& forall|i: int|
            0 <= i < self.wires_view().len() ==> (#[trigger] self.wires_view()[i]).id.0
                < self.next_wire().0 || self.next_wire().0 == u128::MAX
        &&& forall|k: i128| #[trigger]
            self.grid_view().contains_key(k) ==> self.has_node(self.grid_view()[k]) && k
                == cell_key(spec_world_to_grid(self.node_of(self.grid_view()[k]).position))
        &&& !self.dirty() ==> is_permutation_of_nodes(self.eval_order_view(), self.nodes_view())
    }

    /// An empty graph; its evaluation order is empty and up to date.
    pub fn new(id: GraphId) -> (g: Graph)
        ensures
            g.wf(),
            g.synced(),
            g.graph_id() == id,
            g.nodes_view() == Seq::<Node>::empty(),
            g.wires_view() == Seq::<Wire>::empty(),
            g.grid_view() == Map::<i128, NodeId>::empty(),
            g.names_view() == Map::<u128, String>::empty(),
            g.eval_order_view() == Seq::<NodeId>::empty(),
            g.eval_dict_view() == Map::<u128, (usize, usize)>::empty(),
            !g.dirty(),
            g.next_node() == NodeId(0),
            g.next_wire() == WireId(0),
    {
        Graph {
            id,
            next_node_id: NodeId(0),
            next_wire_id: WireId(0),
            nodes: Vec::new(),
            wires: Vec::new(),
            node_grid: HashMap::new(),
            named_nodes: HashMap::new(),
            eval_order: Vec::new(),
            eval_order_dict: HashMap::new(),
            is_eval_order_dirty: false,
        }
    }

    /// A graph holding exactly `nodes` and `wires`, with an empty grid and a dirty
    /// evaluation order; new identifiers continue after the largest ones given.
    pub fn from_parts(id: GraphId, nodes: Vec<Node>, wires: Vec<Wire>) -> (g: Graph)
        requires
            unique_nodes(nodes@),
            unique_wires(wires@),
        ensures
            g.wf(),
            g.graph_id() == id,
            g.nodes_view() == nodes@,
            g.wires_view() == wires@,
            g.grid_view() == Map::<i128, NodeId>::empty(),
            g.dirty(),
    {
        let mut next_node: u128 = 0;
        let mut i: usize = 0;
        while i < nodes.len()
            invariant
                i <= nodes@.len(),
                forall|k: int| 0 <= k < i ==> nodes@[k].id.0 < next_node || next_node == u128::MAX,
            decreases nodes@.len() - i,
        {
            if nodes[i].id.0 >= next_node {
                if nodes[i].id.0 == u128::MAX {
                    next_node = u128::MAX;
                } else {
                    next_node = nodes[i].id.0 + 1;
                }
            }
            i = i + 1;
        }
        let mut next_wire: u128 = 0;
        let mut j: usize = 0;
        while j < wires.len()
            invariant
                j <= wires@.len(),
                forall|k: int| 0 <= k < j ==> wires@[k].id.0 < next_wire || next_wire == u128::MAX,
            decreases wires@.len() - j,
        {
            if wires[j].id.0 >= next_wire {
                if wires[j].id.0 == u128::MAX {
                    next_wire = u128::MAX;
                } else {
                    next_wire = wires[j].id.0 + 1;
                }
            }
            j = j + 1;
        }
        Graph {
            id,
            next_node_id: NodeId(next_node),
            next_wire_id: WireId(next_wire),
            nodes,
            wires,
            node_grid: HashMap::new(),
            named_nodes: HashMap::new(),
            eval_order: Vec::new(),
            eval_order_dict: HashMap::new(),
            is_eval_order_dirty: true,
        }
    }

    /// The cell a world position falls in.
    pub fn world_to_grid(world_pos: IVec2) -> (r: IVec2)
        ensures
            r == spec_world_to_grid(world_pos),
    {
        world_pos.div_scalar(GRID_SIZE)
    }

    /// The world position of a cell's corner; it must not overflow.
    pub fn grid_to_world(grid_pos: IVec2) -> (r: IVec2)
        requires
            fits(grid_pos.x * GRID_SIZE),
            fits(grid_pos.y * GRID_SIZE),
        ensures
            r == ivec(grid_pos.x * GRID_SIZE, grid_pos.y * GRID_SIZE),
    {
        grid_pos.mul_scalar(GRID_SIZE)
    }

    /// The graph's identifier.
    pub fn id(&self) -> (r: &GraphId)
        ensures
            *r == self.graph_id(),
    {
        &self.id
    }

    /// Whether the evaluation order must be refreshed before evaluating.
    pub fn is_eval_order_dirty(&self) -> (r: bool)
        ensures
            r == self.dirty(),
    {
        self.is_eval_order_dirty
    }

    /// The evaluation order.
    pub fn eval_order(&self) -> (r: &[NodeId])
        ensures
            r@ == self.eval_order_view(),
    {
        self.eval_order.as_slice()
    }

    /// The depth of `id` in the evaluation order and its place counted from the end;
    /// an error if the order does not hold it.
    pub fn eval_order_of(&self, id: &NodeId) -> (r: Result<(usize, usize), NotOfGraphError>)
        ensures
            self.eval_dict_view().contains_key(id.0) ==> r == Ok::<
                (usize, usize),
                NotOfGraphError,
            >(self.eval_dict_view()[id.0]),
            !self.eval_dict_view().contains_key(id.0) ==> r == Err::<
                (usize, usize),
                NotOfGraphError,
            >(NotOfGraphError),
    {
        match self.eval_order_dict.get(&id.0) {
            Some(v) => Ok(*v),
            None => Err(NotOfGraphError),
        }
    }

    /// The name of node `id`, if it has one.
    pub fn name(&self, id: &NodeId) -> (r: Option<&str>)
        ensures
            self.names_view().contains_key(id.0) ==> r is Some && r.unwrap()@
                == self.names_view()[id.0]@,
            !self.names_view().contains_key(id.0) ==> r is None,
    {
        match self.named_nodes.get(&id.0) {
            Some(s) => Some(s.as_str()),
            None => None,
        }
    }

    /// The index of node `id` in the node list, if it is there.
    fn index_of(&self, id: NodeId) -> (r: Option<usize>)
        requires
            unique_nodes(self.nodes@),
        ensures
            match r {
                Some(i) => i < self.nodes@.len() && self.nodes@[i as int].id == id && i
                    == index_in(self.nodes@, id),
                None => !contains_node(self.nodes@, id),
            },
    {
        let mut i: usize = 0;
        while i < self.nodes.len()
            invariant
                i <= self.nodes@.len(),
                unique_nodes(self.nodes@),
                forall|k: int| 0 <= k < i ==> self.nodes@[k].id != id,
            decreases self.nodes@.len() - i,
        {
            if self.nodes[i].id == id {
                proof {
                    assert(contains_node(self.nodes@, id));
                    let j = index_in(self.nodes@, id);
                    assert(self.nodes@[j].id == self.nodes@[i as int].id);
                }
                return Some(i);
            }
            i = i + 1;
        }
        None
    }

    /// The index of wire `id` in the wire list, if it is there.
    fn wire_index_of(&self, id: WireId) -> (r: Option<usize>)
        requires
            unique_wires(self.wires@),
        ensures
            match r {
                Some(i) => i < self.wires@.len() && self.wires@[i as int].id == id && i
                    == wire_index_in(self.wires@, id),
                None => !contains_wire(self.wires@, id),
            },
    {
        let mut i: usize = 0;
        while i < self.wires.len()
            invariant
                i <= self.wires@.len(),
                unique_wires(self.wires@),
                forall|k: int| 0 <= k < i ==> self.wires@[k].id != id,
            decreases self.wires@.len() - i,
        {
            if self.wires[i].id == id {
                proof {
                    assert(contains_wire(self.wires@, id));
                    let j = wire_index_in(self.wires@, id);
                    assert(self.wires@[j].id == self.wires@[i as int].id);
                }
                return Some(i);
            }
            i = i + 1;
        }
        None
    }

    /// The node `id`; an error if the graph does not hold it.
    pub fn node(&self, id: &NodeId) -> (r: Result<&Node, NotOfGraphError>)
        requires
            self.wf(),
        ensures
            self.has_node(*id) ==> r == Ok::<&Node, NotOfGraphError>(&self.node_of(*id)),
            !self.has_node(*id) ==> r == Err::<&Node, NotOfGraphError>(NotOfGraphError),
    {
        match self.index_of(*id) {
            Some(i) => Ok(&self.nodes[i]),
            None => Err(NotOfGraphError),
        }
    }

    /// The wire `id`; an error if the graph does not hold it.
    pub fn wire(&self, id: &WireId) -> (r: Result<&Wire, NotOfGraphError>)
        requires
            self.wf(),
        ensures
            self.has_wire(*id) ==> r == Ok::<&Wire, NotOfGraphError>(&self.wire_of(*id)),
            !self.has_wire(*id) ==> r == Err::<&Wire, NotOfGraphError>(NotOfGraphError),
    {
        match self.wire_index_of(*id) {
            Some(i) => Ok(&self.wires[i]),
            None => Err(NotOfGraphError),
        }
    }

    /// The node recorded in the grid at cell `grid_pos`, if any.
    pub fn node_at(&self, grid_pos: IVec2) -> (r: Option<&Node>)
        requires
            self.wf(),
        ensures
            self.grid_view().contains_key(cell_key(grid_pos)) ==> r == Some(
                &self.node_of(self.grid_view()[cell_key(grid_pos)]),
            ),
            !self.grid_view().contains_key(cell_key(grid_pos)) ==> r is None,
    {
        match self.node_grid.get(&key_of(grid_pos)) {
            Some(id) => match self.index_of(*id) {
                Some(i) => Some(&self.nodes[i]),
                None => None,
            },
            None => None,
        }
    }

    /// The two nodes of `wire`; an error if either is not in the graph.
    pub fn get_wire_nodes<'a>(&'a self, wire: &Wire) -> (r: Result<
        (&'a Node, &'a Node),
        NotOfGraphError,
    >)
        requires
            self.wf(),
        ensures
            self.has_node(wire.src) && self.has_node(wire.dst) ==> r == Ok::<
                (&Node, &Node),
                NotOfGraphError,
            >((&self.node_of(wire.src), &self.node_of(wire.dst))),
            !(self.has_node(wire.src) && self.has_node(wire.dst)) ==> r is Err,
    {
        match (self.index_of(wire.src), self.index_of(wire.dst)) {
            (Some(i), Some(j)) => Ok((&self.nodes[i], &self.nodes[j])),
            _ => Err(NotOfGraphError),
        }
    }

    /// Creates a node holding a fresh instance of `gate` at world `position`, unless the
    /// grid already records a node in that cell: then that node's identifier is returned
    /// in the error and nothing changes.
    pub fn create_node(&mut self, gate: Gate, position: IVec2) -> (r: Result<
        NodeId,
        AlreadyExistsError<NodeId>,
    >)
        requires
            old(self).wf(),
            !old(self).grid_view().contains_key(cell_key(spec_world_to_grid(position)))
                ==> old(self).next_node().0 != u128::MAX,
        ensures
            final(self).wf(),
            ({
                let key = cell_key(spec_world_to_grid(position));
                if old(self).grid_view().contains_key(key) {
                    &&& r == Err::<NodeId, AlreadyExistsError<NodeId>>(
                        AlreadyExistsError(old(self).grid_view()[key]),
                    )
                    &&& final(self).nodes_view() == old(self).nodes_view()
                    &&& final(self).grid_view() == old(self).grid_view()
                    &&& final(self).dirty() == old(self).dirty()
                    &&& final(self).next_node() == old(self).next_node()
                } else {
                    let id = old(self).next_node();
                    &&& r == Ok::<NodeId, AlreadyExistsError<NodeId>>(id)
                    &&& final(self).nodes_view() == old(self).nodes_view().push(
                        Node::new_spec(id, gate, position),
                    )
                    &&& final(self).grid_view() == old(self).grid_view().insert(key, id)
                    &&& final(self).dirty()
                    &&& final(self).next_node() == NodeId((id.0 + 1) as u128)
                }
            }),
            old(self).synced() ==> final(self).synced(),
            old(self).synced() ==> forall|i: int|
                0 <= i < old(self).nodes_view().len() && spec_world_to_grid(
                    (#[trigger] old(self).nodes_view()[i]).position,
                ) == spec_world_to_grid(position) ==> r == Err::<NodeId, AlreadyExistsError<NodeId>>(
                    AlreadyExistsError(old(self).nodes_view()[i].id),
                ),
            final(self).wires_view() == old(self).wires_view(),
            final(self).names_view() == old(self).names_view(),
            final(self).eval_order_view() == old(self).eval_order_view(),
            final(self).eval_dict_view() == old(self).eval_dict_view(),
            final(self).graph_id() == old(self).graph_id(),
            final(self).next_wire() == old(self).next_wire(),
    {
        let grid_pos = Graph::world_to_grid(position);
        let key = key_of(grid_pos);
        match self.node_grid.get(&key) {
            Some(existing) => Err(AlreadyExistsError(*existing)),
            None => {
                let ghost old_nodes = self.nodes@;
                let id = self.next_node_id;
                self.next_node_id = NodeId(id.0 + 1);
                let node = Node::new(id, gate, position, false);
                self.nodes.push(node);
                self.node_grid.insert(key, id);
                self.is_eval_order_dirty = true;
                proof {
                    if grid_synced(old_nodes, old(self).node_grid@) {
                        lemma_synced_push(old_nodes, old(self).node_grid@, node);
                    }
                    let s = self.nodes@;
                    assert(s == old_nodes.push(node));
                    assert forall|i: int, j: int|
                        0 <= i < s.len() && 0 <= j < s.len() && i != j implies s[i].id
                        != s[j].id by {
                        if i < old_nodes.len() && j < old_nodes.len() {
                            assert(s[i] == old_nodes[i] && s[j] == old_nodes[j]);
                        } else if i < old_nodes.len() {
                            assert(s[i] == old_nodes[i]);
                        } else {
                            assert(s[j] == old_nodes[j]);
                        }
                    }
                    assert forall|i: int| 0 <= i < s.len() implies (#[trigger] s[i]).id.0
                        < self.next_node_id.0 || self.next_node_id.0 == u128::MAX by {
                        if i < old_nodes.len() {
                            assert(s[i] == old_nodes[i]);
                        }
                    }
                    assert forall|k: i128| #[trigger]
                        self.node_grid@.contains_key(k) implies self.has_node(self.node_grid@[k])
                        && k == cell_key(
                        spec_world_to_grid(self.node_of(self.node_grid@[k]).position),
                    ) by {
                        if k == key {
                            assert(s[old_nodes.len() as int].id == id);
                            lemma_index_in(s, id, old_nodes.len() as int);
                        } else {
                            let m = self.node_grid@[k];
                            let oi = index_in(old_nodes, m);
                            assert(old_nodes[oi].id == m);
                            assert(s[oi] == old_nodes[oi]);
                            lemma_index_in(s, m, oi);
                        }
                    }
                }
                Ok(id)
            },
        }
    }

    /// Moves node `id` to world `new_position` when that lies in another cell: the grid
    /// forgets the old cell and records the node in the new one. Within the same cell
    /// nothing changes. An error if the graph does not hold the node.
    pub fn translate_node(&mut self, id: &NodeId, new_position: IVec2) -> (r: Result<
        (),
        NotOfGraphError,
    >)
        requires
            old(self).wf(),
        ensures
            final(self).wf(),
            !old(self).has_node(*id) ==> r == Err::<(), NotOfGraphError>(NotOfGraphError)
                && final(self).nodes_view() == old(self).nodes_view() && final(self).grid_view()
                == old(self).grid_view(),
            old(self).has_node(*id) ==> r == Ok::<(), NotOfGraphError>(()) && ({
                let n = old(self).node_of(*id);
                let oc = spec_world_to_grid(n.position);
                let nc = spec_world_to_grid(new_position);
                if oc == nc {
                    &&& final(self).nodes_view() == old(self).nodes_view()
                    &&& final(self).grid_view() == old(self).grid_view()
                } else {
                    &&& final(self).nodes_view() == old(self).nodes_view().update(
                        index_in(old(self).nodes_view(), *id),
                        Node { position: new_position, ..n },
                    )
                    &&& final(self).grid_view() == old(self).grid_view().remove(
                        cell_key(oc),
                    ).insert(cell_key(nc), *id)
                }
            }),
            old(self).synced() && !old(self).grid_view().contains_key(
                cell_key(spec_world_to_grid(new_position)),
            ) ==> final(self).synced(),
            final(self).wires_view() == old(self).wires_view(),
            final(self).names_view() == old(self).names_view(),
            final(self).eval_order_view() == old(self).eval_order_view(),
            final(self).eval_dict_view() == old(self).eval_dict_view(),
            final(self).dirty() == old(self).dirty(),
            final(self).graph_id() == old(self).graph_id(),
            final(self).next_node() == old(self).next_node(),
            final(self).next_wire() == old(self).next_wire(),
    {
        match self.index_of(*id) {
            None => Err(NotOfGraphError),
            Some(i) => {
                let n = self.nodes[i];
                let old_cell = Graph::world_to_grid(n.position);
                let new_cell = Graph::world_to_grid(new_position);
                if old_cell != new_cell {
                    let ghost old_nodes = self.nodes@;
                    let ghost old_grid = self.node_grid@;
                    let moved = Node { position: new_position, ..n };
                    proof {
                        if grid_synced(old_nodes, old_grid) && !old_grid.contains_key(
                            cell_key(new_cell),
                        ) {
                            lemma_index_in(old_nodes, *id, i as int);
                            lemma_synced_move(old_nodes, old_grid, i as int, moved);
                        }
                    }
                    let _ = self.node_grid.remove(&key_of(old_cell));
                    self.node_grid.insert(key_of(new_cell), *id);
                    self.nodes.set(i, moved);
                    proof {
                        let s = self.nodes@;
                        assert(s == old_nodes.update(i as int, moved));
                        assert forall|a: int, b: int|
                            0 <= a < s.len() && 0 <= b < s.len() && a != b implies s[a].id
                            != s[b].id by {
                            assert(s[a].id == old_nodes[a].id && s[b].id == old_nodes[b].id);
                        }
                        assert forall|a: int| 0 <= a < s.len() implies (#[trigger] s[a]).id.0
                            < self.next_node_id.0 || self.next_node_id.0 == u128::MAX by {
                            assert(s[a].id == old_nodes[a].id);
                        }
                        assert forall|k: i128| #[trigger]
                            self.node_grid@.contains_key(k) implies self.has_node(
                            self.node_grid@[k],
                        ) && k == cell_key(
                            spec_world_to_grid(self.node_of(self.node_grid@[k]).position),
                        ) by {
                            if k == cell_key(new_cell) {
                                lemma_index_in(s, *id, i as int);
                            } else {
                                assert(k != cell_key(old_cell));
                                assert(old_grid.contains_key(k));
                                let m = old_grid[k];
                                let oi = index_in(old_nodes, m);
                                assert(old_nodes[oi].id == m);
                                lemma_index_in(old_nodes, *id, i as int);
                                if oi == i {
                                    lemma_cell_key_injective(old_cell, spec_world_to_grid(old_nodes[oi].position));
                                }
                                assert(oi != i);
                                assert(s[oi] == old_nodes[oi]);
                                lemma_index_in(s, m, oi);
                            }
                        }
                        if !self.is_eval_order_dirty {
                            assert forall|a: int| 0 <= a < self.eval_order@.len() implies contains_node(
                                s,
                                #[trigger] self.eval_order@[a],
                            ) by {
                                let m = self.eval_order@[a];
                                let oi = index_in(old_nodes, m);
                                assert(s[oi].id == old_nodes[oi].id);
                            }
                            assert forall|a: int| 0 <= a < s.len() implies self.eval_order@.contains(
                                #[trigger] s[a].id,
                            ) by {
                                assert(s[a].id == old_nodes[a].id);
                            }
                        }
                    }
                }
                Ok(())
            },
        }
    }

    /// Removes node `id` and returns it: the grid forgets the node's cell and, unless
    /// `soft`, every wire into or out of the node goes too. An error if the graph does
    /// not hold the node.
    #[verifier::spinoff_prover]
    pub fn destroy_node(&mut self, id: &NodeId, soft: bool) -> (r: Result<Node, NotOfGraphError>)
        requires
            old(self).wf(),
        ensures
            final(self).wf(),
            !old(self).has_node(*id) ==> r == Err::<Node, NotOfGraphError>(NotOfGraphError)
                && final(self).nodes_view() == old(self).nodes_view() && final(self).grid_view()
                == old(self).grid_view() && final(self).wires_view() == old(self).wires_view()
                && final(self).dirty() == old(self).dirty(),
            old(self).has_node(*id) ==> ({
                let n = old(self).node_of(*id);
                &&& r == Ok::<Node, NotOfGraphError>(n)
                &&& final(self).nodes_view() == old(self).nodes_view().remove(
                    index_in(old(self).nodes_view(), *id),
                )
                &&& final(self).grid_view() == old(self).grid_view().remove(
                    cell_key(spec_world_to_grid(n.position)),
                )
                &&& final(self).wires_view() == if soft {
                    old(self).wires_view()
                } else {
                    old(self).wires_view().filter(|w: Wire| w.src != *id && w.dst != *id)
                }
                &&& final(self).dirty()
            }),
            old(self).synced() ==> final(self).synced(),
            final(self).names_view() == old(self).names_view(),
            final(self).eval_order_view() == old(self).eval_order_view(),
            final(self).eval_dict_view() == old(self).eval_dict_view(),
            final(self).graph_id() == old(self).graph_id(),
            final(self).next_node() == old(self).next_node(),
            final(self).next_wire() == old(self).next_wire(),
    {
        match self.index_of(*id) {
            None => Err(NotOfGraphError),
            Some(i) => {
                let ghost old_nodes = self.nodes@;
                let ghost old_grid = self.node_grid@;
                assert(grid_synced(old_nodes, old_grid) ==> grid_synced(
                    old_nodes.remove(i as int),
                    old_grid.remove(cell_key(spec_world_to_grid(old_nodes[i as int].position))),
                )) by {
                    if grid_synced(old_nodes, old_grid) {
                        lemma_synced_remove(old_nodes, old_grid, i as int);
                    }
                }
                let node = self.nodes.remove(i);
                let cell = Graph::world_to_grid(node.position);
                let _ = self.node_grid.remove(&key_of(cell));
                if !soft {
                    self.remove_wires_of(*id);
                }
                self.is_eval_order_dirty = true;
                proof {
                    let s = self.nodes@;
                    assert(s == old_nodes.remove(i as int));
                    assert forall|a: int, b: int|
                        0 <= a < s.len() && 0 <= b < s.len() && a != b implies s[a].id
                        != s[b].id by {
                        let oa = if a < i { a } else { a + 1 };
                        let ob = if b < i { b } else { b + 1 };
                        assert(s[a] == old_nodes[oa] && s[b] == old_nodes[ob]);
                    }
                    assert forall|a: int| 0 <= a < s.len() implies (#[trigger] s[a]).id.0
                        < self.next_node_id.0 || self.next_node_id.0 == u128::MAX by {
                        let oa = if a < i { a } else { a + 1 };
                        assert(s[a] == old_nodes[oa]);
                    }
                    assert forall|k: i128| #[trigger]
                        self.node_grid@.contains_key(k) implies self.has_node(self.node_grid@[k])
                        && k == cell_key(
                        spec_world_to_grid(self.node_of(self.node_grid@[k]).position),
                    ) by {
                        assert(k != cell_key(cell));
                        assert(old_grid.contains_key(k));
                        let m = old_grid[k];
                        let oi = index_in(old_nodes, m);
                        assert(old_nodes[oi].id == m);
                        lemma_index_in(old_nodes, *id, i as int);
                        if oi == i {
                            lemma_cell_key_injective(cell, spec_world_to_grid(old_nodes[oi].position));
                        }
                        assert(oi != i);
                        let ni = if oi < i { oi } else { oi - 1 };
                        assert(s[ni] == old_nodes[oi]);
                        lemma_index_in(s, m, ni);
                    }
                    lemma_index_in(old_nodes, *id, i as int);
                }
                Ok(node)
            },
        }
    }

    /// Keeps only the wires that neither leave nor enter `id`.
    fn remove_wires_of(&mut self, id: NodeId)
        requires
            unique_wires(old(self).wires@),
        ensures
            final(self).wires@ == old(self).wires@.filter(|w: Wire| w.src != id && w.dst != id),
            unique_wires(final(self).wires@),
            forall|i: int|
                0 <= i < final(self).wires@.len() ==> old(self).wires@.contains(
                    #[trigger] final(self).wires@[i],
                ),
            final(self).nodes@ == old(self).nodes@,
            final(self).node_grid@ == old(self).node_grid@,
            final(self).named_nodes@ == old(self).named_nodes@,
            final(self).eval_order@ == old(self).eval_order@,
            final(self).eval_order_dict@ == old(self).eval_order_dict@,
            final(self).is_eval_order_dirty == old(self).is_eval_order_dirty,
            final(self).id == old(self).id,
            final(self).next_node_id == old(self).next_node_id,
            final(self).next_wire_id == old(self).next_wire_id,
    {
        let ghost pred = |w: Wire| w.src != id && w.dst != id;
        let mut kept: Vec<Wire> = Vec::new();
        let mut i: usize = 0;
        while i < self.wires.len()
            invariant
                i <= self.wires@.len(),
                kept@ == self.wires@.take(i as int).filter(pred),
                pred == (|w: Wire| w.src != id && w.dst != id),
            decreases self.wires@.len() - i,
        {
            proof {
                reveal(Seq::filter);
                assert(self.wires@.take(i + 1).drop_last() =~= self.wires@.take(i as int));
            }
            let w = self.wires[i];
            if w.src != id && w.dst != id {
                kept.push(w);
            }
            i = i + 1;
        }
        proof {
            assert(self.wires@.take(self.wires@.len() as int) =~= self.wires@);
            lemma_filter_unique_wires(self.wires@, pred);
        }
        self.wires = kept;
    }

    /// Creates a wire from `src` to `dst`, unless one already joins them: then that
    /// wire's identifier is returned in the error and nothing changes. The two nodes
    /// must differ; they need not be in the graph.
    pub fn create_wire(&mut self, elbow: Elbow, src: NodeId, dst: NodeId) -> (r: Result<
        WireId,
        AlreadyExistsError<WireId>,
    >)
        requires
            old(self).wf(),
            src != dst,
            !wire_between(old(self).wires_view(), src, dst) ==> old(self).next_wire().0
                != u128::MAX,
        ensures
            final(self).wf(),
            wire_between(old(self).wires_view(), src, dst) ==> r == Err::<
                WireId,
                AlreadyExistsError<WireId>,
            >(AlreadyExistsError(wire_id_between(old(self).wires_view(), src, dst)))
                && final(self).wires_view() == old(self).wires_view() && final(self).dirty()
                == old(self).dirty() && final(self).next_wire() == old(self).next_wire(),
            !wire_between(old(self).wires_view(), src, dst) ==> r == Ok::<
                WireId,
                AlreadyExistsError<WireId>,
            >(old(self).next_wire()) && final(self).wires_view() == old(self).wires_view().push(
                Wire { id: old(self).next_wire(), elbow, src, dst },
            ) && final(self).dirty() && final(self).next_wire() == WireId(
                (old(self).next_wire().0 + 1) as u128,
            ),
            final(self).nodes_view() == old(self).nodes_view(),
            final(self).grid_view() == old(self).grid_view(),
            final(self).names_view() == old(self).names_view(),
            final(self).eval_order_view() == old(self).eval_order_view(),
            final(self).eval_dict_view() == old(self).eval_dict_view(),
            final(self).graph_id() == old(self).graph_id(),
            final(self).next_node() == old(self).next_node(),
    {
        let mut i: usize = 0;
        while i < self.wires.len()
            invariant
                i <= self.wires@.len(),
                *self == *old(self),
                old(self).wf(),
                forall|k: int| 0 <= k < i ==> !(self.wires@[k].src == src && self.wires@[k].dst == dst),
            decreases self.wires@.len() - i,
        {
            if self.wires[i].src == src && self.wires[i].dst == dst {
                proof {
                    assert(wire_between(self.wires@, src, dst));
                    let j = choose|j: int|
                        0 <= j < self.wires@.len() && self.wires@[j].src == src
                            && self.wires@[j].dst == dst;
                    assert(j == i);
                }
                return Err(AlreadyExistsError(self.wires[i].id));
            }
            i = i + 1;
        }
        let ghost old_wires = self.wires@;
        let id = self.next_wire_id;
        self.next_wire_id = WireId(id.0 + 1);
        let w = Wire { id, elbow, src, dst };
        self.wires.push(w);
        self.is_eval_order_dirty = true;
        proof {
            let s = self.wires@;
            assert(s == old_wires.push(w));
            assert forall|a: int, b: int|
                0 <= a < s.len() && 0 <= b < s.len() && a != b implies s[a].id != s[b].id && !(
                s[a].src == s[b].src && s[a].dst == s[b].dst) by {
                if a < old_wires.len() && b < old_wires.len() {
                    assert(s[a] == old_wires[a] && s[b] == old_wires[b]);
                } else if a < old_wires.len() {
                    assert(s[a] == old_wires[a]);
                } else {
                    assert(s[b] == old_wires[b]);
                }
            }
            assert forall|a: int| 0 <= a < s.len() implies (#[trigger] s[a]).id.0
                < self.next_wire_id.0 || self.next_wire_id.0 == u128::MAX by {
                if a < old_wires.len() {
                    assert(s[a] == old_wires[a]);
                }
            }
        }
        Ok(id)
    }

    /// Removes wire `id` and returns it; an error if the graph does not hold it.
    pub fn destroy_wire(&mut self, id: &WireId) -> (r: Result<Wire, NotOfGraphError>)
        requires
            old(self).wf(),
        ensures
            final(self).wf(),
            !old(self).has_wire(*id) ==> r == Err::<Wire, NotOfGraphError>(NotOfGraphError)
                && final(self).wires_view() == old(self).wires_view() && final(self).dirty()
                == old(self).dirty(),
            old(self).has_wire(*id) ==> r == Ok::<Wire, NotOfGraphError>(old(self).wire_of(*id))
                && final(self).wires_view() == old(self).wires_view().remove(
                wire_index_in(old(self).wires_view(), *id),
            ) && final(self).dirty(),
            final(self).nodes_view() == old(self).nodes_view(),
            final(self).grid_view() == old(self).grid_view(),
            final(self).names_view() == old(self).names_view(),
            final(self).eval_order_view() == old(self).eval_order_view(),
            final(self).eval_dict_view() == old(self).eval_dict_view(),
            final(self).graph_id() == old(self).graph_id(),
            final(self).next_node() == old(self).next_node(),
            final(self).next_wire() == old(self).next_wire(),
    {
        match self.wire_index_of(*id) {
            None => Err(NotOfGraphError),
            Some(i) => {
                let ghost old_wires = self.wires@;
                let w = self.wires.remove(i);
                self.is_eval_order_dirty = true;
                proof {
                    let s = self.wires@;
                    assert(s == old_wires.remove(i as int));
                    assert forall|a: int, b: int|
                        0 <= a < s.len() && 0 <= b < s.len() && a != b implies s[a].id
                        != s[b].id && !(s[a].src == s[b].src && s[a].dst == s[b].dst) by {
                        let oa = if a < i { a } else { a + 1 };
                        let ob = if b < i { b } else { b + 1 };
                        assert(s[a] == old_wires[oa] && s[b] == old_wires[ob]);
                    }
                    assert forall|a: int| 0 <= a < s.len() implies (#[trigger] s[a]).id.0
                        < self.next_wire_id.0 || self.next_wire_id.0 == u128::MAX by {
                        let oa = if a < i { a } else { a + 1 };
                        assert(s[a] == old_wires[oa]);
                    }
                }
                Ok(w)
            },
        }
    }

    /// Replaces node `id`'s gate; an error if the graph does not hold it.
    pub fn set_gate(&mut self, id: &NodeId, gate: GateInstance) -> (r: Result<(), NotOfGraphError>)
        requires
            old(self).wf(),
        ensures
            final(self).wf(),
            !old(self).has_node(*id) ==> r == Err::<(), NotOfGraphError>(NotOfGraphError)
                && final(self).nodes_view() == old(self).nodes_view(),
            old(self).has_node(*id) ==> r == Ok::<(), NotOfGraphError>(())
                && final(self).nodes_view() == old(self).nodes_view().update(
                index_in(old(self).nodes_view(), *id),
                Node { gate, ..old(self).node_of(*id) },
            ),
            final(self).wires_view() == old(self).wires_view(),
            final(self).grid_view() == old(self).grid_view(),
            final(self).names_view() == old(self).names_view(),
            final(self).eval_order_view() == old(self).eval_order_view(),
            final(self).eval_dict_view() == old(self).eval_dict_view(),
            final(self).dirty() == old(self).dirty(),
            final(self).graph_id() == old(self).graph_id(),
            final(self).next_node() == old(self).next_node(),
            final(self).next_wire() == old(self).next_wire(),
    {
        match self.index_of(*id) {
            None => Err(NotOfGraphError),
            Some(i) => {
                let ghost old_nodes = self.nodes@;
                let n = self.nodes[i];
                self.nodes.set(i, Node { gate, ..n });
                proof {
                    lemma_same_ids_wf(old_nodes, self.nodes@, i as int);
                }
                Ok(())
            },
        }
    }

    /// The nodes, in the order the graph keeps them.
    pub fn nodes_iter(&self) -> (r: &[Node])
        ensures
            r@ == self.nodes_view(),
    {
        self.nodes.as_slice()
    }

    /// The wires, in the order the graph keeps them.
    pub fn wires_iter(&self) -> (r: &[Wire])
        ensures
            r@ == self.wires_view(),
    {
        self.wires.as_slice()
    }
}

} // verus!
