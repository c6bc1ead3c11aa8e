//! The editing tools: their names, and what each does to a graph on a frame.
use crate::controls::Inputs;
use crate::gate::{Gate, GateInstance};
use crate::graph::query::has_input;
use crate::graph::{
    cell_key, contains_node, index_in, lemma_index_in, spec_world_to_grid, unique_nodes, wire_between,
    Elbow, Graph, Node, Wire,
};
use crate::ids::NodeId;
use crate::input::Event;
use crate::ivec::IVec2;
use crate::text::{chars_of, slice_eq, string_from_chars};
use vstd::prelude::*;

verus! {

/// The tools of the editor.
#[derive(Debug, Clone, Copy, PartialEq, Eq, Structural, Hash)]
pub enum ToolId {
    Create,
    Erase,
    Edit,
    Interact,
}

/// The name of a tool; the interact tool is written `ineteract`.
pub open spec fn tool_name(t: ToolId) -> Seq<char> {
    match t {
        ToolId::Create => seq!['c', 'r', 'e', 'a', 't', 'e'],
        ToolId::Erase => seq!['e', 'r', 'a', 's', 'e'],
        ToolId::Edit => seq!['e', 'd', 'i', 't'],
        ToolId::Interact => seq!['i', 'n', 'e', 't', 'e', 'r', 'a', 'c', 't'],
    }
}

/// The tool a name stands for.
pub open spec fn tool_from_name(s: Seq<char>) -> Option<ToolId> {
    if s == tool_name(ToolId::Create) {
        Some(ToolId::Create)
    } else if s == tool_name(ToolId::Erase) {
        Some(ToolId::Erase)
    } else if s == tool_name(ToolId::Edit) {
        Some(ToolId::Edit)
    } else if s == tool_name(ToolId::Interact) {
        Some(ToolId::Interact)
    } else {
        None
    }
}

pub(crate) fn tool_chars(t: ToolId) -> (r: Vec<char>)
    ensures
        r@ == tool_name(t),
{
    let r = match t {
        ToolId::Create => vec!['c', 'r', 'e', 'a', 't', 'e'],
        ToolId::Erase => vec!['e', 'r', 'a', 's', 'e'],
        ToolId::Edit => vec!['e', 'd', 'i', 't'],
        ToolId::Interact => vec!['i', 'n', 'e', 't', 'e', 'r', 'a', 'c', 't'],
    };
    assert(r@ =~= tool_name(t));
    r
}

/// Reads `cs[start..end]` as the name of a tool.
pub fn tool_from_chars(cs: &Vec<char>, start: usize, end: usize) -> (r: Option<ToolId>)
    requires
        start <= end <= cs@.len(),
    ensures
        r == tool_from_name(cs@.subrange(start as int, end as int)),
{
    if slice_eq(cs, start, end, &tool_chars(ToolId::Create)) {
        Some(ToolId::Create)
    } else if slice_eq(cs, start, end, &tool_chars(ToolId::Erase)) {
        Some(ToolId::Erase)
    } else if slice_eq(cs, start, end, &tool_chars(ToolId::Edit)) {
        Some(ToolId::Edit)
    } else if slice_eq(cs, start, end, &tool_chars(ToolId::Interact)) {
        Some(ToolId::Interact)
    } else {
        None
    }
}

impl ToolId {
    /// The default tool is `Create`.
    pub fn default() -> (r: ToolId)
        ensures
            r == ToolId::Create,
    {
        ToolId::Create
    }

    /// The tool's name.
    pub fn to_string(self) -> (s: String)
        ensures
            s@ == tool_name(self),
    {
        string_from_chars(&tool_chars(self))
    }

    /// Reads a tool's name; any other text is an error.
    pub fn from_str(s: &str) -> (r: Result<ToolId, ()>)
        ensures
            r == (match tool_from_name(s@) {
                Some(t) => Ok::<ToolId, ()>(t),
                None => Err(()),
            }),
    {
        let cs = chars_of(s);
        assert(cs@.subrange(0, cs@.len() as int) =~= cs@);
        match tool_from_chars(&cs, 0, cs.len()) {
            Some(t) => Ok(t),
            None => Err(()),
        }
    }
}

/// A tool's name reads back as that tool.
pub proof fn lemma_tool_roundtrip(t: ToolId)
    ensures
        tool_from_name(tool_name(t)) == Some(t),
{
    assert(tool_name(ToolId::Create).len() == 6);
    assert(tool_name(ToolId::Erase).len() == 5);
    assert(tool_name(ToolId::Edit).len() == 4);
    assert(tool_name(ToolId::Interact).len() == 9);
}

/// The grid key of the cell that world position `pos` falls in.
pub open spec fn cell_at(pos: IVec2) -> i128 {
    cell_key(spec_world_to_grid(pos))
}

/// The node a click of the create tool at `pos` lands on: the one recorded in that
/// cell, or else the node about to be created there.
pub open spec fn placed_node(g: Graph, pos: IVec2) -> NodeId {
    if g.grid_view().contains_key(cell_at(pos)) {
        g.grid_view()[cell_at(pos)]
    } else {
        g.next_node()
    }
}

/// A click of the create tool at `pos` adds a wire: there is a node to come from, it
/// is not the node clicked, and no wire joins the two yet.
pub open spec fn wire_made(g: Graph, current: Option<NodeId>, pos: IVec2) -> bool {
    match current {
        Some(c) => c != placed_node(g, pos) && !wire_between(g.wires_view(), c, placed_node(g, pos)),
        None => false,
    }
}

/// The create tool: it remembers the last node placed or clicked, so that the next one
/// is wired from it.
#[derive(Debug, Clone, Copy, PartialEq, Eq, Structural)]
pub struct Create {
    pub current_node: Option<NodeId>,
}

/// What a frame of the create tool does: on a primary press it places a node of
/// `gate` in the cell under `pos` (or takes the node already there), wires it from the
/// remembered node with `elbow`, and remembers it instead; a secondary press then
/// forgets the remembered node. `r` tells whether a wire was added.
pub open spec fn create_ticked(
    c0: Create,
    c1: Create,
    g0: Graph,
    g1: Graph,
    gate: Gate,
    elbow: Elbow,
    input: Inputs,
    pos: IVec2,
    r: bool,
) -> bool {
    let pressed = input.primary == Event::Starting;
    let placed = pressed && !g0.grid_view().contains_key(cell_at(pos));
    let wired = pressed && wire_made(g0, c0.current_node, pos);
    &&& r == wired
    &&& g1.nodes_view() == if placed {
        g0.nodes_view().push(Node::new_spec(g0.next_node(), gate, pos))
    } else {
        g0.nodes_view()
    }
    &&& g1.grid_view() == if placed {
        g0.grid_view().insert(cell_at(pos), g0.next_node())
    } else {
        g0.grid_view()
    }
    &&& g1.wires_view() == if wired {
        g0.wires_view().push(
            Wire { id: g0.next_wire(), elbow, src: c0.current_node->0, dst: placed_node(g0, pos) },
        )
    } else {
        g0.wires_view()
    }
    &&& g1.dirty() == (g0.dirty() || placed || wired)
    &&& c1.current_node == if input.secondary == Event::Starting {
        None
    } else if pressed {
        Some(placed_node(g0, pos))
    } else {
        c0.current_node
    }
}

impl Create {
    /// A create tool that remembers no node.
    pub fn new() -> (r: Create)
        ensures
            r.current_node is None,
    {
        Create { current_node: None }
    }

    /// One frame of the create tool at the cursor's snapped world position `pos`.
    pub fn tick(
        &mut self,
        toolpane_gate: Gate,
        toolpane_elbow: Elbow,
        input: &Inputs,
        graph: &mut Graph,
        pos: IVec2,
    ) -> (r: bool)
        requires
            old(graph).wf(),
            input.primary == Event::Starting && !old(graph).grid_view().contains_key(cell_at(pos))
                ==> old(graph).next_node().0 != u128::MAX,
            input.primary == Event::Starting && wire_made(*old(graph), old(self).current_node, pos)
                ==> old(graph).next_wire().0 != u128::MAX,
        ensures
            final(graph).wf(),
            create_ticked(
                *old(self),
                *final(self),
                *old(graph),
                *final(graph),
                toolpane_gate,
                toolpane_elbow,
                *input,
                pos,
                r,
            ),
            final(graph).graph_id() == old(graph).graph_id(),
            final(graph).names_view() == old(graph).names_view(),
    {
        let mut is_dirty = false;
        if input.primary.is_starting() {
            let target = match graph.create_node(toolpane_gate, pos) {
                Ok(id) => id,
                Err(existing) => existing.0,
            };
            match self.current_node {
                Some(current) => {
                    if current != target {
                        is_dirty = graph.create_wire(toolpane_elbow, current, target).is_ok();
                    }
                },
                None => {},
            }
            self.current_node = Some(target);
        }
        if input.secondary.is_starting() {
            self.current_node = None;
        }
        is_dirty
    }
}

/// The erase tool.
#[derive(Debug, Clone, Copy, PartialEq, Eq, Structural)]
pub struct Erase {}

/// What a frame of the erase tool does: a primary press deletes the node in the cell
/// under `pos`, with every wire into or out of it. `r` tells whether one was deleted.
pub open spec fn erase_ticked(g0: Graph, g1: Graph, input: Inputs, pos: IVec2, r: bool) -> bool {
    &&& r == (input.primary == Event::Starting && g0.grid_view().contains_key(cell_at(pos)))
    &&& r ==> ({
        let id = g0.grid_view()[cell_at(pos)];
        &&& g1.nodes_view() == g0.nodes_view().remove(index_in(g0.nodes_view(), id))
        &&& g1.grid_view() == g0.grid_view().remove(cell_at(pos))
        &&& g1.wires_view() == g0.wires_view().filter(|w: Wire| w.src != id && w.dst != id)
        &&& g1.dirty()
    })
    &&& !r ==> g1.nodes_view() == g0.nodes_view() && g1.grid_view() == g0.grid_view()
        && g1.wires_view() == g0.wires_view() && g1.dirty() == g0.dirty()
}

impl Erase {
    /// The erase tool.
    pub fn new() -> (r: Erase)
        ensures
            r == (Erase {  }),
    {
        Erase {  }
    }

    /// One frame of the erase tool at the cursor's snapped world position `pos`.
    pub fn tick(&mut self, input: &Inputs, graph: &mut Graph, pos: IVec2) -> (r: bool)
        requires
            old(graph).wf(),
        ensures
            final(graph).wf(),
            erase_ticked(*old(graph), *final(graph), *input, pos, r),
            final(graph).graph_id() == old(graph).graph_id(),
            final(graph).names_view() == old(graph).names_view(),
    {
        if input.primary.is_starting() {
            let cell = Graph::world_to_grid(pos);
            let hit = match graph.node_at(cell) {
                Some(n) => Some(*n.id()),
                None => None,
            };
            match hit {
                Some(id) => {
                    let _ = graph.destroy_node(&id, false);
                    return true;
                },
                None => {},
            }
        }
        false
    }
}

/// `nodes` where node `id` holds `gate` instead.
pub open spec fn regated(nodes: Seq<Node>, id: NodeId, gate: GateInstance) -> Seq<Node> {
    nodes.update(index_in(nodes, id), Node { gate, ..nodes[index_in(nodes, id)] })
}

/// The node the edit tool is dragging.
#[derive(Debug, Clone, Copy, PartialEq, Eq, Structural)]
pub struct EditDragging {
    pub id: NodeId,
}

/// The edit tool: it remembers the node being dragged, if any.
#[derive(Debug, Clone, Copy, PartialEq, Eq, Structural)]
pub struct Edit {
    pub target: Option<EditDragging>,
}

/// What a frame of the edit tool does: a secondary press gives the node in the cell
/// under `pos` a fresh instance of `gate`; a primary press starts dragging that node;
/// a primary release drops the dragged node at `pos`. It reports no change.
pub open spec fn edit_ticked(
    e0: Edit,
    e1: Edit,
    g0: Graph,
    g1: Graph,
    gate: Gate,
    input: Inputs,
    pos: IVec2,
    r: bool,
) -> bool {
    let hit = g0.grid_view().contains_key(cell_at(pos));
    let under = g0.grid_view()[cell_at(pos)];
    let nodes1 = if input.secondary == Event::Starting && hit {
        regated(g0.nodes_view(), under, GateInstance::spec_from_gate(gate))
    } else {
        g0.nodes_view()
    };
    let dragged = e0.target->0.id;
    let i = index_in(nodes1, dragged);
    let moves = input.primary == Event::Ending && e0.target is Some && contains_node(nodes1, dragged)
        && spec_world_to_grid(nodes1[i].position) != spec_world_to_grid(pos);
    &&& !r
    &&& g1.nodes_view() == if moves {
        nodes1.update(i, Node { position: pos, ..nodes1[i] })
    } else {
        nodes1
    }
    &&& g1.grid_view() == if moves {
        g0.grid_view().remove(cell_at(nodes1[i].position)).insert(cell_at(pos), dragged)
    } else {
        g0.grid_view()
    }
    &&& g1.wires_view() == g0.wires_view()
    &&& g1.dirty() == g0.dirty()
    &&& e1.target == if input.primary == Event::Starting && hit {
        Some(EditDragging { id: under })
    } else if input.primary == Event::Ending {
        None
    } else {
        e0.target
    }
}

impl Edit {
    /// An edit tool dragging nothing.
    pub fn new() -> (r: Edit)
        ensures
            r.target is None,
    {
        Edit { target: None }
    }

    /// One frame of the edit tool at the cursor's snapped world position `pos`.
    pub fn tick(&mut self, toolpane_gate: Gate, input: &Inputs, graph: &mut Graph, pos: IVec2) -> (r:
        bool)
        requires
            old(graph).wf(),
        ensures
            final(graph).wf(),
            edit_ticked(*old(self), *final(self), *old(graph), *final(graph), toolpane_gate, *input, pos, r),
            final(graph).graph_id() == old(graph).graph_id(),
            final(graph).names_view() == old(graph).names_view(),
    {
        let cell = Graph::world_to_grid(pos);
        if input.secondary.is_starting() {
            let hit = match graph.node_at(cell) {
                Some(n) => Some(*n.id()),
                None => None,
            };
            match hit {
                Some(id) => {
                    let _ = graph.set_gate(&id, GateInstance::from_gate(toolpane_gate));
                },
                None => {},
            }
        }
        if input.primary.is_starting() {
            match graph.node_at(cell) {
                Some(n) => {
                    self.target = Some(EditDragging { id: *n.id() });
                },
                None => {},
            }
        }
        if input.primary.is_ending() {
            match self.target {
                Some(d) => {
                    self.target = None;
                    let _ = graph.translate_node(&d.id, pos);
                },
                None => {},
            }
        }
        false
    }
}

/// The interact tool.
#[derive(Debug, Clone, Copy, PartialEq, Eq, Structural)]
pub struct Interact {}

/// What a frame of the interact tool does: a primary press on a node that no wire
/// enters switches it between `Or` and `Nor` (an input switched on or off); other
/// nodes are left alone. `r` tells whether one was switched.
pub open spec fn interact_ticked(g0: Graph, g1: Graph, input: Inputs, pos: IVec2, r: bool) -> bool {
    let id = g0.grid_view()[cell_at(pos)];
    let n = g0.node_of(id);
    let toggles = input.primary == Event::Starting && g0.grid_view().contains_key(cell_at(pos))
        && !has_input(g0.wires_view(), id) && (n.gate == GateInstance::Or || n.gate
        == GateInstance::Nor);
    &&& r == toggles
    &&& g1.nodes_view() == if toggles {
        g0.nodes_view().update(
            index_in(g0.nodes_view(), id),
            Node {
                gate: if n.gate == GateInstance::Or {
                    GateInstance::Nor
                } else {
                    GateInstance::Or
                },
                ..n
            },
        )
    } else {
        g0.nodes_view()
    }
    &&& g1.grid_view() == g0.grid_view()
    &&& g1.wires_view() == g0.wires_view()
    &&& g1.dirty() == g0.dirty()
}

impl Interact {
    /// The interact tool.
    pub fn new() -> (r: Interact)
        ensures
            r == (Interact {  }),
    {
        Interact {  }
    }

    /// One frame of the interact tool at the cursor's snapped world position `pos`.
    pub fn tick(&mut self, input: &Inputs, graph: &mut Graph, pos: IVec2) -> (r: bool)
        requires
            old(graph).wf(),
        ensures
            final(graph).wf(),
            interact_ticked(*old(graph), *final(graph), *input, pos, r),
            final(graph).graph_id() == old(graph).graph_id(),
            final(graph).names_view() == old(graph).names_view(),
    {
        if input.primary.is_starting() {
            let cell = Graph::world_to_grid(pos);
            let hit = match graph.node_at(cell) {
                Some(n) => Some((*n.id(), *n.gate())),
                None => None,
            };
            match hit {
                Some((id, gate)) => {
                    if graph.is_inputless(&id) {
                        let flipped = match gate {
                            GateInstance::Or => Some(GateInstance::Nor),
                            GateInstance::Nor => Some(GateInstance::Or),
                            _ => None,
                        };
                        match flipped {
                            Some(g) => {
                                let _ = graph.set_gate(&id, g);
                                return true;
                            },
                            None => {},
                        }
                    }
                },
                None => {},
            }
        }
        false
    }
}

/// A tool together with what it remembers between frames.
#[derive(Debug, Clone, Copy, PartialEq, Eq, Structural)]
pub enum Tool {
    Create(Create),
    Erase(Erase),
    Edit(Edit),
    Interact(Interact),
}

/// What a frame of tool `t0` does, by its kind; the tool keeps its kind.
pub open spec fn tool_ticked(
    t0: Tool,
    t1: Tool,
    g0: Graph,
    g1: Graph,
    gate: Gate,
    elbow: Elbow,
    input: Inputs,
    pos: IVec2,
    r: bool,
) -> bool {
    match (t0, t1) {
        (Tool::Create(a), Tool::Create(b)) => create_ticked(a, b, g0, g1, gate, elbow, input, pos, r),
        (Tool::Erase(_), Tool::Erase(_)) => erase_ticked(g0, g1, input, pos, r),
        (Tool::Edit(a), Tool::Edit(b)) => edit_ticked(a, b, g0, g1, gate, input, pos, r),
        (Tool::Interact(_), Tool::Interact(_)) => interact_ticked(g0, g1, input, pos, r),
        _ => false,
    }
}

impl Tool {
    /// The kind of a tool.
    pub open spec fn spec_id(self) -> ToolId {
        match self {
            Tool::Create(_) => ToolId::Create,
            Tool::Erase(_) => ToolId::Erase,
            Tool::Edit(_) => ToolId::Edit,
            Tool::Interact(_) => ToolId::Interact,
        }
    }

    /// The default tool is a create tool that remembers no node.
    pub fn default() -> (r: Tool)
        ensures
            r == Tool::Create(Create { current_node: None }),
    {
        Tool::Create(Create::new())
    }

    /// The tool's kind.
    pub fn id(&self) -> (r: ToolId)
        ensures
            r == self.spec_id(),
    {
        match self {
            Tool::Create(_) => ToolId::Create,
            Tool::Erase(_) => ToolId::Erase,
            Tool::Edit(_) => ToolId::Edit,
            Tool::Interact(_) => ToolId::Interact,
        }
    }

    /// One frame of the tool at the cursor's snapped world position `pos`, placing
    /// `toolpane_gate` nodes joined by `toolpane_elbow` wires; tells whether the graph's
    /// wiring changed.
    pub fn tick(
        &mut self,
        toolpane_gate: Gate,
        toolpane_elbow: Elbow,
        input: &Inputs,
        graph: &mut Graph,
        pos: IVec2,
    ) -> (r: bool)
        requires
            old(graph).wf(),
            *old(self) is Create ==> (input.primary == Event::Starting
                && !old(graph).grid_view().contains_key(cell_at(pos))
                ==> old(graph).next_node().0 != u128::MAX),
            *old(self) matches Tool::Create(c) ==> (input.primary == Event::Starting && wire_made(
                *old(graph),
                c.current_node,
                pos,
            ) ==> old(graph).next_wire().0 != u128::MAX),
        ensures
            final(graph).wf(),
            tool_ticked(
                *old(self),
                *final(self),
                *old(graph),
                *final(graph),
                toolpane_gate,
                toolpane_elbow,
                *input,
                pos,
                r,
            ),
            final(graph).graph_id() == old(graph).graph_id(),
            final(graph).names_view() == old(graph).names_view(),
    {
        match self {
            Tool::Create(t) => t.tick(toolpane_gate, toolpane_elbow, input, graph, pos),
            Tool::Erase(t) => t.tick(input, graph, pos),
            Tool::Edit(t) => t.tick(toolpane_gate, input, graph, pos),
            Tool::Interact(t) => t.tick(input, graph, pos),
        }
    }
}

/// Keeping the wires that pass a test every one of them passes keeps them all.
proof fn lemma_filter_keeps_all(s: Seq<Wire>, pred: spec_fn(Wire) -> bool)
    requires
        forall|i: int| 0 <= i < s.len() ==> pred(#[trigger] s[i]),
    ensures
        s.filter(pred) == s,
    decreases s.len(),
{
    reveal(Seq::filter);
    if s.len() > 0 {
        lemma_filter_keeps_all(s.drop_last(), pred);
        assert(pred(s[s.len() - 1]));
        assert(s.drop_last().push(s.last()) =~= s);
    }
}

/// Erasing, at the same place and on the next frame, the node the create tool has
/// just placed in an empty cell gives back the graph's nodes, grid and wires, the
/// wire drawn to the new node included.
pub proof fn lemma_erase_undoes_create(
    c0: Create,
    c1: Create,
    g0: Graph,
    g1: Graph,
    g2: Graph,
    gate: Gate,
    elbow: Elbow,
    input: Inputs,
    pos: IVec2,
    r1: bool,
    r2: bool,
)
    requires
        g0.wf(),
        g0.wires_connected(),
        g0.next_node().0 != u128::MAX,
        input.primary == Event::Starting,
        !g0.grid_view().contains_key(cell_at(pos)),
        create_ticked(c0, c1, g0, g1, gate, elbow, input, pos, r1),
        erase_ticked(g1, g2, input, pos, r2),
    ensures
        r2,
        g2.nodes_view() == g0.nodes_view(),
        g2.grid_view() == g0.grid_view(),
        g2.wires_view() == g0.wires_view(),
{
    let id = g0.next_node();
    let k = cell_at(pos);
    let n0 = g0.nodes_view();
    let n1 = g1.nodes_view();
    assert(g1.grid_view() == g0.grid_view().insert(k, id));
    assert(g1.grid_view().contains_key(k));
    assert(g1.grid_view()[k] == id);
    assert(n1 == n0.push(Node::new_spec(id, gate, pos)));
    assert(unique_nodes(n1)) by {
        assert forall|a: int, b: int| 0 <= a < n1.len() && 0 <= b < n1.len() && a != b implies n1[a].id
            != n1[b].id by {
            if a < n0.len() && b < n0.len() {
                assert(n1[a] == n0[a] && n1[b] == n0[b]);
            } else if a < n0.len() {
                assert(n1[a] == n0[a]);
                assert(n0[a].id.0 < id.0);
            } else {
                assert(n1[b] == n0[b]);
                assert(n0[b].id.0 < id.0);
            }
        }
    }
    lemma_index_in(n1, id, n0.len() as int);
    assert(n1.remove(n0.len() as int) =~= n0);
    assert(g2.grid_view() =~= g0.grid_view());
    let keep = |w: Wire| w.src != id && w.dst != id;
    let w0 = g0.wires_view();
    assert forall|i: int| 0 <= i < w0.len() implies keep(#[trigger] w0[i]) by {
        assert(g0.has_node(w0[i].src) && g0.has_node(w0[i].dst));
        let a = index_in(n0, w0[i].src);
        let b = index_in(n0, w0[i].dst);
        assert(n0[a].id.0 < id.0);
        assert(n0[b].id.0 < id.0);
    }
    lemma_filter_keeps_all(w0, keep);
    if r1 {
        let w = Wire { id: g0.next_wire(), elbow, src: c0.current_node->0, dst: id };
        assert(g1.wires_view() == w0.push(w));
        reveal(Seq::filter);
        assert(w0.push(w).drop_last() =~= w0);
        assert(g2.wires_view() == w0.push(w).filter(keep));
    } else {
        assert(g2.wires_view() == w0.filter(keep));
    }
}

/// A second press of the interact tool at the same place switches the node back: the
/// nodes are as before the first press.
pub proof fn lemma_interact_twice(
    g0: Graph,
    g1: Graph,
    g2: Graph,
    input: Inputs,
    pos: IVec2,
    r1: bool,
    r2: bool,
)
    requires
        g0.wf(),
        interact_ticked(g0, g1, input, pos, r1),
        interact_ticked(g1, g2, input, pos, r2),
    ensures
        r1 == r2,
        g2.nodes_view() == g0.nodes_view(),
        g2.grid_view() == g0.grid_view(),
        g2.wires_view() == g0.wires_view(),
{
    let k = cell_at(pos);
    if r1 {
        let id = g0.grid_view()[k];
        let n0 = g0.nodes_view();
        let i = index_in(n0, id);
        assert(g0.has_node(id));
        assert(0 <= i < n0.len() && n0[i].id == id);
        let n1 = g1.nodes_view();
        assert(n1 == n0.update(i, Node { gate: n1[i].gate, ..n0[i] }));
        assert(unique_nodes(n1)) by {
            assert forall|a: int, b: int|
                0 <= a < n1.len() && 0 <= b < n1.len() && a != b implies n1[a].id != n1[b].id by {
                assert(n1[a].id == n0[a].id && n1[b].id == n0[b].id);
            }
        }
        lemma_index_in(n1, id, i);
        assert(g1.grid_view()[k] == id);
        assert(n1.update(i, Node { gate: n0[i].gate, ..n1[i] }) =~= n0);
    }
}

/// A fresh tool of kind `id`, remembering nothing.
pub open spec fn fresh_tool(id: ToolId) -> Tool {
    match id {
        ToolId::Create => Tool::Create(Create { current_node: None }),
        ToolId::Erase => Tool::Erase(Erase {  }),
        ToolId::Edit => Tool::Edit(Edit { target: None }),
        ToolId::Interact => Tool::Interact(Interact {  }),
    }
}

impl ToolId {
    /// A fresh tool of this kind.
    pub fn init(self) -> (r: Tool)
        ensures
            r == fresh_tool(self),
            r.spec_id() == self,
    {
        match self {
            ToolId::Create => Tool::Create(Create::new()),
            ToolId::Erase => Tool::Erase(Erase::new()),
            ToolId::Edit => Tool::Edit(Edit::new()),
            ToolId::Interact => Tool::Interact(Interact::new()),
        }
    }
}

} // verus!
