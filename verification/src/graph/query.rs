//! How the wires of a graph meet its nodes: the wires into and out of a node, the nodes
//! with no inputs or no outputs, and the adjacency lists of the whole graph.
use super::{Flow, Graph, Node, Wire};
use crate::ids::NodeId;
use vstd::prelude::*;

verus! {

/// Some wire of `wires` leaves `id`.
pub open spec fn has_output(wires: Seq<Wire>, id: NodeId) -> bool {
    exists|k: int| 0 <= k < wires.len() && wires[k].src == id
}

/// Some wire of `wires` enters `id`.
pub open spec fn has_input(wires: Seq<Wire>, id: NodeId) -> bool {
    exists|k: int| 0 <= k < wires.len() && wires[k].dst == id
}

/// How the wire `w` meets the node `id`, if it does.
pub open spec fn flow_of(w: Wire, id: NodeId) -> Option<Flow> {
    if w.src == id && w.dst == id {
        Some(Flow::Loop)
    } else if w.src == id {
        Some(Flow::Output)
    } else if w.dst == id {
        Some(Flow::Input)
    } else {
        None
    }
}

/// Each wire of `wires` that meets `id`, with how it meets it, in order.
pub open spec fn wire_flows(wires: Seq<Wire>, id: NodeId) -> Seq<(Wire, Flow)>
    decreases wires.len(),
{
    if wires.len() == 0 {
        Seq::empty()
    } else {
        let rest = wire_flows(wires.drop_last(), id);
        match flow_of(wires.last(), id) {
            Some(f) => rest.push((wires.last(), f)),
            None => rest,
        }
    }
}

/// The sources of the wires into `id`, the latest wire first.
pub open spec fn sources_into(wires: Seq<Wire>, id: NodeId) -> Seq<NodeId>
    decreases wires.len(),
{
    if wires.len() == 0 {
        Seq::empty()
    } else {
        let rest = sources_into(wires.drop_last(), id);
        if wires.last().dst == id {
            seq![wires.last().src] + rest
        } else {
            rest
        }
    }
}

/// The ends of the wires out of `id`, the latest wire first.
pub open spec fn targets_of(wires: Seq<Wire>, id: NodeId) -> Seq<NodeId>
    decreases wires.len(),
{
    if wires.len() == 0 {
        Seq::empty()
    } else {
        let rest = targets_of(wires.drop_last(), id);
        if wires.last().src == id {
            seq![wires.last().dst] + rest
        } else {
            rest
        }
    }
}

/// Each node some wire enters, once, in the order of the first wire into it.
pub open spec fn wire_dsts(wires: Seq<Wire>) -> Seq<NodeId>
    decreases wires.len(),
{
    if wires.len() == 0 {
        Seq::empty()
    } else {
        let rest = wire_dsts(wires.drop_last());
        if rest.contains(wires.last().dst) {
            rest
        } else {
            rest.push(wires.last().dst)
        }
    }
}

/// Each node some wire leaves, once, in the order of the first wire out of it.
pub open spec fn wire_srcs(wires: Seq<Wire>) -> Seq<NodeId>
    decreases wires.len(),
{
    if wires.len() == 0 {
        Seq::empty()
    } else {
        let rest = wire_srcs(wires.drop_last());
        if rest.contains(wires.last().src) {
            rest
        } else {
            rest.push(wires.last().src)
        }
    }
}

/// The identifiers of the nodes that no wire enters, in node order.
pub open spec fn inputless_ids(nodes: Seq<Node>, wires: Seq<Wire>) -> Seq<NodeId>
    decreases nodes.len(),
{
    if nodes.len() == 0 {
        Seq::empty()
    } else {
        let rest = inputless_ids(nodes.drop_last(), wires);
        if has_input(wires, nodes.last().id) {
            rest
        } else {
            rest.push(nodes.last().id)
        }
    }
}

/// The identifiers of the nodes that no wire leaves, in node order.
pub open spec fn outputless_ids(nodes: Seq<Node>, wires: Seq<Wire>) -> Seq<NodeId>
    decreases nodes.len(),
{
    if nodes.len() == 0 {
        Seq::empty()
    } else {
        let rest = outputless_ids(nodes.drop_last(), wires);
        if has_output(wires, nodes.last().id) {
            rest
        } else {
            rest.push(nodes.last().id)
        }
    }
}

/// Whether `v` holds `id`.
fn holds_id(v: &Vec<NodeId>, id: NodeId) -> (r: bool)
    ensures
        r == v@.contains(id),
{
    let mut i: usize = 0;
    while i < v.len()
        invariant
            i <= v@.len(),
            forall|k: int| 0 <= k < i ==> v@[k] != id,
        decreases v@.len() - i,
    {
        if v[i] == id {
            assert(v@[i as int] == id);
            return true;
        }
        i = i + 1;
    }
    false
}

/// Whether a wire of `wires` leaves (`outgoing`) or enters `id`.
fn meets(wires: &Vec<Wire>, id: NodeId, outgoing: bool) -> (r: bool)
    ensures
        outgoing ==> r == has_output(wires@, id),
        !outgoing ==> r == has_input(wires@, id),
{
    let mut i: usize = 0;
    while i < wires.len()
        invariant
            i <= wires@.len(),
            forall|k: int|
                0 <= k < i ==> if outgoing {
                    wires@[k].src != id
                } else {
                    wires@[k].dst != id
                },
        decreases wires@.len() - i,
    {
        let w = wires[i];
        if (outgoing && w.src == id) || (!outgoing && w.dst == id) {
            return true;
        }
        i = i + 1;
    }
    false
}

/// The sources of the wires into `id`, the latest wire first.
fn collect_sources(wires: &Vec<Wire>, id: NodeId) -> (r: Vec<NodeId>)
    ensures
        r@ == sources_into(wires@, id),
{
    let mut r: Vec<NodeId> = Vec::new();
    let mut i: usize = 0;
    while i < wires.len()
        invariant
            i <= wires@.len(),
            r@ == sources_into(wires@.take(i as int), id),
        decreases wires@.len() - i,
    {
        assert(wires@.take(i + 1).drop_last() =~= wires@.take(i as int));
        if wires[i].dst == id {
            let ghost before = r@;
            r.insert(0, wires[i].src);
            assert(r@ =~= seq![wires@[i as int].src] + before);
        }
        i = i + 1;
    }
    assert(wires@.take(wires@.len() as int) =~= wires@);
    r
}

/// The ends of the wires out of `id`, the latest wire first.
fn collect_targets(wires: &Vec<Wire>, id: NodeId) -> (r: Vec<NodeId>)
    ensures
        r@ == targets_of(wires@, id),
{
    let mut r: Vec<NodeId> = Vec::new();
    let mut i: usize = 0;
    while i < wires.len()
        invariant
            i <= wires@.len(),
            r@ == targets_of(wires@.take(i as int), id),
        decreases wires@.len() - i,
    {
        assert(wires@.take(i + 1).drop_last() =~= wires@.take(i as int));
        if wires[i].src == id {
            let ghost before = r@;
            r.insert(0, wires[i].dst);
            assert(r@ =~= seq![wires@[i as int].dst] + before);
        }
        i = i + 1;
    }
    assert(wires@.take(wires@.len() as int) =~= wires@);
    r
}

/// Each node a wire enters (`incoming`) or leaves, once, in order of first appearance.
fn collect_ends(wires: &Vec<Wire>, incoming: bool) -> (r: Vec<NodeId>)
    ensures
        incoming ==> r@ == wire_dsts(wires@),
        !incoming ==> r@ == wire_srcs(wires@),
{
    let mut r: Vec<NodeId> = Vec::new();
    let mut i: usize = 0;
    while i < wires.len()
        invariant
            i <= wires@.len(),
            incoming ==> r@ == wire_dsts(wires@.take(i as int)),
            !incoming ==> r@ == wire_srcs(wires@.take(i as int)),
        decreases wires@.len() - i,
    {
        assert(wires@.take(i + 1).drop_last() =~= wires@.take(i as int));
        let end = if incoming {
            wires[i].dst
        } else {
            wires[i].src
        };
        if !holds_id(&r, end) {
            r.push(end);
        }
        i = i + 1;
    }
    assert(wires@.take(wires@.len() as int) =~= wires@);
    r
}

/// For each node in `keys`, the list `incoming` picks: the sources into it, or the ends
/// out of it.
fn adjacency_lists(wires: &Vec<Wire>, keys: Vec<NodeId>, incoming: bool) -> (r: Vec<
    (NodeId, Vec<NodeId>),
>)
    ensures
        r@.len() == keys@.len(),
        forall|i: int|
            0 <= i < keys@.len() ==> (#[trigger] r@[i]).0 == keys@[i] && (if incoming {
                r@[i].1@ == sources_into(wires@, keys@[i])
            } else {
                r@[i].1@ == targets_of(wires@, keys@[i])
            }),
{
    let mut r: Vec<(NodeId, Vec<NodeId>)> = Vec::new();
    let mut i: usize = 0;
    while i < keys.len()
        invariant
            i <= keys@.len(),
            r@.len() == i,
            forall|k: int|
                0 <= k < i ==> (#[trigger] r@[k]).0 == keys@[k] && (if incoming {
                    r@[k].1@ == sources_into(wires@, keys@[k])
                } else {
                    r@[k].1@ == targets_of(wires@, keys@[k])
                }),
        decreases keys@.len() - i,
    {
        let key = keys[i];
        let list = if incoming {
            collect_sources(wires, key)
        } else {
            collect_targets(wires, key)
        };
        r.push((key, list));
        i = i + 1;
    }
    r
}

impl Graph {
    /// The wires that enter `node`, in the order the graph keeps them.
    pub fn inputs_to(&self, node: &NodeId) -> (r: Vec<Wire>)
        ensures
            r@ == self.wires_view().filter(|w: Wire| w.dst == *node),
    {
        let ghost pred = |w: Wire| w.dst == *node;
        let mut r: Vec<Wire> = Vec::new();
        let mut i: usize = 0;
        while i < self.wires.len()
            invariant
                i <= self.wires@.len(),
                r@ == self.wires@.take(i as int).filter(pred),
                pred == (|w: Wire| w.dst == *node),
            decreases self.wires@.len() - i,
        {
            proof {
                reveal(Seq::filter);
                assert(self.wires@.take(i + 1).drop_last() =~= self.wires@.take(i as int));
            }
            if self.wires[i].dst == *node {
                r.push(self.wires[i]);
            }
            i = i + 1;
        }
        assert(self.wires@.take(self.wires@.len() as int) =~= self.wires@);
        r
    }

    /// The wires that leave `node`, in the order the graph keeps them.
    pub fn outputs_from(&self, node: &NodeId) -> (r: Vec<Wire>)
        ensures
            r@ == self.wires_view().filter(|w: Wire| w.src == *node),
    {
        let ghost pred = |w: Wire| w.src == *node;
        let mut r: Vec<Wire> = Vec::new();
        let mut i: usize = 0;
        while i < self.wires.len()
            invariant
                i <= self.wires@.len(),
                r@ == self.wires@.take(i as int).filter(pred),
                pred == (|w: Wire| w.src == *node),
            decreases self.wires@.len() - i,
        {
            proof {
                reveal(Seq::filter);
                assert(self.wires@.take(i + 1).drop_last() =~= self.wires@.take(i as int));
            }
            if self.wires[i].src == *node {
                r.push(self.wires[i]);
            }
            i = i + 1;
        }
        assert(self.wires@.take(self.wires@.len() as int) =~= self.wires@);
        r
    }

    /// Every wire that meets `node`, with how it meets it: `Loop` if it both leaves and
    /// enters it, else `Output` or `Input`.
    pub fn wires_of(&self, node: &NodeId) -> (r: Vec<(Wire, Flow)>)
        ensures
            r@ == wire_flows(self.wires_view(), *node),
    {
        let mut r: Vec<(Wire, Flow)> = Vec::new();
        let mut i: usize = 0;
        while i < self.wires.len()
            invariant
                i <= self.wires@.len(),
                r@ == wire_flows(self.wires@.take(i as int), *node),
            decreases self.wires@.len() - i,
        {
            assert(self.wires@.take(i + 1).drop_last() =~= self.wires@.take(i as int));
            let w = self.wires[i];
            if w.src == *node && w.dst == *node {
                r.push((w, Flow::Loop));
            } else if w.src == *node {
                r.push((w, Flow::Output));
            } else if w.dst == *node {
                r.push((w, Flow::Input));
            }
            i = i + 1;
        }
        assert(self.wires@.take(self.wires@.len() as int) =~= self.wires@);
        r
    }

    /// No wire enters `node`.
    pub fn is_inputless(&self, node: &NodeId) -> (r: bool)
        ensures
            r == !has_input(self.wires_view(), *node),
    {
        !meets(&self.wires, *node, false)
    }

    /// No wire leaves `node`.
    pub fn is_outputless(&self, node: &NodeId) -> (r: bool)
        ensures
            r == !has_output(self.wires_view(), *node),
    {
        !meets(&self.wires, *node, true)
    }

    /// The nodes that no wire enters, in node order.
    pub fn inputless_nodes(&self) -> (r: Vec<NodeId>)
        ensures
            r@ == inputless_ids(self.nodes_view(), self.wires_view()),
    {
        let mut r: Vec<NodeId> = Vec::new();
        let mut i: usize = 0;
        while i < self.nodes.len()
            invariant
                i <= self.nodes@.len(),
                r@ == inputless_ids(self.nodes@.take(i as int), self.wires@),
            decreases self.nodes@.len() - i,
        {
            assert(self.nodes@.take(i + 1).drop_last() =~= self.nodes@.take(i as int));
            let id = self.nodes[i].id;
            if !meets(&self.wires, id, false) {
                r.push(id);
            }
            i = i + 1;
        }
        assert(self.nodes@.take(self.nodes@.len() as int) =~= self.nodes@);
        r
    }

    /// The nodes that no wire leaves, in node order.
    pub fn outputless_nodes(&self) -> (r: Vec<NodeId>)
        ensures
            r@ == outputless_ids(self.nodes_view(), self.wires_view()),
    {
        let mut r: Vec<NodeId> = Vec::new();
        let mut i: usize = 0;
        while i < self.nodes.len()
            invariant
                i <= self.nodes@.len(),
                r@ == outputless_ids(self.nodes@.take(i as int), self.wires@),
            decreases self.nodes@.len() - i,
        {
            assert(self.nodes@.take(i + 1).drop_last() =~= self.nodes@.take(i as int));
            let id = self.nodes[i].id;
            if !meets(&self.wires, id, true) {
                r.push(id);
            }
            i = i + 1;
        }
        assert(self.nodes@.take(self.nodes@.len() as int) =~= self.nodes@);
        r
    }

    /// For each node some wire enters (in order of the first such wire): the sources of
    /// the wires into it.
    pub fn adjacent_in(&self) -> (r: Vec<(NodeId, Vec<NodeId>)>)
        ensures
            r@.len() == wire_dsts(self.wires_view()).len(),
            forall|i: int|
                0 <= i < r@.len() ==> (#[trigger] r@[i]).0 == wire_dsts(self.wires_view())[i]
                    && r@[i].1@ == sources_into(self.wires_view(), r@[i].0),
    {
        let keys = collect_ends(&self.wires, true);
        adjacency_lists(&self.wires, keys, true)
    }

    /// For each node some wire leaves (in order of the first such wire): the ends of the
    /// wires out of it.
    pub fn adjacent_out(&self) -> (r: Vec<(NodeId, Vec<NodeId>)>)
        ensures
            r@.len() == wire_srcs(self.wires_view()).len(),
            forall|i: int|
                0 <= i < r@.len() ==> (#[trigger] r@[i]).0 == wire_srcs(self.wires_view())[i]
                    && r@[i].1@ == targets_of(self.wires_view(), r@[i].0),
    {
        let keys = collect_ends(&self.wires, false);
        adjacency_lists(&self.wires, keys, false)
    }

    /// Both adjacencies: what [`Graph::adjacent_in`] and [`Graph::adjacent_out`] give.
    pub fn adjacent(&self) -> (r: (Vec<(NodeId, Vec<NodeId>)>, Vec<(NodeId, Vec<NodeId>)>))
        ensures
            r.0@.len() == wire_dsts(self.wires_view()).len(),
            forall|i: int|
                0 <= i < r.0@.len() ==> (#[trigger] r.0@[i]).0 == wire_dsts(self.wires_view())[i]
                    && r.0@[i].1@ == sources_into(self.wires_view(), r.0@[i].0),
            r.1@.len() == wire_srcs(self.wires_view()).len(),
            forall|i: int|
                0 <= i < r.1@.len() ==> (#[trigger] r.1@[i]).0 == wire_srcs(self.wires_view())[i]
                    && r.1@[i].1@ == targets_of(self.wires_view(), r.1@[i].0),
    {
        (self.adjacent_in(), self.adjacent_out())
    }
}

} // verus!
