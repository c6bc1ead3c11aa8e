//! Which order the nodes of a graph are evaluated in, and one tick of evaluation.
//!
//! The order is worked out in three steps. A depth-first walk along the wires, from each
//! node without inputs in turn, finishes every node such a node leads to; a node's depth
//! is one more than that of its deepest finished target. A second depth-first walk, against
//! the wires, covers the other nodes: it starts from those without outputs, then from
//! those that feed a node already finished, then from any left. Those other nodes then
//! get their depths in the order that second walk ranks them, each one more than the
//! deepest node it feeds that already has one. The nodes, deepest first, are the
//! evaluation order: a node comes after every node that feeds it, unless the two lie on
//! a cycle; a cycle fed from a node without inputs is entered where it is fed, and any
//! other cycle that feeds out ends where it feeds out.
use super::query::{has_input, has_output};
use super::{
    contains_node, index_in, lemma_index_in, lemma_same_ids_wf, unique_nodes, wire_between, Graph,
    Node, Wire,
};
use crate::gate::{count_true, lemma_gate_outputs};
use crate::ids::NodeId;
use std::collections::HashMap;
use vstd::prelude::*;

verus! {

/// How many of `s` are `false`.
pub open spec fn count_false(s: Seq<bool>) -> nat
    decreases s.len(),
{
    if s.len() == 0 {
        0
    } else {
        count_false(s.drop_last()) + if s.last() {
            0nat
        } else {
            1nat
        }
    }
}

/// Setting a `false` entry to `true` takes one from the count of `false` entries.
proof fn lemma_count_false_set(s: Seq<bool>, i: int)
    requires
        0 <= i < s.len(),
        !s[i],
    ensures
        count_false(s.update(i, true)) + 1 == count_false(s),
    decreases s.len(),
{
    let u = s.update(i, true);
    if i == s.len() - 1 {
        assert(u.drop_last() =~= s.drop_last());
    } else {
        assert(u.drop_last() =~= s.drop_last().update(i, true));
        lemma_count_false_set(s.drop_last(), i);
    }
}

/// With no `false` entry the count is zero; with no `true` entry it is the length.
proof fn lemma_count_false_uniform(s: Seq<bool>)
    ensures
        (forall|i: int| 0 <= i < s.len() ==> s[i]) ==> count_false(s) == 0,
        (forall|i: int| 0 <= i < s.len() ==> !s[i]) ==> count_false(s) == s.len(),
    decreases s.len(),
{
    if s.len() > 0 {
        lemma_count_false_uniform(s.drop_last());
        if forall|i: int| 0 <= i < s.len() ==> s[i] {
            assert forall|i: int| 0 <= i < s.drop_last().len() implies s.drop_last()[i] by {
                assert(s.drop_last()[i] == s[i]);
            }
            assert(s[s.len() - 1]);
        }
        if forall|i: int| 0 <= i < s.len() ==> !s[i] {
            assert forall|i: int| 0 <= i < s.drop_last().len() implies !s.drop_last()[i] by {
                assert(s.drop_last()[i] == s[i]);
            }
            assert(!s[s.len() - 1]);
        }
    }
}

/// `n` copies of `value`.
fn flags(n: usize, value: bool) -> (r: Vec<bool>)
    ensures
        r@.len() == n,
        forall|i: int| 0 <= i < n ==> r@[i] == value,
{
    let mut r: Vec<bool> = Vec::new();
    let mut i: usize = 0;
    while i < n
        invariant
            i <= n,
            r@.len() == i,
            forall|k: int| 0 <= k < i ==> r@[k] == value,
        decreases n - i,
    {
        r.push(value);
        i = i + 1;
    }
    r
}

/// `src` and `dst` give, for each wire, the index of the node it leaves and enters.
pub open spec fn ends_ok(src: Seq<usize>, dst: Seq<usize>, nodes: Seq<Node>, wires: Seq<Wire>) -> bool {
    &&& src.len() == wires.len()
    &&& dst.len() == wires.len()
    &&& forall|e: int|
        0 <= e < wires.len() ==> (#[trigger] src[e]) < nodes.len() && nodes[src[e] as int].id
            == wires[e].src
    &&& forall|e: int|
        0 <= e < wires.len() ==> (#[trigger] dst[e]) < nodes.len() && nodes[dst[e] as int].id
            == wires[e].dst
}

/// The index of the node `id`, which `nodes` must hold.
fn find_node(nodes: &Vec<Node>, id: NodeId) -> (r: usize)
    requires
        unique_nodes(nodes@),
        contains_node(nodes@, id),
    ensures
        r < nodes@.len(),
        nodes@[r as int].id == id,
{
    let mut i: usize = 0;
    while i < nodes.len()
        invariant
            i <= nodes@.len(),
            contains_node(nodes@, id),
            forall|k: int| 0 <= k < i ==> nodes@[k].id != id,
        decreases nodes@.len() - i,
    {
        if nodes[i].id == id {
            return i;
        }
        i = i + 1;
    }
    proof {
        let k = index_in(nodes@, id);
        assert(nodes@[k].id == id);
    }
    0
}

/// For each wire, the indices of the two nodes it joins.
fn wire_ends(nodes: &Vec<Node>, wires: &Vec<Wire>) -> (r: (Vec<usize>, Vec<usize>))
    requires
        unique_nodes(nodes@),
        forall|e: int|
            0 <= e < wires@.len() ==> contains_node(nodes@, (#[trigger] wires@[e]).src)
                && contains_node(nodes@, wires@[e].dst),
    ensures
        ends_ok(r.0@, r.1@, nodes@, wires@),
{
    let mut src: Vec<usize> = Vec::new();
    let mut dst: Vec<usize> = Vec::new();
    let mut e: usize = 0;
    while e < wires.len()
        invariant
            e <= wires@.len(),
            unique_nodes(nodes@),
            forall|k: int|
                0 <= k < wires@.len() ==> contains_node(nodes@, (#[trigger] wires@[k]).src)
                    && contains_node(nodes@, wires@[k].dst),
            src@.len() == e,
            dst@.len() == e,
            forall|k: int|
                0 <= k < e ==> (#[trigger] src@[k]) < nodes@.len() && nodes@[src@[k] as int].id
                    == wires@[k].src,
            forall|k: int|
                0 <= k < e ==> (#[trigger] dst@[k]) < nodes@.len() && nodes@[dst@[k] as int].id
                    == wires@[k].dst,
        decreases wires@.len() - e,
    {
        let w = wires[e];
        assert(wires@[e as int] == w);
        src.push(find_node(nodes, w.src));
        dst.push(find_node(nodes, w.dst));
        e = e + 1;
    }
    (src, dst)
}

/// For each node index below `n`, whether some entry of `ends` names it.
fn marked(ends: &Vec<usize>, n: usize) -> (r: Vec<bool>)
    requires
        forall|e: int| 0 <= e < ends@.len() ==> (#[trigger] ends@[e]) < n,
    ensures
        r@.len() == n,
        forall|v: int|
            0 <= v < n ==> (#[trigger] r@[v] <==> exists|e: int|
                0 <= e < ends@.len() && ends@[e] == v),
{
    let mut r = flags(n, false);
    let mut e: usize = 0;
    while e < ends.len()
        invariant
            e <= ends@.len(),
            r@.len() == n,
            forall|k: int| 0 <= k < ends@.len() ==> (#[trigger] ends@[k]) < n,
            forall|v: int|
                0 <= v < n ==> (#[trigger] r@[v] <==> exists|k: int|
                    0 <= k < e && ends@[k] == v),
        decreases ends@.len() - e,
    {
        let v = ends[e];
        r.set(v, true);
        proof {
            assert forall|u: int| 0 <= u < n implies (#[trigger] r@[u] <==> exists|k: int|
                0 <= k < e + 1 && ends@[k] == u) by {
                if u == v {
                    assert(ends@[e as int] == u);
                }
            }
        }
        e = e + 1;
    }
    r
}

/// Entry `k` of the walk `q` was found from an earlier entry, one level shallower, that
/// a wire leads to from it.
pub open spec fn found_from(q: Seq<(usize, usize)>, k: int, src: Seq<usize>, dst: Seq<usize>) -> bool {
    exists|j: int, e: int|
        0 <= j < k && q[j].0 + 1 == q[k].0 && 0 <= e < src.len() && src[e] == q[k].1 && dst[e]
            == q[j].1
}

/// The state of the walk: `q` lists (depth, node index) in the order the nodes were
/// found, each node at most once and at a depth no larger than its place; `disc` marks
/// exactly the nodes found so far; and every entry past depth zero was found from an
/// earlier one.
pub open spec fn walk_ok(
    q: Seq<(usize, usize)>,
    disc: Seq<bool>,
    src: Seq<usize>,
    dst: Seq<usize>,
    n: nat,
) -> bool {
    &&& disc.len() == n
    &&& count_false(disc) + q.len() == n
    &&& forall|k: int|
        0 <= k < q.len() ==> (#[trigger] q[k]).1 < n && disc[q[k].1 as int] && q[k].0 <= k
    &&& forall|a: int, b: int|
        0 <= a < q.len() && 0 <= b < q.len() && a != b ==> (#[trigger] q[a]).1 != (
        #[trigger] q[b]).1
    &&& forall|v: int|
        0 <= v < n && #[trigger] disc[v] ==> exists|k: int| 0 <= k < q.len() && q[k].1 == v
    &&& forall|k: int| 0 <= k < q.len() && (#[trigger] q[k]).0 > 0 ==> found_from(q, k, src, dst)
}

/// Finding a new node `w` at depth `d` keeps the walk in order, when `d` is zero or the
/// node is found from entry `j` through wire `e`.
proof fn lemma_walk_push(
    q: Seq<(usize, usize)>,
    disc: Seq<bool>,
    src: Seq<usize>,
    dst: Seq<usize>,
    n: nat,
    d: usize,
    w: usize,
    j: int,
    e: int,
)
    requires
        walk_ok(q, disc, src, dst, n),
        w < n,
        !disc[w as int],
        d <= q.len(),
        d == 0 || (0 <= j < q.len() && q[j].0 + 1 == d && 0 <= e < src.len() && src[e] == w
            && dst[e] == q[j].1),
    ensures
        walk_ok(q.push((d, w)), disc.update(w as int, true), src, dst, n),
{
    let q2 = q.push((d, w));
    let disc2 = disc.update(w as int, true);
    lemma_count_false_set(disc, w as int);
    assert forall|k: int| 0 <= k < q2.len() implies (#[trigger] q2[k]).1 < n && disc2[q2[k].1 as int]
        && q2[k].0 <= k by {
        if k < q.len() {
            assert(q2[k] == q[k]);
        }
    }
    assert forall|a: int, b: int|
        0 <= a < q2.len() && 0 <= b < q2.len() && a != b implies (#[trigger] q2[a]).1 != (
        #[trigger] q2[b]).1 by {
        if a < q.len() && b < q.len() {
            assert(q2[a] == q[a] && q2[b] == q[b]);
        } else if a < q.len() {
            assert(q2[a] == q[a]);
            assert(disc[q[a].1 as int]);
        } else {
            assert(q2[b] == q[b]);
            assert(disc[q[b].1 as int]);
        }
    }
    assert forall|v: int| 0 <= v < n && #[trigger] disc2[v] implies exists|k: int|
        0 <= k < q2.len() && q2[k].1 == v by {
        if v == w {
            assert(q2[q.len() as int].1 == v);
        } else {
            assert(disc[v]);
            let k = choose|k: int| 0 <= k < q.len() && q[k].1 == v;
            assert(q2[k] == q[k]);
        }
    }
    assert forall|k: int| 0 <= k < q2.len() && (#[trigger] q2[k]).0 > 0 implies found_from(
        q2,
        k,
        src,
        dst,
    ) by {
        if k < q.len() {
            assert(q2[k] == q[k]);
            assert(found_from(q, k, src, dst));
            let (j0, e0) = choose|j0: int, e0: int|
                0 <= j0 < k && q[j0].0 + 1 == q[k].0 && 0 <= e0 < src.len() && src[e0] == q[k].1
                    && dst[e0] == q[j0].1;
            assert(q2[j0] == q[j0]);
        } else {
            assert(q2[j] == q[j]);
        }
    }
}

/// Every wire end is a node index below `n`.
pub open spec fn ends_below(src: Seq<usize>, dst: Seq<usize>, n: nat) -> bool {
    &&& src.len() == dst.len()
    &&& forall|e: int| 0 <= e < src.len() ==> (#[trigger] src[e]) < n
    &&& forall|e: int| 0 <= e < dst.len() ==> (#[trigger] dst[e]) < n
}

/// Some wire leaves node `a` for node `b`.
pub open spec fn has_edge(src: Seq<usize>, dst: Seq<usize>, a: usize, b: usize) -> bool {
    exists|e: int| 0 <= e < src.len() && src[e] == a && dst[e] == b
}

/// Each node of `p` has a wire to the next one.
pub open spec fn is_path(src: Seq<usize>, dst: Seq<usize>, p: Seq<usize>) -> bool {
    &&& p.len() > 0
    &&& forall|i: int| 0 <= i < p.len() - 1 ==> #[trigger] has_edge(src, dst, p[i], p[i + 1])
}

/// Following wires leads from node `a` to node `b` (in no steps when they are the same).
pub open spec fn reaches(src: Seq<usize>, dst: Seq<usize>, a: usize, b: usize) -> bool {
    exists|p: Seq<usize>| is_path(src, dst, p) && p[0] == a && p.last() == b
}

/// Wire `e` is settled in the walk `q`: its target leads back to its source, or its
/// source was finished after its target, at a greater depth.
pub open spec fn edge_done(q: Seq<(usize, usize)>, src: Seq<usize>, dst: Seq<usize>, e: int) -> bool {
    ||| reaches(src, dst, dst[e], src[e])
    ||| exists|a: int, b: int|
        0 <= b < a < q.len() && q[a].1 == src[e] && q[b].1 == dst[e] && q[a].0 > q[b].0
}

/// The state of the depth-first walk: `q` lists the finished nodes with their depths in
/// the order they were finished, `disc` marks them, `gray` marks exactly the nodes of
/// `stack`, the path being walked; each finished node's depth is in `depth`; and every
/// wire leaving a finished node is settled.
pub open spec fn dfs_ok(
    q: Seq<(usize, usize)>,
    disc: Seq<bool>,
    gray: Seq<bool>,
    depth: Seq<usize>,
    src: Seq<usize>,
    dst: Seq<usize>,
    n: nat,
    stack: Seq<usize>,
) -> bool {
    &&& walk_ok(q, disc, src, dst, n)
    &&& ends_below(src, dst, n)
    &&& gray.len() == n
    &&& depth.len() == n
    &&& forall|x: int| 0 <= x < n ==> (#[trigger] gray[x] <==> stack.contains(x as usize))
    &&& forall|x: int| 0 <= x < n ==> !(#[trigger] gray[x] && disc[x])
    &&& stack.no_duplicates()
    &&& forall|i: int| 0 <= i < stack.len() ==> (#[trigger] stack[i]) < n
    &&& stack.len() > 0 ==> is_path(src, dst, stack)
    &&& forall|k: int| 0 <= k < q.len() ==> depth[(#[trigger] q[k]).1 as int] == q[k].0
    &&& forall|e: int| 0 <= e < src.len() && disc[#[trigger] src[e] as int] ==> edge_done(q, src, dst, e)
    &&& closed(disc, gray, src, dst)
}

/// Every finished node outside the starting points `rt` is fed by a node on the path, or
/// by a finished node deeper than it.
pub open spec fn fed_inv(
    disc: Seq<bool>,
    gray: Seq<bool>,
    depth: Seq<usize>,
    src: Seq<usize>,
    dst: Seq<usize>,
    rt: Seq<bool>,
) -> bool {
    forall|w: int|
        0 <= w < disc.len() && #[trigger] disc[w] && !rt[w] ==> exists|e: int|
            0 <= e < src.len() && dst[e] == w && (gray[src[e] as int] || (disc[src[e] as int]
                && depth[src[e] as int] > depth[w]))
}

/// Some wire into node `w` leaves a node that the walk `q` finished deeper than `w`.
pub open spec fn fed_from_deeper(q: Seq<(usize, usize)>, src: Seq<usize>, dst: Seq<usize>, w: int) -> bool {
    exists|e: int, a: int, b: int|
        0 <= e < src.len() && dst[e] == w && 0 <= a < q.len() && 0 <= b < q.len() && q[a].1 == src[e]
            && q[b].1 == w && q[a].0 > q[b].0
}

/// Every wire leaving a finished node leads to a finished node or to one on the path.
pub open spec fn closed(disc: Seq<bool>, gray: Seq<bool>, src: Seq<usize>, dst: Seq<usize>) -> bool {
    forall|e: int|
        0 <= e < src.len() && disc[#[trigger] src[e] as int] ==> disc[dst[e] as int] || gray[dst[e]
            as int]
}

/// `a` and `b` mark the same nodes, or `b` marks more.
pub open spec fn marks_more(a: Seq<bool>, b: Seq<bool>) -> bool {
    a.len() == b.len() && forall|i: int| 0 <= i < a.len() ==> a[i] ==> #[trigger] b[i]
}

/// The nodes that are finished or on the path.
pub open spec fn known(disc: Seq<bool>, gray: Seq<bool>) -> Seq<bool> {
    Seq::new(disc.len(), |i: int| disc[i] || gray[i])
}

/// Marking more leaves no more unmarked.
proof fn lemma_count_false_mono(a: Seq<bool>, b: Seq<bool>)
    requires
        marks_more(a, b),
    ensures
        count_false(b) <= count_false(a),
    decreases a.len(),
{
    if a.len() > 0 {
        assert forall|i: int| 0 <= i < a.drop_last().len() implies a.drop_last()[i] ==> #[trigger] b.drop_last()[i] by {
            assert(a.drop_last()[i] == a[i] && b.drop_last()[i] == b[i]);
        }
        lemma_count_false_mono(a.drop_last(), b.drop_last());
        assert(a[a.len() - 1] ==> b[b.len() - 1]);
    }
}

/// A path's tail from place `i` is a path from its `i`-th node to its end.
proof fn lemma_path_tail(src: Seq<usize>, dst: Seq<usize>, p: Seq<usize>, i: int)
    requires
        is_path(src, dst, p),
        0 <= i < p.len(),
    ensures
        reaches(src, dst, p[i], p.last()),
{
    let t = p.subrange(i, p.len() as int);
    assert forall|k: int| 0 <= k < t.len() - 1 implies #[trigger] has_edge(src, dst, t[k], t[k + 1]) by {
        assert(t[k] == p[i + k] && t[k + 1] == p[i + k + 1]);
        assert(has_edge(src, dst, p[i + k], p[i + k + 1]));
    }
    assert(is_path(src, dst, t) && t[0] == p[i] && t.last() == p.last());
}

/// A wire from `v` to `w` followed by a way from `w` to `x` is a way from `v` to `x`.
proof fn lemma_reach_prepend(src: Seq<usize>, dst: Seq<usize>, v: usize, w: usize, x: usize)
    requires
        has_edge(src, dst, v, w),
        reaches(src, dst, w, x),
    ensures
        reaches(src, dst, v, x),
{
    let p = choose|p: Seq<usize>| is_path(src, dst, p) && p[0] == w && p.last() == x;
    let p2 = seq![v] + p;
    assert forall|i: int| 0 <= i < p2.len() - 1 implies #[trigger] has_edge(src, dst, p2[i], p2[i + 1]) by {
        if i == 0 {
            assert(p2[0] == v && p2[1] == w);
        } else {
            assert(p2[i] == p[i - 1] && p2[i + 1] == p[i]);
            assert(has_edge(src, dst, p[i - 1], p[(i - 1) + 1]));
        }
    }
    assert(is_path(src, dst, p2) && p2[0] == v && p2.last() == x);
}

/// Extending a path by a wire from its end keeps it a path.
proof fn lemma_path_push(src: Seq<usize>, dst: Seq<usize>, p: Seq<usize>, v: usize)
    requires
        p.len() == 0 || (is_path(src, dst, p) && has_edge(src, dst, p.last(), v)),
    ensures
        is_path(src, dst, p.push(v)),
{
    let p2 = p.push(v);
    assert forall|i: int| 0 <= i < p2.len() - 1 implies #[trigger] has_edge(src, dst, p2[i], p2[i + 1]) by {
        assert(p2[i] == p[i]);
        if i + 1 < p.len() {
            assert(p2[i + 1] == p[i + 1]);
            assert(has_edge(src, dst, p[i], p[i + 1]));
        } else {
            assert(p2[i + 1] == v);
        }
    }
}

/// Finishes the walk from node `v`, whose wires lead on from the path `stack`: visits
/// the unvisited targets of its wires in wire order, then finishes `v` one deeper than
/// the deepest finished target (zero without one).
fn visit(
    q: &mut Vec<(usize, usize)>,
    disc: &mut Vec<bool>,
    gray: &mut Vec<bool>,
    depth: &mut Vec<usize>,
    src: &Vec<usize>,
    dst: &Vec<usize>,
    v: usize,
    Ghost(stack): Ghost<Seq<usize>>,
    Ghost(rt): Ghost<Seq<bool>>,
)
    requires
        dfs_ok(old(q)@, old(disc)@, old(gray)@, old(depth)@, src@, dst@, old(disc)@.len(), stack),
        v < old(disc)@.len(),
        !old(disc)@[v as int],
        !old(gray)@[v as int],
        stack.len() > 0 ==> has_edge(src@, dst@, stack.last(), v),
        rt.len() == old(disc)@.len(),
        stack.len() == 0 ==> rt[v as int],
        fed_inv(old(disc)@, old(gray)@, old(depth)@, src@, dst@, rt),
    ensures
        dfs_ok(final(q)@, final(disc)@, final(gray)@, final(depth)@, src@, dst@, old(disc)@.len(), stack),
        fed_inv(final(disc)@, final(gray)@, final(depth)@, src@, dst@, rt),
        forall|x: int| 0 <= x < old(disc)@.len() && old(disc)@[x] ==> final(depth)@[x] == old(depth)@[x],
        forall|x: int|
            0 <= x < old(disc)@.len() && !old(disc)@[x] && #[trigger] final(disc)@[x] && x != v
                ==> final(depth)@[x] < final(depth)@[v as int],
        forall|x: int|
            0 <= x < old(disc)@.len() && !old(disc)@[x] && #[trigger] final(disc)@[x] ==> reaches(
                src@,
                dst@,
                v,
                x as usize,
            ),
        final(q)@.len() >= old(q)@.len(),
        forall|k: int| 0 <= k < old(q)@.len() ==> final(q)@[k] == old(q)@[k],
        final(disc)@[v as int],
        marks_more(old(disc)@, final(disc)@),
        final(gray)@ == old(gray)@,
    decreases count_false(known(old(disc)@, old(gray)@)),
{
    let n = disc.len();
    let ghost q0 = q@;
    let ghost disc0 = disc@;
    let ghost gray0 = gray@;
    let ghost depth0 = depth@;
    let ghost st = stack.push(v);
    proof {
        lemma_path_push(src@, dst@, stack, v);
        assert forall|x: int| 0 <= x < n implies (gray0.update(v as int, true)[x] <==> st.contains(x as usize)) by {
            if x == v {
                assert(st[stack.len() as int] == v);
            } else if gray0[x] {
                let i = choose|i: int| 0 <= i < stack.len() && stack[i] == x as usize;
                assert(st[i] == x);
            } else if st.contains(x as usize) {
                let i = choose|i: int| 0 <= i < st.len() && st[i] == x as usize;
                if i < stack.len() {
                    assert(stack[i] == x);
                }
            }
        }
        assert(!stack.contains(v));
        assert(st.no_duplicates()) by {
            assert forall|a: int, b: int| 0 <= a < st.len() && 0 <= b < st.len() && a != b implies st[a] != st[b] by {
                if a < stack.len() && b < stack.len() {
                } else if a < stack.len() {
                    assert(stack.contains(st[a]));
                } else {
                    assert(stack.contains(st[b]));
                }
            }
        }
        lemma_count_false_set(known(disc0, gray0), v as int);
        assert(known(disc0, gray0).update(v as int, true) =~= known(disc0, gray0.update(v as int, true)));
    }
    gray.set(v, true);
    let ghost gray1 = gray@;
    let m = src.len();
    let mut e: usize = 0;
    while e < m
        invariant
            n == disc0.len(),
            m == src@.len(),
            e <= m,
            v < n,
            dfs_ok(q@, disc@, gray@, depth@, src@, dst@, n as nat, st),
            st == stack.push(v),
            disc0 == old(disc)@,
            gray0 == old(gray)@,
            rt.len() == n,
            fed_inv(disc@, gray@, depth@, src@, dst@, rt),
            forall|x: int| 0 <= x < n && disc0[x] ==> depth@[x] == depth0[x],
            gray@ == gray1,
            gray1[v as int],
            !disc@[v as int],
            q@.len() >= q0.len(),
            forall|k: int| 0 <= k < q0.len() ==> q@[k] == q0[k],
            marks_more(disc0, disc@),
            count_false(known(disc0, gray1)) < count_false(known(disc0, gray0)),
            forall|f: int| 0 <= f < e && src@[f] == v ==> #[trigger] disc@[dst@[f] as int] || reaches(src@, dst@, dst@[f], v),
            forall|f: int| 0 <= f < e && src@[f] == v ==> disc@[#[trigger] dst@[f] as int] || gray1[dst@[f] as int],
            forall|x: int|
                0 <= x < n && !disc0[x] && #[trigger] disc@[x] ==> exists|f: int|
                    0 <= f < e && src@[f] == v && disc@[dst@[f] as int] && depth@[x] <= depth@[dst@[f]
                        as int],
            forall|x: int| 0 <= x < n && !disc0[x] && #[trigger] disc@[x] ==> reaches(src@, dst@, v, x as usize),
        decreases m - e,
    {
        let ghost disc_pre = disc@;
        let ghost depth_pre = depth@;
        if src[e] == v {
            let w = dst[e];
            if !disc[w] && !gray[w] {
                proof {
                    assert(st.last() == v);
                    assert(src@[e as int] == v && dst@[e as int] == w);
                    assert(has_edge(src@, dst@, st.last(), w));
                    let k0 = known(disc0, gray1);
                    let k1 = known(disc@, gray@);
                    assert forall|i: int| 0 <= i < k0.len() implies k0[i] ==> #[trigger] k1[i] by {
                        if disc0[i] {
                            assert(disc@[i]);
                        }
                    }
                    assert(marks_more(k0, k1));
                    lemma_count_false_mono(k0, k1);
                }
                visit(q, disc, gray, depth, src, dst, w, Ghost(st), Ghost(rt));
                proof {
                    assert forall|x: int| 0 <= x < n && !disc0[x] && #[trigger] disc@[x] implies exists|f: int|
                        0 <= f < e + 1 && src@[f] == v && disc@[dst@[f] as int] && depth@[x] <= depth@[dst@[f]
                            as int] by {
                        if disc_pre[x] {
                            let f = choose|f: int|
                                0 <= f < e && src@[f] == v && disc_pre[dst@[f] as int] && depth_pre[x]
                                    <= depth_pre[dst@[f] as int];
                            assert(dst@[f] < n);
                            assert(depth@[x] == depth_pre[x]);
                            assert(depth@[dst@[f] as int] == depth_pre[dst@[f] as int]);
                        } else {
                            assert(src@[e as int] == v && dst@[e as int] == w);
                            if x != w {
                                assert(depth@[x] < depth@[w as int]);
                            }
                        }
                    }
                    assert forall|x: int| 0 <= x < n && !disc0[x] && #[trigger] disc@[x] implies reaches(
                        src@,
                        dst@,
                        v,
                        x as usize,
                    ) by {
                        if !disc_pre[x] {
                            assert(reaches(src@, dst@, w, x as usize));
                            assert(src@[e as int] == v && dst@[e as int] == w);
                            lemma_reach_prepend(src@, dst@, v, w, x as usize);
                        }
                    }
                }
            } else if gray[w] {
                proof {
                    let i = choose|i: int| 0 <= i < st.len() && st[i] == w;
                    lemma_path_tail(src@, dst@, st, i);
                }
            }
        }
        e = e + 1;
    }
    // The depth: one more than that of the deepest finished target.
    let mut d: usize = 0;
    let ghost mut jw: int = 0;
    let ghost mut ew: int = 0;
    let mut f: usize = 0;
    while f < m
        invariant
            n == disc@.len(),
            m == src@.len(),
            f <= m,
            v < n,
            dfs_ok(q@, disc@, gray@, depth@, src@, dst@, n as nat, st),
            d <= q@.len(),
            d > 0 ==> 0 <= jw < q@.len() && q@[jw].0 + 1 == d && 0 <= ew < m && src@[ew] == v
                && dst@[ew] == q@[jw].1,
            forall|g: int| 0 <= g < f && src@[g] == v && #[trigger] disc@[dst@[g] as int] ==> d >= depth@[dst@[g] as int] + 1,
            gray@ == gray1,
            gray1[v as int],
            !disc@[v as int],
            forall|g: int| 0 <= g < m && src@[g] == v ==> disc@[#[trigger] dst@[g] as int] || gray1[dst@[g] as int],
            rt.len() == n,
            fed_inv(disc@, gray@, depth@, src@, dst@, rt),
            forall|x: int| 0 <= x < n && disc0[x] ==> depth@[x] == depth0[x],
            disc0 == old(disc)@,
            stack.len() == 0 ==> rt[v as int],
            stack.len() > 0 ==> has_edge(src@, dst@, stack.last(), v),
            forall|x: int|
                0 <= x < n && !disc0[x] && #[trigger] disc@[x] ==> exists|g: int|
                    0 <= g < m && src@[g] == v && disc@[dst@[g] as int] && depth@[x] <= depth@[dst@[g]
                        as int],
            forall|x: int| 0 <= x < n && !disc0[x] && #[trigger] disc@[x] ==> reaches(src@, dst@, v, x as usize),
        decreases m - f,
    {
        if src[f] == v {
            let w = dst[f];
            if disc[w] {
                proof {
                    let k = choose|k: int| 0 <= k < q@.len() && q@[k].1 == w;
                    assert(depth@[w as int] == q@[k].0);
                    assert(q@[k].0 <= k);
                }
                if depth[w] + 1 > d {
                    proof {
                        let k = choose|k: int| 0 <= k < q@.len() && q@[k].1 == w;
                        jw = k;
                        ew = f as int;
                    }
                    d = depth[w] + 1;
                }
            }
        }
        f = f + 1;
    }
    let ghost qb = q@;
    let ghost db = disc@;
    let ghost depb = depth@;
    proof {
        lemma_walk_push(q@, disc@, src@, dst@, n as nat, d, v, jw, ew);
    }
    q.push((d, v));
    disc.set(v, true);
    gray.set(v, false);
    depth.set(v, d);
    proof {
        let a = qb.len() as int;
        assert(q@[a] == (d, v));
        assert forall|x: int| 0 <= x < n implies (#[trigger] gray@[x] <==> stack.contains(x as usize)) by {
            if x == v {
                assert(!stack.contains(v));
            } else {
                assert(gray@[x] == gray1[x]);
                if stack.contains(x as usize) {
                    let i = choose|i: int| 0 <= i < stack.len() && stack[i] == x as usize;
                    assert(st[i] == x);
                } else if st.contains(x as usize) {
                    let i = choose|i: int| 0 <= i < st.len() && st[i] == x as usize;
                    if i < stack.len() {
                        assert(stack[i] == x);
                    }
                }
            }
        }
        assert forall|k: int| 0 <= k < q@.len() implies depth@[(#[trigger] q@[k]).1 as int] == q@[k].0 by {
            if k < a {
                assert(q@[k] == qb[k]);
                assert(disc@[qb[k].1 as int]);
            }
        }
        assert forall|g: int| 0 <= g < src@.len() && disc@[#[trigger] src@[g] as int] implies edge_done(q@, src@, dst@, g) by {
            if src@[g] == v {
                if !reaches(src@, dst@, dst@[g], src@[g]) {
                    let w = dst@[g];
                    assert(disc@[w as int]);
                    let b = choose|b: int| 0 <= b < qb.len() && qb[b].1 == w;
                    assert(q@[b] == qb[b]);
                }
            } else {
                assert(edge_done(qb, src@, dst@, g));
                if !reaches(src@, dst@, dst@[g], src@[g]) {
                    let (a1, b1) = choose|a1: int, b1: int|
                        0 <= b1 < a1 < qb.len() && qb[a1].1 == src@[g] && qb[b1].1 == dst@[g] && qb[a1].0 > qb[b1].0;
                    assert(q@[a1] == qb[a1] && q@[b1] == qb[b1]);
                }
            }
        }
        assert(stack.len() > 0 ==> is_path(src@, dst@, stack)) by {
            if stack.len() > 0 {
                assert forall|i: int| 0 <= i < stack.len() - 1 implies #[trigger] has_edge(src@, dst@, stack[i], stack[i + 1]) by {
                    assert(st[i] == stack[i] && st[i + 1] == stack[i + 1]);
                    assert(has_edge(src@, dst@, st[i], st[i + 1]));
                }
            }
        }
        assert(gray@ =~= gray0);
        assert forall|g: int| 0 <= g < src@.len() && disc@[#[trigger] src@[g] as int] implies disc@[dst@[g]
            as int] || gray@[dst@[g] as int] by {
            let t = dst@[g];
            assert(t < n);
            if src@[g] == v {
                assert(db[t as int] || gray1[t as int]);
                if t != v && !db[t as int] {
                    assert(gray@[t as int] == gray1[t as int]);
                }
            } else {
                assert(db[src@[g] as int]);
                assert(db[t as int] || gray1[t as int]);
                if t != v && !db[t as int] {
                    assert(gray@[t as int] == gray1[t as int]);
                }
            }
        }
        assert forall|w: int| 0 <= w < disc@.len() && #[trigger] disc@[w] && !rt[w] implies exists|e: int|
            0 <= e < src@.len() && dst@[e] == w && (gray@[src@[e] as int] || (disc@[src@[e] as int]
                && depth@[src@[e] as int] > depth@[w])) by {
            if w == v {
                let e = choose|e: int| 0 <= e < src@.len() && src@[e] == stack.last() && dst@[e] == v;
                assert(stack.contains(stack.last()));
                assert(gray@[src@[e] as int]);
            } else {
                assert(db[w]);
                let e = choose|e: int|
                    0 <= e < src@.len() && dst@[e] == w && (gray1[src@[e] as int] || (db[src@[e] as int]
                        && depb[src@[e] as int] > depb[w]));
                assert(depth@[w] == depb[w]);
                if gray1[src@[e] as int] {
                    if src@[e] == v {
                        assert(d >= depb[w] + 1);
                    } else {
                        assert(gray@[src@[e] as int] == gray1[src@[e] as int]);
                    }
                } else {
                    assert(src@[e] != v);
                }
            }
        }
        assert forall|x: int| 0 <= x < n && disc0[x] implies depth@[x] == depth0[x] by {
            assert(x != v);
        }
        assert forall|x: int|
            0 <= x < n && !disc0[x] && #[trigger] disc@[x] && x != v implies depth@[x] < depth@[v as int] by {
            assert(db[x]);
            let g = choose|g: int|
                0 <= g < m && src@[g] == v && db[dst@[g] as int] && depb[x] <= depb[dst@[g] as int];
            assert(d >= depb[dst@[g] as int] + 1);
        }
        assert forall|x: int|
            0 <= x < n && !disc0[x] && #[trigger] disc@[x] implies reaches(src@, dst@, v, x as usize) by {
            if x == v {
                let p = seq![v];
                assert(is_path(src@, dst@, p) && p[0] == v && p.last() == v);
            } else {
                assert(db[x]);
            }
        }
    }
}

/// Along a path that starts at a finished node, where every wire leaving a finished node
/// leads to a finished node, every node is finished.
proof fn lemma_closed_path(src: Seq<usize>, dst: Seq<usize>, disc: Seq<bool>, p: Seq<usize>, i: int)
    requires
        forall|e: int| 0 <= e < src.len() && disc[#[trigger] src[e] as int] ==> disc[dst[e] as int],
        is_path(src, dst, p),
        disc[p[0] as int],
        0 <= i < p.len(),
    ensures
        disc[p[i] as int],
    decreases i,
{
    if i > 0 {
        let j = i - 1;
        lemma_closed_path(src, dst, disc, p, j);
        assert(has_edge(src, dst, p[j], p[j + 1]));
        let e = choose|e: int| 0 <= e < src.len() && src[e] == p[j] && dst[e] == p[j + 1];
    }
}

/// Node `w` feeds a node marked in `f`, or the walk `qr` against the wires finished a
/// node that `w` feeds deeper than `w`.
pub open spec fn good(qr: Seq<(usize, usize)>, f: Seq<bool>, src: Seq<usize>, dst: Seq<usize>, w: int) -> bool {
    ||| exists|e: int| 0 <= e < src.len() && src[e] == w && f[dst[e] as int]
    ||| exists|e: int, a: int, b: int|
        0 <= e < src.len() && src[e] == w && 0 <= a < qr.len() && 0 <= b < qr.len() && qr[a].1
            == dst[e] && qr[b].1 == w && qr[a].0 > qr[b].0
}

/// A way along reversed wires is a way back along the wires.
proof fn lemma_reverse_reaches(src: Seq<usize>, dst: Seq<usize>, a: usize, b: usize)
    requires
        src.len() == dst.len(),
        reaches(dst, src, a, b),
    ensures
        reaches(src, dst, b, a),
{
    let p = choose|p: Seq<usize>| is_path(dst, src, p) && p[0] == a && p.last() == b;
    let r = p.reverse();
    assert forall|i: int| 0 <= i < r.len() - 1 implies #[trigger] has_edge(src, dst, r[i], r[i + 1]) by {
        let j = p.len() - 2 - i;
        assert(r[i] == p[j + 1] && r[i + 1] == p[j]);
        assert(has_edge(dst, src, p[j], p[j + 1]));
        let e = choose|e: int| 0 <= e < dst.len() && dst[e] == p[j] && src[e] == p[j + 1];
    }
    assert(is_path(src, dst, r) && r[0] == b && r.last() == a);
}

/// Along a path that ends at a marked node, where every node feeding a marked node is
/// marked, every node is marked.
proof fn lemma_back_closed_path(src: Seq<usize>, dst: Seq<usize>, disc: Seq<bool>, p: Seq<usize>, i: int)
    requires
        forall|e: int| 0 <= e < src.len() && disc[#[trigger] dst[e] as int] ==> disc[src[e] as int],
        is_path(src, dst, p),
        disc[p.last() as int],
        0 <= i < p.len(),
    ensures
        disc[p[i] as int],
    decreases p.len() - i,
{
    if i < p.len() - 1 {
        lemma_back_closed_path(src, dst, disc, p, i + 1);
        assert(has_edge(src, dst, p[i], p[i + 1]));
        let e = choose|e: int| 0 <= e < src.len() && src[e] == p[i] && dst[e] == p[i + 1];
    }
}

/// Along a path that ends at a node without outputs, every node outside `f` is marked
/// in `d`, when `d` marks every such node without outputs, every such node feeding a
/// node of `f`, and every node feeding a marked node.
proof fn lemma_toward_end(
    src: Seq<usize>,
    dst: Seq<usize>,
    f: Seq<bool>,
    d: Seq<bool>,
    has_out: Seq<bool>,
    p: Seq<usize>,
    i: int,
)
    requires
        ends_below(src, dst, f.len()),
        d.len() == f.len(),
        has_out.len() == f.len(),
        forall|e: int| 0 <= e < src.len() ==> has_out[#[trigger] src[e] as int],
        forall|u: int| 0 <= u < f.len() && !f[u] && !has_out[u] ==> #[trigger] d[u],
        forall|e: int| 0 <= e < src.len() && !f[#[trigger] src[e] as int] && f[dst[e] as int] ==> d[src[e] as int],
        forall|e: int| 0 <= e < src.len() && d[#[trigger] dst[e] as int] ==> d[src[e] as int],
        is_path(src, dst, p),
        p.last() < f.len(),
        !has_out[p.last() as int],
        0 <= i < p.len(),
        !f[p[i] as int],
    ensures
        d[p[i] as int],
    decreases p.len() - i,
{
    if i < p.len() - 1 {
        assert(has_edge(src, dst, p[i], p[i + 1]));
        let e = choose|e: int| 0 <= e < src.len() && src[e] == p[i] && dst[e] == p[i + 1];
        if f[p[i + 1] as int] {
        } else {
            lemma_toward_end(src, dst, f, d, has_out, p, i + 1);
        }
    } else {
        assert(p[i] == p.last());
    }
}

/// A node that leads to another node feeds some node.
proof fn lemma_reach_has_out(src: Seq<usize>, dst: Seq<usize>, a: usize, b: usize)
    requires
        reaches(src, dst, a, b),
        a != b,
    ensures
        exists|e: int| 0 <= e < src.len() && src[e] == a,
{
    let p = choose|p: Seq<usize>| is_path(src, dst, p) && p[0] == a && p.last() == b;
    assert(p.len() > 1);
    let z: int = 0;
    assert(has_edge(src, dst, p[z], p[z + 1]));
}

/// What a call of the walk against the wires from `v` leaves: every finished node stays
/// outside `f`, every node it finished other than `v` is good, and good nodes stay good.
proof fn lemma_after_rvisit(
    q0: Seq<(usize, usize)>,
    d0: Seq<bool>,
    q1: Seq<(usize, usize)>,
    d1: Seq<bool>,
    g1: Seq<bool>,
    dep1: Seq<usize>,
    f: Seq<bool>,
    src: Seq<usize>,
    dst: Seq<usize>,
    v: usize,
    rtv: Seq<bool>,
)
    requires
        dfs_ok(q1, d1, g1, dep1, dst, src, f.len(), Seq::empty()),
        fed_inv(d1, g1, dep1, dst, src, rtv),
        rtv == Seq::new(f.len(), |x: int| d0[x] || x == v as int),
        d0.len() == f.len(),
        q1.len() >= q0.len(),
        forall|k: int| 0 <= k < q0.len() ==> q1[k] == q0[k],
        marks_more(d0, d1),
        v < f.len(),
        !f[v as int],
        forall|x: int| 0 <= x < f.len() && !d0[x] && #[trigger] d1[x] ==> reaches(dst, src, v, x as usize),
        forall|e: int| 0 <= e < src.len() && f[#[trigger] src[e] as int] ==> f[dst[e] as int],
        forall|x: int| 0 <= x < f.len() && #[trigger] d0[x] ==> !f[x],
    ensures
        forall|x: int| 0 <= x < f.len() && #[trigger] d1[x] ==> !f[x],
        forall|x: int| 0 <= x < f.len() && #[trigger] d1[x] && !d0[x] && x != v ==> good(q1, f, src, dst, x),
        forall|x: int| 0 <= x < f.len() && good(q0, f, src, dst, x) ==> #[trigger] good(q1, f, src, dst, x),
        forall|x: int| 0 <= x < f.len() ==> !(#[trigger] g1[x]),
{
    let n = f.len();
    assert forall|x: int| 0 <= x < n implies !(#[trigger] g1[x]) by {
        assert(!Seq::<usize>::empty().contains(x as usize));
    }
    assert forall|x: int| 0 <= x < n && #[trigger] d1[x] implies !f[x] by {
        if !d0[x] && f[x] {
            assert(ends_below(dst, src, n));
            lemma_reverse_reaches(src, dst, v, x as usize);
            let p = choose|p: Seq<usize>| is_path(src, dst, p) && p[0] == x as usize && p.last() == v;
            lemma_closed_path(src, dst, f, p, p.len() - 1);
        }
    }
    assert forall|x: int| 0 <= x < n && #[trigger] d1[x] && !d0[x] && x != v implies good(q1, f, src, dst, x) by {
        assert(!rtv[x]);
        let e = choose|e: int|
            0 <= e < dst.len() && src[e] == x && (g1[dst[e] as int] || (d1[dst[e] as int] && dep1[dst[e]
                as int] > dep1[x]));
        assert(dst[e] < n);
        assert(!g1[dst[e] as int]);
        let a = choose|k: int| 0 <= k < q1.len() && q1[k].1 == dst[e];
        let b = choose|k: int| 0 <= k < q1.len() && q1[k].1 == x;
        assert(dep1[q1[a].1 as int] == q1[a].0);
        assert(dep1[q1[b].1 as int] == q1[b].0);
    }
    assert forall|x: int| 0 <= x < n && good(q0, f, src, dst, x) implies #[trigger] good(q1, f, src, dst, x) by {
        if !(exists|e: int| 0 <= e < src.len() && src[e] == x && f[dst[e] as int]) {
            let (e, a, b) = choose|e: int, a: int, b: int|
                0 <= e < src.len() && src[e] == x && 0 <= a < q0.len() && 0 <= b < q0.len() && q0[a].1
                    == dst[e] && q0[b].1 == x && q0[a].0 > q0[b].0;
            assert(q1[a] == q0[a] && q1[b] == q0[b]);
        }
    }
}

/// The walk against the wires over the nodes outside `f` (a set that every wire leaving
/// it leads back into): it starts from each such node without outputs, then from each
/// that feeds a node of `f`, then from each node not yet reached, the first first each
/// time. It finishes exactly the nodes outside `f`; each that leads to a node without
/// outputs and has outputs itself is good; and of two nodes on a common cycle, one at
/// least is good.
fn rwalk(has_out: &Vec<bool>, f: &Vec<bool>, src: &Vec<usize>, dst: &Vec<usize>) -> (r: (
    Vec<(usize, usize)>,
    Vec<bool>,
))
    requires
        ends_below(src@, dst@, f@.len()),
        has_out@.len() == f@.len(),
        forall|e: int| 0 <= e < src@.len() ==> has_out@[#[trigger] src@[e] as int],
        forall|v: int|
            0 <= v < f@.len() && #[trigger] has_out@[v] ==> exists|e: int| 0 <= e < src@.len() && src@[e] == v,
        forall|e: int| 0 <= e < src@.len() && f@[#[trigger] src@[e] as int] ==> f@[dst@[e] as int],
    ensures
        walk_ok(r.0@, r.1@, dst@, src@, f@.len()),
        forall|v: int| 0 <= v < f@.len() ==> (#[trigger] r.1@[v] <==> !f@[v]),
        forall|e: int| 0 <= e < src@.len() && r.1@[#[trigger] dst@[e] as int] ==> edge_done(r.0@, dst@, src@, e),
        forall|w: usize, z: usize|
            #![trigger reaches(src@, dst@, w, z)]
            w < f@.len() && !f@[w as int] && has_out@[w as int] && z < f@.len() && !has_out@[z as int]
                && reaches(src@, dst@, w, z) ==> good(r.0@, f@, src@, dst@, w as int),
        forall|w: usize, y: usize|
            #![trigger reaches(src@, dst@, w, y), reaches(src@, dst@, y, w)]
            w < f@.len() && y < f@.len() && w != y && !f@[w as int] && reaches(src@, dst@, w, y) && reaches(
                src@,
                dst@,
                y,
                w,
            ) ==> good(r.0@, f@, src@, dst@, w as int) || good(r.0@, f@, src@, dst@, y as int),
{
    let n = f.len();
    let m = src.len();
    // the nodes outside `f` that feed a node of `f`
    let mut into_f = flags(n, false);
    let mut e: usize = 0;
    while e < m
        invariant
            e <= m == src@.len() == dst@.len(),
            n == f@.len() == into_f@.len(),
            ends_below(src@, dst@, n as nat),
            forall|v: int|
                0 <= v < n ==> (#[trigger] into_f@[v] <==> exists|g: int|
                    0 <= g < e && src@[g] == v && f@[dst@[g] as int]),
        decreases m - e,
    {
        if f[dst[e]] {
            into_f.set(src[e], true);
        }
        proof {
            assert forall|v: int| 0 <= v < n implies (#[trigger] into_f@[v] <==> exists|g: int|
                0 <= g < e + 1 && src@[g] == v && f@[dst@[g] as int]) by {
                if into_f@[v] && !(exists|g: int| 0 <= g < e && src@[g] == v && f@[dst@[g] as int]) {
                    assert(src@[e as int] == v && f@[dst@[e as int] as int]);
                }
            }
        }
        e = e + 1;
    }
    let mut q: Vec<(usize, usize)> = Vec::new();
    let mut disc = flags(n, false);
    let mut gray = flags(n, false);
    let mut depth: Vec<usize> = Vec::new();
    let mut i: usize = 0;
    while i < n
        invariant
            i <= n,
            depth@.len() == i,
        decreases n - i,
    {
        depth.push(0);
        i = i + 1;
    }
    let ghost mut rootc = Seq::new(n as nat, |x: int| false);
    proof {
        lemma_count_false_uniform(disc@);
        assert forall|x: int| 0 <= x < n implies (#[trigger] gray@[x] <==> Seq::<usize>::empty().contains(x as usize)) by {}
        assert(ends_below(dst@, src@, n as nat));
    }
    // from the nodes without outputs
    let mut v: usize = 0;
    while v < n
        invariant
            v <= n == f@.len() == has_out@.len(),
            ends_below(src@, dst@, n as nat),
            forall|e: int| 0 <= e < src@.len() && f@[#[trigger] src@[e] as int] ==> f@[dst@[e] as int],
            rootc == Seq::new(n as nat, |x: int| false),
            dfs_ok(q@, disc@, gray@, depth@, dst@, src@, n as nat, Seq::empty()),
            forall|x: int| 0 <= x < n && #[trigger] disc@[x] ==> !f@[x],
            forall|x: int|
                0 <= x < n && #[trigger] disc@[x] ==> good(q@, f@, src@, dst@, x) || !has_out@[x] || rootc[x],
            forall|u: int| 0 <= u < v && !f@[u] && !has_out@[u] ==> #[trigger] disc@[u],
        decreases n - v,
    {
        if !f[v] && !has_out[v] && !disc[v] {
            let ghost q0 = q@;
            let ghost d0 = disc@;
            let ghost rtv = Seq::new(n as nat, |x: int| disc@[x] || x == v as int);
            proof {
                assert(!Seq::<usize>::empty().contains(v));
            }
            visit(&mut q, &mut disc, &mut gray, &mut depth, dst, src, v, Ghost(Seq::empty()), Ghost(rtv));
            proof {
                lemma_after_rvisit(q0, d0, q@, disc@, gray@, depth@, f@, src@, dst@, v, rtv);
            }
        }
        v = v + 1;
    }
    // from the nodes feeding `f`
    let mut v: usize = 0;
    while v < n
        invariant
            v <= n == f@.len() == has_out@.len() == into_f@.len(),
            ends_below(src@, dst@, n as nat),
            forall|e: int| 0 <= e < src@.len() && f@[#[trigger] src@[e] as int] ==> f@[dst@[e] as int],
            forall|x: int|
                0 <= x < n ==> (#[trigger] into_f@[x] <==> exists|g: int|
                    0 <= g < src@.len() && src@[g] == x && f@[dst@[g] as int]),
            rootc == Seq::new(n as nat, |x: int| false),
            dfs_ok(q@, disc@, gray@, depth@, dst@, src@, n as nat, Seq::empty()),
            forall|x: int| 0 <= x < n && #[trigger] disc@[x] ==> !f@[x],
            forall|x: int|
                0 <= x < n && #[trigger] disc@[x] ==> good(q@, f@, src@, dst@, x) || !has_out@[x] || rootc[x],
            forall|u: int| 0 <= u < n && !f@[u] && !has_out@[u] ==> #[trigger] disc@[u],
            forall|u: int| 0 <= u < v && !f@[u] && #[trigger] into_f@[u] ==> disc@[u],
        decreases n - v,
    {
        if !f[v] && into_f[v] && !disc[v] {
            let ghost q0 = q@;
            let ghost d0 = disc@;
            let ghost rtv = Seq::new(n as nat, |x: int| disc@[x] || x == v as int);
            proof {
                assert(!Seq::<usize>::empty().contains(v));
            }
            visit(&mut q, &mut disc, &mut gray, &mut depth, dst, src, v, Ghost(Seq::empty()), Ghost(rtv));
            proof {
                lemma_after_rvisit(q0, d0, q@, disc@, gray@, depth@, f@, src@, dst@, v, rtv);
                assert(into_f@[v as int]);
                assert(good(q@, f@, src@, dst@, v as int));
            }
        }
        v = v + 1;
    }
    let ghost disc_b = disc@;
    let ghost q_b = q@;
    proof {
        assert forall|u: int| 0 <= u < n && !f@[u] && (exists|g: int|
            0 <= g < src@.len() && src@[g] == u && f@[dst@[g] as int]) implies #[trigger] disc@[u] by {
            assert(into_f@[u]);
        }
    }
    // from every node not reached yet
    let mut v: usize = 0;
    while v < n
        invariant
            v <= n == f@.len() == has_out@.len(),
            ends_below(src@, dst@, n as nat),
            forall|e: int| 0 <= e < src@.len() && f@[#[trigger] src@[e] as int] ==> f@[dst@[e] as int],
            rootc.len() == n,
            dfs_ok(q@, disc@, gray@, depth@, dst@, src@, n as nat, Seq::empty()),
            forall|x: int| 0 <= x < n && #[trigger] disc@[x] ==> !f@[x],
            forall|x: int|
                0 <= x < n && #[trigger] disc@[x] ==> good(q@, f@, src@, dst@, x) || !has_out@[x] || rootc[x],
            forall|x: int| 0 <= x < n && #[trigger] disc_b[x] ==> good(q@, f@, src@, dst@, x) || !has_out@[x],
            marks_more(disc_b, disc@),
            forall|u: int| 0 <= u < v && !f@[u] ==> #[trigger] disc@[u],
            forall|r0: usize, y: usize|
                #![trigger reaches(src@, dst@, y, r0)]
                r0 < n && y < n && rootc[r0 as int] && reaches(src@, dst@, y, r0) ==> disc@[y as int],
            forall|r1: usize, r2: usize|
                #![trigger reaches(src@, dst@, r1, r2), reaches(src@, dst@, r2, r1)]
                r1 < n && r2 < n && r1 != r2 && rootc[r1 as int] && rootc[r2 as int] ==> !(reaches(
                    src@,
                    dst@,
                    r1,
                    r2,
                ) && reaches(src@, dst@, r2, r1)),
        decreases n - v,
    {
        if !f[v] && !disc[v] {
            let ghost q0 = q@;
            let ghost d0 = disc@;
            let ghost rtv = Seq::new(n as nat, |x: int| disc@[x] || x == v as int);
            proof {
                assert(!Seq::<usize>::empty().contains(v));
            }
            visit(&mut q, &mut disc, &mut gray, &mut depth, dst, src, v, Ghost(Seq::empty()), Ghost(rtv));
            proof {
                lemma_after_rvisit(q0, d0, q@, disc@, gray@, depth@, f@, src@, dst@, v, rtv);
                let old_rootc = rootc;
                rootc = rootc.update(v as int, true);
                assert forall|e: int| 0 <= e < src@.len() && disc@[#[trigger] dst@[e] as int] implies disc@[src@[e]
                    as int] by {
                    assert(src@[e] < n);
                    assert(!gray@[src@[e] as int]);
                }
                assert forall|r0: usize, y: usize|
                    #![trigger reaches(src@, dst@, y, r0)]
                    r0 < n && y < n && rootc[r0 as int] && reaches(src@, dst@, y, r0) implies disc@[y as int] by {
                    let p = choose|p: Seq<usize>| is_path(src@, dst@, p) && p[0] == y && p.last() == r0;
                    if r0 == v {
                        lemma_back_closed_path(src@, dst@, disc@, p, 0);
                    } else {
                        assert(old_rootc[r0 as int]);
                        assert(d0[y as int]);
                    }
                }
                assert forall|r1: usize, r2: usize|
                    #![trigger reaches(src@, dst@, r1, r2), reaches(src@, dst@, r2, r1)]
                    r1 < n && r2 < n && r1 != r2 && rootc[r1 as int] && rootc[r2 as int] implies !(reaches(
                        src@,
                        dst@,
                        r1,
                        r2,
                    ) && reaches(src@, dst@, r2, r1)) by {
                    if r1 == v && reaches(src@, dst@, r1, r2) {
                        assert(old_rootc[r2 as int]);
                        assert(d0[r1 as int]);
                    } else if r2 == v && reaches(src@, dst@, r2, r1) {
                        assert(old_rootc[r1 as int]);
                        assert(d0[r2 as int]);
                    }
                }
            }
        }
        v = v + 1;
    }
    proof {
        lemma_count_false_uniform(disc@);
        assert forall|x: int| 0 <= x < n implies !(#[trigger] gray@[x]) by {
            assert(!Seq::<usize>::empty().contains(x as usize));
        }
        assert forall|e: int| 0 <= e < src@.len() && disc@[#[trigger] dst@[e] as int] implies disc@[src@[e]
            as int] by {
            assert(src@[e] < n);
        }
        assert forall|v: int| 0 <= v < n implies (#[trigger] disc@[v] <==> !f@[v]) by {}
        assert forall|w: usize, z: usize|
            #![trigger reaches(src@, dst@, w, z)]
            w < n && !f@[w as int] && has_out@[w as int] && z < n && !has_out@[z as int] && reaches(
                src@,
                dst@,
                w,
                z,
            ) implies good(q@, f@, src@, dst@, w as int) by {
            let p = choose|p: Seq<usize>| is_path(src@, dst@, p) && p[0] == w && p.last() == z;
            assert forall|e: int| 0 <= e < src@.len() && disc_b[#[trigger] dst@[e] as int] implies disc_b[src@[e]
                as int] by {
                assert(src@[e] < n);
                assert(dst@[e] < n);
            }
            lemma_toward_end(src@, dst@, f@, disc_b, has_out@, p, 0);
            assert(disc_b[w as int]);
        }
        assert forall|w: usize, y: usize|
            #![trigger reaches(src@, dst@, w, y), reaches(src@, dst@, y, w)]
            w < n && y < n && w != y && !f@[w as int] && reaches(src@, dst@, w, y) && reaches(src@, dst@, y, w)
                implies good(q@, f@, src@, dst@, w as int) || good(q@, f@, src@, dst@, y as int) by {
            lemma_reach_has_out(src@, dst@, w, y);
            lemma_reach_has_out(src@, dst@, y, w);
            let ew = choose|e: int| 0 <= e < src@.len() && src@[e] == w;
            let ey = choose|e: int| 0 <= e < src@.len() && src@[e] == y;
            assert(has_out@[w as int] && has_out@[y as int]);
            if !f@[y as int] {
                assert(disc@[w as int] && disc@[y as int]);
            } else {
                let p = choose|p: Seq<usize>| is_path(src@, dst@, p) && p[0] == y && p.last() == w;
                lemma_closed_path(src@, dst@, f@, p, p.len() - 1);
            }
        }
    }
    (q, disc)
}

/// Two markings of the same nodes that disagree everywhere leave as many unmarked in the
/// one as marked in the other.
proof fn lemma_count_false_neg(a: Seq<bool>, b: Seq<bool>)
    requires
        a.len() == b.len(),
        forall|i: int| 0 <= i < a.len() ==> a[i] != b[i],
    ensures
        count_false(a) + count_false(b) == a.len(),
    decreases a.len(),
{
    if a.len() > 0 {
        assert forall|i: int| 0 <= i < a.drop_last().len() implies a.drop_last()[i] != b.drop_last()[i] by {
            assert(a.drop_last()[i] == a[i] && b.drop_last()[i] == b[i]);
        }
        lemma_count_false_neg(a.drop_last(), b.drop_last());
        assert(a[a.len() - 1] != b[b.len() - 1]);
    }
}

/// Every entry of `q` deeper than zero comes from an entry one level shallower that a
/// wire leads to from it.
pub open spec fn found_any(q: Seq<(usize, usize)>, src: Seq<usize>, dst: Seq<usize>) -> bool {
    forall|k: int|
        0 <= k < q.len() && (#[trigger] q[k]).0 > 0 ==> exists|j: int, e: int|
            0 <= j < q.len() && q[j].0 + 1 == q[k].0 && 0 <= e < src.len() && src[e] == q[k].1 && dst[e]
                == q[j].1
}

/// Wire `e` closes a cycle, or `q` holds its source deeper than its target.
pub open spec fn edge_settled(q: Seq<(usize, usize)>, src: Seq<usize>, dst: Seq<usize>, e: int) -> bool {
    ||| reaches(src, dst, dst[e], src[e])
    ||| exists|a: int, b: int|
        0 <= a < q.len() && 0 <= b < q.len() && q[a].1 == src[e] && q[b].1 == dst[e] && q[a].0 > q[b].0
}

/// `q` holds each of the `n` nodes once, with a depth.
pub open spec fn covers(q: Seq<(usize, usize)>, n: nat) -> bool {
    &&& q.len() == n
    &&& forall|k: int| 0 <= k < q.len() ==> (#[trigger] q[k]).1 < n
    &&& forall|a: int, b: int|
        0 <= a < q.len() && 0 <= b < q.len() && a != b ==> (#[trigger] q[a]).1 != (#[trigger] q[b]).1
    &&& forall|v: int| 0 <= v < n ==> #[trigger] has_entry(q, v)
}

/// `q` holds an entry for node `v`.
pub open spec fn has_entry(q: Seq<(usize, usize)>, v: int) -> bool {
    exists|k: int| 0 <= k < q.len() && q[k].1 == v
}

/// The depths of the nodes outside `f`: in the order of `e` (deepest in the walk
/// against the wires first), each gets one more than the deepest node it feeds that has
/// a depth already, zero without one; the nodes of `f` keep the depths `q1` gives them.
/// The entries are those of `q1` followed by the others with their new depths.
fn settle_depths(
    q1: &Vec<(usize, usize)>,
    f: &Vec<bool>,
    qr: &Vec<(usize, usize)>,
    dr: &Vec<bool>,
    src: &Vec<usize>,
    dst: &Vec<usize>,
) -> (r: Vec<(usize, usize)>)
    requires
        ends_below(src@, dst@, f@.len()),
        walk_ok(q1@, f@, src@, dst@, f@.len()),
        forall|e: int| 0 <= e < src@.len() && f@[#[trigger] src@[e] as int] ==> edge_done(q1@, src@, dst@, e),
        walk_ok(qr@, dr@, dst@, src@, f@.len()),
        forall|v: int| 0 <= v < f@.len() ==> (#[trigger] dr@[v] <==> !f@[v]),
        forall|e: int| 0 <= e < src@.len() && dr@[#[trigger] dst@[e] as int] ==> edge_done(qr@, dst@, src@, e),
    ensures
        covers(r@, f@.len()),
        found_any(r@, src@, dst@),
        forall|e: int| 0 <= e < src@.len() ==> #[trigger] edge_settled(r@, src@, dst@, e),
        forall|k: int| 0 <= k < q1@.len() ==> r@[k] == #[trigger] q1@[k],
        forall|w: int|
            0 <= w < f@.len() && !f@[w] && #[trigger] good(qr@, f@, src@, dst@, w) ==> exists|k: int|
                0 <= k < r@.len() && r@[k].1 == w && r@[k].0 > 0,
{
    let n = f.len();
    let m = src.len();
    let n1 = q1.len();
    // the depths the first walk gave
    let mut dep: Vec<usize> = Vec::new();
    let mut i: usize = 0;
    while i < n
        invariant
            i <= n,
            dep@.len() == i,
        decreases n - i,
    {
        dep.push(0);
        i = i + 1;
    }
    let mut k: usize = 0;
    while k < n1
        invariant
            k <= n1 == q1@.len(),
            n == f@.len() == dep@.len(),
            walk_ok(q1@, f@, src@, dst@, n as nat),
            forall|j: int| 0 <= j < k ==> dep@[(#[trigger] q1@[j]).1 as int] == q1@[j].0,
        decreases n1 - k,
    {
        let ghost d0 = dep@;
        dep.set(q1[k].1, q1[k].0);
        proof {
            assert forall|j: int| 0 <= j < k + 1 implies dep@[(#[trigger] q1@[j]).1 as int] == q1@[j].0 by {
                if j < k {
                    assert(q1@[j].1 != q1@[k as int].1);
                }
            }
        }
        k = k + 1;
    }
    let ghost dep0 = dep@;
    let e_ord = by_depth(qr);
    let len = e_ord.len();
    let mut assigned = copy_vec(f);
    let mut r = copy_vec(q1);
    proof {
        lemma_count_false_neg(f@, dr@);
        assert(n1 + len == n);
        assert forall|x: int| 0 <= x < n implies (#[trigger] assigned@[x] <==> (f@[x] || exists|j: int|
            0 <= j < 0 && e_ord@[j].1 == x)) by {}
    }
    let mut k: usize = 0;
    while k < len
        invariant
            k <= len == e_ord@.len() == qr@.len(),
            n == f@.len() == dep@.len() == assigned@.len() == dr@.len(),
            m == src@.len() == dst@.len(),
            n1 == q1@.len(),
            n1 + len == n,
            ends_below(src@, dst@, n as nat),
            walk_ok(q1@, f@, src@, dst@, n as nat),
            walk_ok(qr@, dr@, dst@, src@, n as nat),
            forall|v: int| 0 <= v < n ==> (#[trigger] dr@[v] <==> !f@[v]),
            same_entries(e_ord@, qr@),
            forall|a: int, b: int| 0 <= a < b < e_ord@.len() ==> (#[trigger] e_ord@[a]).0 >= (#[trigger] e_ord@[b]).0,
            forall|x: int|
                0 <= x < n ==> (#[trigger] assigned@[x] <==> (f@[x] || exists|j: int|
                    0 <= j < k && e_ord@[j].1 == x)),
            forall|x: int| 0 <= x < n && f@[x] ==> #[trigger] dep@[x] == dep0[x],
            forall|j: int| 0 <= j < n1 ==> dep0[(#[trigger] q1@[j]).1 as int] == q1@[j].0,
            forall|x: int| 0 <= x < n && #[trigger] assigned@[x] ==> dep@[x] <= n1 + k,
            r@.len() == n1 + k,
            forall|j: int| 0 <= j < n1 ==> r@[j] == #[trigger] q1@[j],
            forall|j: int|
                0 <= j < k ==> #[trigger] r@[n1 + j] == (dep@[e_ord@[j].1 as int], e_ord@[j].1),
            forall|j: int|
                0 <= j < k && dep@[(#[trigger] e_ord@[j]).1 as int] > 0 ==> exists|g: int|
                    0 <= g < m && src@[g] == e_ord@[j].1 && assigned@[dst@[g] as int] && dep@[dst@[g] as int]
                        + 1 == dep@[e_ord@[j].1 as int],
            forall|j: int, g: int|
                0 <= j < k && 0 <= g < m && src@[g] == (#[trigger] e_ord@[j]).1 && #[trigger] assigned@[dst@[g]
                    as int] && (f@[dst@[g] as int] || exists|a: int|
                    0 <= a < j && e_ord@[a].1 == dst@[g]) ==> dep@[e_ord@[j].1 as int] >= dep@[dst@[g] as int]
                    + 1,
        decreases len - k,
    {
        let u = e_ord[k].1;
        proof {
            assert(qr@.contains(e_ord@[k as int]));
            let b = choose|b: int| 0 <= b < qr@.len() && qr@[b] == e_ord@[k as int];
            assert(dr@[u as int]);
            assert(!f@[u as int]);
            assert forall|j: int| 0 <= j < k implies e_ord@[j].1 != u by {
                assert(e_ord@[j].1 != e_ord@[k as int].1);
            }
            assert(!assigned@[u as int]);
        }
        let mut d: usize = 0;
        let ghost mut wg: int = 0;
        let mut g: usize = 0;
        while g < m
            invariant
                g <= m == src@.len() == dst@.len(),
                n == dep@.len() == assigned@.len(),
                n1 + len == n,
                k < len,
                ends_below(src@, dst@, n as nat),
                forall|x: int| 0 <= x < n && #[trigger] assigned@[x] ==> dep@[x] <= n1 + k,
                d <= n1 + k + 1,
                forall|h: int|
                    0 <= h < g && src@[h] == u && #[trigger] assigned@[dst@[h] as int] ==> d >= dep@[dst@[h]
                        as int] + 1,
                d > 0 ==> 0 <= wg < m && src@[wg] == u && assigned@[dst@[wg] as int] && dep@[dst@[wg] as int]
                    + 1 == d,
            decreases m - g,
        {
            if src[g] == u && assigned[dst[g]] {
                if dep[dst[g]] + 1 > d {
                    d = dep[dst[g]] + 1;
                    proof {
                        wg = g as int;
                    }
                }
            }
            g = g + 1;
        }
        let ghost dep_b = dep@;
        let ghost as_b = assigned@;
        dep.set(u, d);
        assigned.set(u, true);
        r.push((d, u));
        proof {
            assert forall|x: int|
                0 <= x < n implies (#[trigger] assigned@[x] <==> (f@[x] || exists|j: int|
                    0 <= j < k + 1 && e_ord@[j].1 == x)) by {
                if x == u {
                    assert(e_ord@[k as int].1 == x);
                } else {
                    assert(assigned@[x] == as_b[x]);
                    if exists|j: int| 0 <= j < k + 1 && e_ord@[j].1 == x {
                        let j = choose|j: int| 0 <= j < k + 1 && e_ord@[j].1 == x;
                        assert(j < k);
                    }
                }
            }
            assert forall|x: int| 0 <= x < n && f@[x] implies #[trigger] dep@[x] == dep0[x] by {
                assert(x != u);
            }
            assert forall|x: int| 0 <= x < n && #[trigger] assigned@[x] implies dep@[x] <= n1 + k + 1 by {
                if x != u {
                    assert(as_b[x]);
                }
            }
            assert forall|j: int| 0 <= j < n1 implies r@[j] == #[trigger] q1@[j] by {}
            assert forall|j: int|
                0 <= j < k + 1 implies #[trigger] r@[n1 + j] == (dep@[e_ord@[j].1 as int], e_ord@[j].1) by {
                if j < k {
                    assert(e_ord@[j].1 != u) by {
                        assert(e_ord@[j].1 != e_ord@[k as int].1);
                    }
                }
            }
            assert forall|j: int|
                0 <= j < k + 1 && dep@[(#[trigger] e_ord@[j]).1 as int] > 0 implies exists|h: int|
                    0 <= h < m && src@[h] == e_ord@[j].1 && assigned@[dst@[h] as int] && dep@[dst@[h] as int]
                        + 1 == dep@[e_ord@[j].1 as int] by {
                if j < k {
                    assert(e_ord@[j].1 != u) by {
                        assert(e_ord@[j].1 != e_ord@[k as int].1);
                    }
                    let h = choose|h: int|
                        0 <= h < m && src@[h] == e_ord@[j].1 && as_b[dst@[h] as int] && dep_b[dst@[h] as int]
                            + 1 == dep_b[e_ord@[j].1 as int];
                    assert(dst@[h] != u);
                } else {
                    assert(dst@[wg] != u);
                }
            }
            assert forall|j: int, h: int|
                0 <= j < k + 1 && 0 <= h < m && src@[h] == (#[trigger] e_ord@[j]).1 && #[trigger] assigned@[dst@[h]
                    as int] && (f@[dst@[h] as int] || exists|a: int|
                    0 <= a < j && e_ord@[a].1 == dst@[h]) implies dep@[e_ord@[j].1 as int] >= dep@[dst@[h] as int]
                    + 1 by {
                if j < k {
                    assert(e_ord@[j].1 != u) by {
                        assert(e_ord@[j].1 != e_ord@[k as int].1);
                    }
                    if dst@[h] == u {
                        if f@[u as int] {
                        } else {
                            let a = choose|a: int| 0 <= a < j && e_ord@[a].1 == dst@[h];
                            assert(e_ord@[a].1 != e_ord@[k as int].1);
                        }
                    }
                    assert(as_b[dst@[h] as int]);
                } else {
                    if dst@[h] == u {
                        if f@[u as int] {
                        } else {
                            let a = choose|a: int| 0 <= a < j && e_ord@[a].1 == dst@[h];
                            assert(e_ord@[a].1 != e_ord@[k as int].1);
                        }
                    }
                    assert(as_b[dst@[h] as int]);
                }
            }
        }
        k = k + 1;
    }
    proof {
        assert forall|j: int|
            0 <= j < len && dep@[(#[trigger] e_ord@[j]).1 as int] > 0 implies exists|g: int|
                0 <= g < src@.len() && src@[g] == e_ord@[j].1 && (f@[dst@[g] as int] || exists|a: int|
                    0 <= a < e_ord@.len() && e_ord@[a].1 == dst@[g]) && dep@[dst@[g] as int] + 1 == dep@[e_ord@[j].1
                    as int] by {
            let g = choose|g: int|
                0 <= g < m && src@[g] == e_ord@[j].1 && assigned@[dst@[g] as int] && dep@[dst@[g] as int]
                    + 1 == dep@[e_ord@[j].1 as int];
            assert(dst@[g] < n);
        }
        assert forall|j: int, g: int|
            #![trigger e_ord@[j], dst@[g]]
            0 <= j < len && 0 <= g < src@.len() && src@[g] == e_ord@[j].1 && (f@[dst@[g] as int]
                || exists|a: int| 0 <= a < j && e_ord@[a].1 == dst@[g]) implies dep@[e_ord@[j].1 as int]
                >= dep@[dst@[g] as int] + 1 by {
            assert(dst@[g] < n);
            assert(assigned@[dst@[g] as int]);
        }
        settle_facts(q1@, f@, qr@, dr@, src@, dst@, e_ord@, dep@, dep0, r@);
    }
    r
}

/// What the settled depths give, read off the state the settling leaves.
proof fn settle_facts(
    q1: Seq<(usize, usize)>,
    f: Seq<bool>,
    qr: Seq<(usize, usize)>,
    dr: Seq<bool>,
    src: Seq<usize>,
    dst: Seq<usize>,
    e_ord: Seq<(usize, usize)>,
    dep: Seq<usize>,
    dep0: Seq<usize>,
    r: Seq<(usize, usize)>,
)
    requires
        ends_below(src, dst, f.len()),
        walk_ok(q1, f, src, dst, f.len()),
        forall|e: int| 0 <= e < src.len() && f[#[trigger] src[e] as int] ==> edge_done(q1, src, dst, e),
        walk_ok(qr, dr, dst, src, f.len()),
        forall|v: int| 0 <= v < f.len() ==> (#[trigger] dr[v] <==> !f[v]),
        forall|e: int| 0 <= e < src.len() && dr[#[trigger] dst[e] as int] ==> edge_done(qr, dst, src, e),
        e_ord.len() == qr.len(),
        dep.len() == f.len(),
        q1.len() + e_ord.len() == f.len(),
        same_entries(e_ord, qr),
        forall|a: int, b: int| 0 <= a < b < e_ord.len() ==> (#[trigger] e_ord[a]).0 >= (#[trigger] e_ord[b]).0,
        forall|x: int| 0 <= x < f.len() && f[x] ==> #[trigger] dep[x] == dep0[x],
        forall|j: int| 0 <= j < q1.len() ==> dep0[(#[trigger] q1[j]).1 as int] == q1[j].0,
        r.len() == q1.len() + e_ord.len(),
        forall|j: int| 0 <= j < q1.len() ==> r[j] == #[trigger] q1[j],
        forall|j: int|
            0 <= j < e_ord.len() ==> #[trigger] r[q1.len() + j] == (dep[e_ord[j].1 as int], e_ord[j].1),
        forall|j: int|
            0 <= j < e_ord.len() && dep[(#[trigger] e_ord[j]).1 as int] > 0 ==> exists|g: int|
                0 <= g < src.len() && src[g] == e_ord[j].1 && (f[dst[g] as int] || exists|a: int|
                    0 <= a < e_ord.len() && e_ord[a].1 == dst[g]) && dep[dst[g] as int] + 1 == dep[e_ord[j].1 as int],
        forall|j: int, g: int|
            #![trigger e_ord[j], dst[g]]
            0 <= j < e_ord.len() && 0 <= g < src.len() && src[g] == e_ord[j].1 && (f[dst[g] as int]
                || exists|a: int| 0 <= a < j && e_ord[a].1 == dst[g]) ==> dep[e_ord[j].1 as int]
                >= dep[dst[g] as int] + 1,
    ensures
        covers(r, f.len()),
        found_any(r, src, dst),
        forall|e: int| 0 <= e < src.len() ==> #[trigger] edge_settled(r, src, dst, e),
        forall|w: int|
            0 <= w < f.len() && !f[w] && #[trigger] good(qr, f, src, dst, w) ==> exists|k: int|
                0 <= k < r.len() && r[k].1 == w && r[k].0 > 0,
{
    let n = f.len();
    let n1 = q1.len();
    let len = e_ord.len();
    // where each node stands in the entries
    assert forall|j: int| 0 <= j < len implies (#[trigger] e_ord[j]).1 < n && !f[e_ord[j].1 as int] by {
        assert(qr.contains(e_ord[j]));
        let b = choose|b: int| 0 <= b < qr.len() && qr[b] == e_ord[j];
        assert(dr[qr[b].1 as int]);
    }
    assert forall|v: int| 0 <= v < n && !f[v] implies exists|j: int| 0 <= j < len && #[trigger] e_ord[j].1 == v by {
        assert(dr[v]);
        let b = choose|b: int| 0 <= b < qr.len() && qr[b].1 == v;
        assert(e_ord.contains(qr[b]));
        let j = choose|j: int| 0 <= j < len && e_ord[j] == qr[b];
    }
    // covers
    assert forall|k: int| 0 <= k < r.len() implies (#[trigger] r[k]).1 < n by {
        if k < n1 {
            assert(r[k] == q1[k]);
        } else {
            assert(r[n1 + (k - n1)] == (dep[e_ord[k - n1].1 as int], e_ord[k - n1].1));
        }
    }
    assert forall|a: int, b: int| 0 <= a < r.len() && 0 <= b < r.len() && a != b implies (#[trigger] r[a]).1
        != (#[trigger] r[b]).1 by {
        if a < n1 && b < n1 {
            assert(r[a] == q1[a] && r[b] == q1[b]);
        } else if a < n1 {
            assert(r[a] == q1[a]);
            assert(f[q1[a].1 as int]);
            assert(r[n1 + (b - n1)] == (dep[e_ord[b - n1].1 as int], e_ord[b - n1].1));
        } else if b < n1 {
            assert(r[b] == q1[b]);
            assert(f[q1[b].1 as int]);
            assert(r[n1 + (a - n1)] == (dep[e_ord[a - n1].1 as int], e_ord[a - n1].1));
        } else {
            assert(r[n1 + (a - n1)] == (dep[e_ord[a - n1].1 as int], e_ord[a - n1].1));
            assert(r[n1 + (b - n1)] == (dep[e_ord[b - n1].1 as int], e_ord[b - n1].1));
            assert(e_ord[a - n1].1 != e_ord[b - n1].1);
        }
    }
    assert forall|v: int| 0 <= v < n implies #[trigger] has_entry(r, v) by {
        if f[v] {
            let k = choose|k: int| 0 <= k < q1.len() && q1[k].1 == v;
            assert(r[k] == q1[k]);
        } else {
            let j = choose|j: int| 0 <= j < len && #[trigger] e_ord[j].1 == v;
            assert(r[n1 + j] == (dep[e_ord[j].1 as int], e_ord[j].1));
        }
    }
    // the entry of a node and its depth
    assert forall|v: int| #![trigger dep[v]] 0 <= v < n implies exists|k: int| 0 <= k < r.len() && r[k].1 == v && r[k].0 == dep[v] by {
        if f[v] {
            let k = choose|k: int| 0 <= k < q1.len() && q1[k].1 == v;
            assert(r[k] == q1[k]);
            assert(dep0[q1[k].1 as int] == q1[k].0);
        } else {
            let j = choose|j: int| 0 <= j < len && #[trigger] e_ord[j].1 == v;
            assert(r[n1 + j] == (dep[e_ord[j].1 as int], e_ord[j].1));
        }
    }
    // found
    assert forall|k: int| 0 <= k < r.len() && (#[trigger] r[k]).0 > 0 implies exists|j: int, e: int|
        0 <= j < r.len() && r[j].0 + 1 == r[k].0 && 0 <= e < src.len() && src[e] == r[k].1 && dst[e] == r[j].1 by {
        if k < n1 {
            assert(r[k] == q1[k]);
            assert(found_from(q1, k, src, dst));
            let (j, e) = choose|j: int, e: int|
                0 <= j < k && q1[j].0 + 1 == q1[k].0 && 0 <= e < src.len() && src[e] == q1[k].1 && dst[e] == q1[j].1;
            assert(r[j] == q1[j]);
        } else {
            let j0 = k - n1;
            assert(r[n1 + j0] == (dep[e_ord[j0].1 as int], e_ord[j0].1));
            let g = choose|g: int|
                0 <= g < src.len() && src[g] == e_ord[j0].1 && (f[dst[g] as int] || exists|a: int|
                    0 <= a < e_ord.len() && e_ord[a].1 == dst[g]) && dep[dst[g] as int] + 1 == dep[e_ord[j0].1 as int];
            let t = dst[g] as int;
            assert(t < n);
            let kt = choose|kt: int| 0 <= kt < r.len() && r[kt].1 == t && r[kt].0 == dep[t];
        }
    }
    // wires
    assert forall|e: int| 0 <= e < src.len() implies #[trigger] edge_settled(r, src, dst, e) by {
        let s = src[e] as int;
        let t = dst[e] as int;
        assert(s < n && t < n);
        if f[s] {
            assert(edge_done(q1, src, dst, e));
            if !reaches(src, dst, dst[e], src[e]) {
                let (a, b) = choose|a: int, b: int|
                    0 <= b < a < q1.len() && q1[a].1 == src[e] && q1[b].1 == dst[e] && q1[a].0 > q1[b].0;
                assert(r[a] == q1[a] && r[b] == q1[b]);
            }
        } else {
            let js = choose|j: int| 0 <= j < len && #[trigger] e_ord[j].1 == s;
            if f[t] {
                assert(dep[e_ord[js].1 as int] >= dep[dst[e] as int] + 1);
                let ks = choose|k: int| 0 <= k < r.len() && r[k].1 == s && r[k].0 == dep[s];
                let kt = choose|k: int| 0 <= k < r.len() && r[k].1 == t && r[k].0 == dep[t];
            } else {
                assert(dr[t]);
                assert(edge_done(qr, dst, src, e));
                if reaches(dst, src, src[e], dst[e]) {
                    lemma_reverse_reaches(src, dst, src[e], dst[e]);
                } else {
                    let (a, b) = choose|a: int, b: int|
                        0 <= b < a < qr.len() && qr[a].1 == dst[e] && qr[b].1 == src[e] && qr[a].0 > qr[b].0;
                    assert(e_ord.contains(qr[a]) && e_ord.contains(qr[b]));
                    let pa = choose|x: int| 0 <= x < len && e_ord[x] == qr[a];
                    let pb = choose|x: int| 0 <= x < len && e_ord[x] == qr[b];
                    assert(pb == js) by {
                        if pb != js {
                            assert(e_ord[pb].1 != e_ord[js].1);
                        }
                    }
                    if pa >= pb {
                        if pa > pb {
                            assert(e_ord[pb].0 >= e_ord[pa].0);
                        }
                        assert(false);
                    }
                    assert(e_ord[pa].1 == dst[e]);
                    assert(dep[e_ord[js].1 as int] >= dep[dst[e] as int] + 1);
                    let ks = choose|k: int| 0 <= k < r.len() && r[k].1 == s && r[k].0 == dep[s];
                    let kt = choose|k: int| 0 <= k < r.len() && r[k].1 == t && r[k].0 == dep[t];
                }
            }
        }
    }
    // good nodes lie deeper than zero
    assert forall|w: int|
        0 <= w < n && !f[w] && #[trigger] good(qr, f, src, dst, w) implies exists|k: int|
            0 <= k < r.len() && r[k].1 == w && r[k].0 > 0 by {
        let jw = choose|j: int| 0 <= j < len && #[trigger] e_ord[j].1 == w;
        if exists|e: int| 0 <= e < src.len() && src[e] == w && f[dst[e] as int] {
            let e = choose|e: int| 0 <= e < src.len() && src[e] == w && f[dst[e] as int];
            assert(dep[e_ord[jw].1 as int] >= dep[dst[e] as int] + 1);
        } else {
            let (e, a, b) = choose|e: int, a: int, b: int|
                0 <= e < src.len() && src[e] == w && 0 <= a < qr.len() && 0 <= b < qr.len() && qr[a].1
                    == dst[e] && qr[b].1 == w && qr[a].0 > qr[b].0;
            assert(e_ord.contains(qr[a]) && e_ord.contains(qr[b]));
            let pa = choose|x: int| 0 <= x < len && e_ord[x] == qr[a];
            let pb = choose|x: int| 0 <= x < len && e_ord[x] == qr[b];
            assert(pb == jw) by {
                if pb != jw {
                    assert(e_ord[pb].1 != e_ord[jw].1);
                }
            }
            if pa >= pb {
                if pa > pb {
                    assert(e_ord[pb].0 >= e_ord[pa].0);
                }
                assert(false);
            }
            assert(e_ord[pa].1 == dst[e]);
            assert(dep[e_ord[jw].1 as int] >= dep[dst[e] as int] + 1);
        }
        assert(r[n1 + jw] == (dep[e_ord[jw].1 as int], e_ord[jw].1));
    }
}

/// The depth-first walk along the wires from every node without inputs, the first first.
/// It finishes exactly the nodes such a node leads to, and every wire leaving them is
/// settled; a node with inputs among them is fed by a node finished deeper than it.
fn walk(has_in: &Vec<bool>, src: &Vec<usize>, dst: &Vec<usize>) -> (r: (Vec<(usize, usize)>, Vec<bool>))
    requires
        ends_below(src@, dst@, has_in@.len()),
    ensures
        walk_ok(r.0@, r.1@, src@, dst@, has_in@.len()),
        forall|e: int| 0 <= e < src@.len() && r.1@[#[trigger] src@[e] as int] ==> edge_done(r.0@, src@, dst@, e),
        forall|e: int| 0 <= e < src@.len() && r.1@[#[trigger] src@[e] as int] ==> r.1@[dst@[e] as int],
        forall|x: int|
            0 <= x < has_in@.len() && #[trigger] r.1@[x] ==> exists|u: usize|
                u < has_in@.len() && !has_in@[u as int] && reaches(src@, dst@, u, x as usize),
        forall|w: usize, u: usize|
            #![trigger reaches(src@, dst@, u, w)]
            w < has_in@.len() && has_in@[w as int] && u < has_in@.len() && !has_in@[u as int]
                && reaches(src@, dst@, u, w) ==> fed_from_deeper(r.0@, src@, dst@, w as int),
{
    let n = has_in.len();
    let mut q: Vec<(usize, usize)> = Vec::new();
    let mut disc = flags(n, false);
    let mut gray = flags(n, false);
    let mut depth: Vec<usize> = Vec::new();
    let mut i: usize = 0;
    while i < n
        invariant
            i <= n,
            depth@.len() == i,
        decreases n - i,
    {
        depth.push(0);
        i = i + 1;
    }
    let ghost rt1 = Seq::new(n as nat, |x: int| !has_in@[x]);
    proof {
        lemma_count_false_uniform(disc@);
        assert forall|x: int| 0 <= x < n implies (#[trigger] gray@[x] <==> Seq::<usize>::empty().contains(x as usize)) by {}
    }
    let mut r: usize = 0;
    while r < n
        invariant
            r <= n,
            n == has_in@.len(),
            rt1 == Seq::new(n as nat, |x: int| !has_in@[x]),
            dfs_ok(q@, disc@, gray@, depth@, src@, dst@, n as nat, Seq::empty()),
            fed_inv(disc@, gray@, depth@, src@, dst@, rt1),
            forall|u: int| 0 <= u < r && !has_in@[u] ==> #[trigger] disc@[u],
            forall|x: int|
                0 <= x < n && #[trigger] disc@[x] ==> exists|u: usize|
                    u < n && !has_in@[u as int] && reaches(src@, dst@, u, x as usize),
        decreases n - r,
    {
        if !has_in[r] && !disc[r] {
            let ghost d0 = disc@;
            visit(&mut q, &mut disc, &mut gray, &mut depth, src, dst, r, Ghost(Seq::empty()), Ghost(rt1));
            proof {
                assert forall|x: int|
                    0 <= x < n && #[trigger] disc@[x] implies exists|u: usize|
                        u < n && !has_in@[u as int] && reaches(src@, dst@, u, x as usize) by {
                    if !d0[x] {
                        assert(reaches(src@, dst@, r, x as usize));
                    }
                }
            }
        }
        r = r + 1;
    }
    proof {
        assert forall|x: int| 0 <= x < n implies !(#[trigger] gray@[x]) by {
            assert(!Seq::<usize>::empty().contains(x as usize));
        }
        assert forall|e: int| 0 <= e < src@.len() && disc@[#[trigger] src@[e] as int] implies disc@[dst@[e] as int] by {
            assert(dst@[e] < n);
        }
        assert forall|w0: usize, u: usize|
            #![trigger reaches(src@, dst@, u, w0)]
            w0 < n && has_in@[w0 as int] && u < n && !has_in@[u as int] && reaches(src@, dst@, u, w0)
                implies fed_from_deeper(q@, src@, dst@, w0 as int) by {
            let w = w0 as int;
            let p = choose|p: Seq<usize>| is_path(src@, dst@, p) && p[0] == u && p.last() == w0;
            assert(disc@[u as int]);
            lemma_closed_path(src@, dst@, disc@, p, p.len() - 1);
            assert(disc@[w]);
            assert(rt1[w] == !has_in@[w]);
            let e = choose|e: int|
                0 <= e < src@.len() && dst@[e] == w && (gray@[src@[e] as int] || (disc@[src@[e] as int]
                    && depth@[src@[e] as int] > depth@[w]));
            assert(src@[e] < n);
            let x = src@[e] as int;
            let a = choose|k: int| 0 <= k < q@.len() && q@[k].1 == x;
            let b = choose|k: int| 0 <= k < q@.len() && q@[k].1 == w;
            assert(depth@[q@[a].1 as int] == q@[a].0);
            assert(depth@[q@[b].1 as int] == q@[b].0);
        }
    }
    (q, disc)
}

/// `dict` records, for each node of `order`, its place counted from the end, and holds
/// nothing else.
pub open spec fn places_recorded(order: Seq<NodeId>, dict: Map<u128, (usize, usize)>) -> bool {
    &&& forall|p: int|
        0 <= p < order.len() ==> dict.contains_key(#[trigger] order[p].0) && dict[order[p].0].1
            == order.len() - 1 - p
    &&& forall|key: u128| #[trigger]
        dict.contains_key(key) ==> exists|p: int| 0 <= p < order.len() && order[p].0 == key
}

/// The depth `dict` records for the node `id`.
pub open spec fn depth_of(dict: Map<u128, (usize, usize)>, id: NodeId) -> int {
    dict[id.0].0 as int
}

/// Every node of `order` deeper than zero feeds, by one of `wires`, a node one level
/// shallower that comes after it.
pub open spec fn depths_chained(
    order: Seq<NodeId>,
    dict: Map<u128, (usize, usize)>,
    wires: Seq<Wire>,
) -> bool {
    forall|p: int|
        0 <= p < order.len() && depth_of(dict, #[trigger] order[p]) > 0 ==> exists|q: int|
            p < q < order.len() && depth_of(dict, order[q]) + 1 == depth_of(dict, order[p])
                && wire_between(wires, order[p], order[q])
}

/// Each node of `p` feeds the next one by one of `wires`.
pub open spec fn id_path(wires: Seq<Wire>, p: Seq<NodeId>) -> bool {
    &&& p.len() > 0
    &&& forall|i: int| 0 <= i < p.len() - 1 ==> #[trigger] wire_between(wires, p[i], p[i + 1])
}

/// Following `wires` leads from node `a` to node `b` (in no steps when they are the same).
pub open spec fn leads_to(wires: Seq<Wire>, a: NodeId, b: NodeId) -> bool {
    exists|p: Seq<NodeId>| id_path(wires, p) && p[0] == a && p.last() == b
}

/// Every wire that closes no cycle (its target does not lead back to its source) runs
/// forward in `order`, from a deeper node to a shallower one: a node comes after all the
/// nodes that feed it, except those that it feeds itself.
pub open spec fn wires_forward(
    order: Seq<NodeId>,
    dict: Map<u128, (usize, usize)>,
    wires: Seq<Wire>,
) -> bool {
    forall|k: int, p: int, r: int|
        #![trigger wires[k], order[p], order[r]]
        0 <= k < wires.len() && 0 <= p < order.len() && 0 <= r < order.len() && order[p]
            == wires[k].src && order[r] == wires[k].dst && !leads_to(
            wires,
            wires[k].dst,
            wires[k].src,
        ) ==> p < r && depth_of(dict, order[p]) > depth_of(dict, order[r])
}

/// The nodes of `order` come deepest first.
pub open spec fn deepest_first(order: Seq<NodeId>, dict: Map<u128, (usize, usize)>) -> bool {
    forall|p: int, t: int|
        0 <= p < t < order.len() ==> depth_of(dict, #[trigger] order[p]) >= depth_of(
            dict,
            #[trigger] order[t],
        )
}

/// Every node with inputs that a node without inputs leads to comes after, and is
/// shallower than, one of the nodes that feed it; so the first node of a cycle that such
/// a node leads to is fed from outside the cycle.
pub open spec fn fed_before(
    order: Seq<NodeId>,
    dict: Map<u128, (usize, usize)>,
    nodes: Seq<Node>,
    wires: Seq<Wire>,
) -> bool {
    forall|t: int, u: NodeId|
        #![trigger leads_to(wires, u, order[t])]
        0 <= t < order.len() && has_input(wires, order[t]) && contains_node(nodes, u) && !has_input(
            wires,
            u,
        ) && leads_to(wires, u, order[t]) ==> exists|k: int, p: int|
            0 <= k < wires.len() && 0 <= p < t && wires[k].src == order[p] && wires[k].dst
                == order[t] && depth_of(dict, order[p]) > depth_of(dict, order[t])
}

/// Some node without inputs leads to node `x`.
pub open spec fn fed_from_source(nodes: Seq<Node>, wires: Seq<Wire>, x: NodeId) -> bool {
    exists|u: NodeId| contains_node(nodes, u) && !has_input(wires, u) && leads_to(wires, u, x)
}

/// Node `x` leads to a node without outputs.
pub open spec fn leads_to_end(nodes: Seq<Node>, wires: Seq<Wire>, x: NodeId) -> bool {
    exists|z: NodeId| contains_node(nodes, z) && !has_output(wires, z) && leads_to(wires, x, z)
}

/// Every node with outputs that leads to a node without outputs, and that no node
/// without inputs leads to, lies deeper than zero; with the depth chain, a cycle that
/// feeds out of itself ends at a node that feeds out.
pub open spec fn exits_deep(
    order: Seq<NodeId>,
    dict: Map<u128, (usize, usize)>,
    nodes: Seq<Node>,
    wires: Seq<Wire>,
) -> bool {
    forall|t: int|
        0 <= t < order.len() && #[trigger] has_output(wires, order[t]) && leads_to_end(nodes, wires, order[t])
            && !fed_from_source(nodes, wires, order[t]) ==> depth_of(dict, order[t]) > 0
}

/// A node that no node without inputs leads to, at depth zero, comes after every other
/// node of its cycle (each node it leads to that leads back to it).
pub open spec fn cycle_ends_shallow(
    order: Seq<NodeId>,
    dict: Map<u128, (usize, usize)>,
    nodes: Seq<Node>,
    wires: Seq<Wire>,
) -> bool {
    forall|t: int, p: int|
        #![trigger leads_to(wires, order[t], order[p]), leads_to(wires, order[p], order[t])]
        0 <= t < order.len() && 0 <= p < order.len() && p != t && !fed_from_source(nodes, wires, order[t])
            && depth_of(dict, order[t]) == 0 && leads_to(wires, order[t], order[p]) && leads_to(
            wires,
            order[p],
            order[t],
        ) ==> p < t
}

/// What a refresh leaves: an order that lists every node once, deepest first, in which a
/// node comes after the nodes that feed it wherever no cycle joins them, and after one of
/// its feeders at least when a node without inputs leads to it; where no such node leads
/// to a node, it lies deeper than zero when it feeds on toward a node without outputs,
/// and at depth zero it ends its cycle; and a record of each node's depth and place in
/// which every node deeper than zero feeds a shallower one evaluated after it.
pub open spec fn fresh_order(
    order: Seq<NodeId>,
    dict: Map<u128, (usize, usize)>,
    nodes: Seq<Node>,
    wires: Seq<Wire>,
) -> bool {
    &&& super::is_permutation_of_nodes(order, nodes)
    &&& places_recorded(order, dict)
    &&& depths_chained(order, dict, wires)
    &&& wires_forward(order, dict, wires)
    &&& deepest_first(order, dict)
    &&& fed_before(order, dict, nodes, wires)
    &&& exits_deep(order, dict, nodes, wires)
    &&& cycle_ends_shallow(order, dict, nodes, wires)
}

/// A path between nodes, read as node indices, is a path between the indices.
proof fn lemma_leads_to_reaches(
    src: Seq<usize>,
    dst: Seq<usize>,
    nodes: Seq<Node>,
    wires: Seq<Wire>,
    a: NodeId,
    b: NodeId,
)
    requires
        unique_nodes(nodes),
        nodes.len() <= usize::MAX,
        ends_ok(src, dst, nodes, wires),
        leads_to(wires, a, b),
        contains_node(nodes, a),
    ensures
        contains_node(nodes, b),
        reaches(src, dst, index_in(nodes, a) as usize, index_in(nodes, b) as usize),
{
    let p = choose|p: Seq<NodeId>| id_path(wires, p) && p[0] == a && p.last() == b;
    // every node of the path is a node of the graph, found at some index
    assert forall|i: int| 0 <= i < p.len() implies #[trigger] contains_node(nodes, p[i]) by {
        if i > 0 {
            let j = i - 1;
            assert(wire_between(wires, p[j], p[j + 1]));
            let k = choose|k: int| 0 <= k < wires.len() && wires[k].src == p[j] && wires[k].dst == p[j + 1];
            assert(nodes[dst[k] as int].id == p[i]);
        }
    }
    let ip = Seq::new(p.len(), |i: int| index_in(nodes, p[i]) as usize);
    assert forall|i: int| 0 <= i < p.len() implies (#[trigger] ip[i]) < nodes.len() && nodes[ip[i] as int].id
        == p[i] by {
        assert(contains_node(nodes, p[i]));
        let j = choose|j: int| 0 <= j < nodes.len() && nodes[j].id == p[i];
        lemma_index_in(nodes, p[i], j);
        assert(ip[i] == j as usize);
        assert(ip[i] as int == j);
    }
    assert forall|i: int| 0 <= i < ip.len() - 1 implies #[trigger] has_edge(src, dst, ip[i], ip[i + 1]) by {
        assert(wire_between(wires, p[i], p[i + 1]));
        let k = choose|k: int| 0 <= k < wires.len() && wires[k].src == p[i] && wires[k].dst == p[i + 1];
        assert(ip[i] < nodes.len() && ip[i + 1] < nodes.len());
        lemma_index_in(nodes, p[i], src[k] as int);
        lemma_index_in(nodes, p[i + 1], dst[k] as int);
        assert(src[k] == ip[i] && dst[k] == ip[i + 1]);
    }
    assert(contains_node(nodes, p[p.len() - 1]));
    assert(is_path(src, dst, ip) && ip[0] == index_in(nodes, a) as usize && ip.last() == index_in(
        nodes,
        b,
    ) as usize);
}

/// A path between node indices, read as identifiers, is a path between the nodes.
proof fn lemma_reaches_ids(
    src: Seq<usize>,
    dst: Seq<usize>,
    nodes: Seq<Node>,
    wires: Seq<Wire>,
    a: usize,
    b: usize,
)
    requires
        ends_ok(src, dst, nodes, wires),
        reaches(src, dst, a, b),
        a < nodes.len(),
        b < nodes.len(),
    ensures
        leads_to(wires, nodes[a as int].id, nodes[b as int].id),
{
    let p = choose|p: Seq<usize>| is_path(src, dst, p) && p[0] == a && p.last() == b;
    let ip = p.map_values(|x: usize| nodes[x as int].id);
    assert forall|i: int| 0 <= i < ip.len() - 1 implies #[trigger] wire_between(wires, ip[i], ip[i + 1]) by {
        assert(has_edge(src, dst, p[i], p[i + 1]));
        let e = choose|e: int| 0 <= e < src.len() && src[e] == p[i] && dst[e] == p[i + 1];
        assert(wires[e].src == ip[i] && wires[e].dst == ip[i + 1]);
    }
    assert(id_path(wires, ip) && ip[0] == nodes[a as int].id && ip.last() == nodes[b as int].id);
}

/// `r` holds the entries of `q`, each once, in some order, no two for the same node.
pub open spec fn same_entries(r: Seq<(usize, usize)>, q: Seq<(usize, usize)>) -> bool {
    &&& r.len() == q.len()
    &&& forall|i: int| 0 <= i < r.len() ==> q.contains(#[trigger] r[i])
    &&& forall|k: int| 0 <= k < q.len() ==> r.contains(#[trigger] q[k])
    &&& forall|a: int, b: int|
        0 <= a < r.len() && 0 <= b < r.len() && a != b ==> (#[trigger] r[a]).1 != (#[trigger] r[b]).1
}

/// Swapping two entries keeps the same entries.
proof fn lemma_swap_entries(r: Seq<(usize, usize)>, q: Seq<(usize, usize)>, a: int, b: int)
    requires
        same_entries(r, q),
        0 <= a < r.len(),
        0 <= b < r.len(),
        a != b,
    ensures
        same_entries(r.update(a, r[b]).update(b, r[a]), q),
{
    let r2 = r.update(a, r[b]).update(b, r[a]);
    assert forall|i: int| 0 <= i < r2.len() implies q.contains(#[trigger] r2[i]) by {
        let j = if i == a { b } else if i == b { a } else { i };
        assert(r2[i] == r[j]);
        assert(q.contains(r[j]));
    }
    assert forall|k: int| 0 <= k < q.len() implies r2.contains(#[trigger] q[k]) by {
        assert(r.contains(q[k]));
        let i0 = choose|i: int| 0 <= i < r.len() && r[i] == q[k];
        let i = if i0 == a { b } else if i0 == b { a } else { i0 };
        assert(r2[i] == r[i0]);
    }
    assert forall|x: int, y: int| 0 <= x < r2.len() && 0 <= y < r2.len() && x != y implies (
    #[trigger] r2[x]).1 != (#[trigger] r2[y]).1 by {
        let x0 = if x == a { b } else if x == b { a } else { x };
        let y0 = if y == a { b } else if y == b { a } else { y };
        assert(r2[x] == r[x0] && r2[y] == r[y0]);
        assert(r[x0].1 != r[y0].1);
    }
}

/// The entries of `q` from the last to the first, then sorted by depth, deepest first;
/// entries of equal depth keep that order.
fn by_depth(q: &Vec<(usize, usize)>) -> (r: Vec<(usize, usize)>)
    requires
        forall|a: int, b: int|
            0 <= a < q@.len() && 0 <= b < q@.len() && a != b ==> (#[trigger] q@[a]).1 != (
            #[trigger] q@[b]).1,
    ensures
        same_entries(r@, q@),
        forall|a: int, b: int| 0 <= a < b < r@.len() ==> (#[trigger] r@[a]).0 >= (#[trigger] r@[b]).0,
{
    let len = q.len();
    let mut r: Vec<(usize, usize)> = Vec::new();
    let mut k = len;
    while k > 0
        invariant
            k <= len,
            len == q@.len(),
            r@.len() == len - k,
            forall|i: int| 0 <= i < r@.len() ==> #[trigger] r@[i] == q@[len - 1 - i],
        decreases k,
    {
        k = k - 1;
        r.push(q[k]);
    }
    proof {
        assert forall|i: int| 0 <= i < r@.len() implies q@.contains(#[trigger] r@[i]) by {
            assert(r@[i] == q@[len - 1 - i]);
        }
        assert forall|k: int| 0 <= k < q@.len() implies r@.contains(#[trigger] q@[k]) by {
            assert(r@[len - 1 - k] == q@[k]);
        }
        assert forall|a: int, b: int| 0 <= a < r@.len() && 0 <= b < r@.len() && a != b implies (
        #[trigger] r@[a]).1 != (#[trigger] r@[b]).1 by {
            assert(r@[a] == q@[len - 1 - a] && r@[b] == q@[len - 1 - b]);
        }
    }
    let mut i: usize = 0;
    while i < len
        invariant
            i <= len,
            len == q@.len(),
            same_entries(r@, q@),
            forall|a: int, b: int| 0 <= a < b < i ==> (#[trigger] r@[a]).0 >= (#[trigger] r@[b]).0,
        decreases len - i,
    {
        let mut j = i;
        while j > 0 && r[j - 1].0 < r[j].0
            invariant
                j <= i < len,
                len == q@.len(),
                same_entries(r@, q@),
                forall|a: int, b: int|
                    0 <= a < b <= i && a != j && b != j ==> (#[trigger] r@[a]).0 >= (#[trigger] r@[b]).0,
                forall|b: int| j < b <= i ==> r@[j as int].0 > (#[trigger] r@[b]).0,
            decreases j,
        {
            let x = r[j - 1];
            let y = r[j];
            proof {
                lemma_swap_entries(r@, q@, j - 1, j as int);
            }
            let ghost r0 = r@;
            r.set(j - 1, y);
            r.set(j, x);
            proof {
                assert(r@ == r0.update(j - 1, r0[j as int]).update(j as int, r0[j - 1]));
                assert forall|a: int, b: int|
                    0 <= a < b <= i && a != j - 1 && b != j - 1 implies (#[trigger] r@[a]).0 >= (
                    #[trigger] r@[b]).0 by {
                    let a0 = if a == j { j - 1 } else { a };
                    let b0 = if b == j { j - 1 } else { b };
                    assert(r@[a] == r0[a0] && r@[b] == r0[b0]);
                }
                assert forall|b: int| j - 1 < b <= i implies r@[j - 1].0 > (#[trigger] r@[b]).0 by {
                    if b == j {
                    } else {
                        assert(r@[b] == r0[b]);
                    }
                }
            }
            j = j - 1;
        }
        proof {
            assert forall|a: int, b: int| 0 <= a < b < i + 1 implies (#[trigger] r@[a]).0 >= (
            #[trigger] r@[b]).0 by {
                if a == j {
                } else if b == j {
                    if a < j - 1 {
                        assert(r@[a].0 >= r@[j - 1].0);
                    }
                }
            }
        }
        i = i + 1;
    }
    r
}

/// A node that the walk finished after a deeper feeder comes after that feeder in the
/// order read off the sorted entries `r`.
proof fn lemma_feeder_before(
    q: Seq<(usize, usize)>,
    r: Seq<(usize, usize)>,
    src: Seq<usize>,
    dst: Seq<usize>,
    nodes: Seq<Node>,
    wires: Seq<Wire>,
    order: Seq<NodeId>,
    dict: Map<u128, (usize, usize)>,
    t: int,
)
    requires
        unique_nodes(nodes),
        ends_ok(src, dst, nodes, wires),
        same_entries(r, q),
        forall|a: int, b: int| 0 <= a < b < r.len() ==> (#[trigger] r[a]).0 >= (#[trigger] r[b]).0,
        forall|p: int| 0 <= p < r.len() ==> #[trigger] r[p].1 < nodes.len(),
        order.len() == r.len(),
        forall|p: int| 0 <= p < order.len() ==> #[trigger] order[p] == nodes[r[p].1 as int].id,
        forall|p: int|
            0 <= p < r.len() ==> dict.contains_key(#[trigger] nodes[r[p].1 as int].id.0)
                && dict[nodes[r[p].1 as int].id.0] == (r[p].0, (r.len() - 1 - p) as usize),
        0 <= t < r.len(),
        fed_from_deeper(q, src, dst, r[t].1 as int),
    ensures
        exists|k: int, p: int|
            0 <= k < wires.len() && 0 <= p < t && wires[k].src == order[p] && wires[k].dst == order[t]
                && depth_of(dict, order[p]) > depth_of(dict, order[t]),
{
    let w = r[t].1;
    let (e, a, b) = choose|e: int, a: int, b: int|
        0 <= e < src.len() && dst[e] == w && 0 <= a < q.len() && 0 <= b < q.len() && q[a].1
            == src[e] && q[b].1 == w && q[a].0 > q[b].0;
    assert(r.contains(q[a]) && r.contains(q[b]));
    let pa = choose|i: int| 0 <= i < r.len() && r[i] == q[a];
    let pb = choose|i: int| 0 <= i < r.len() && r[i] == q[b];
    if pb != t {
        assert(r[pb].1 != r[t].1);
        assert(false);
    }
    if pa >= t {
        if pa > t {
            assert(r[t].0 >= r[pa].0);
        }
        assert(false);
    }
    assert(src[e] < nodes.len() && nodes[src[e] as int].id == wires[e].src);
    assert(dst[e] < nodes.len() && nodes[dst[e] as int].id == wires[e].dst);
    assert(order[pa] == wires[e].src);
    assert(dict.contains_key(nodes[r[pa].1 as int].id.0));
    assert(dict.contains_key(nodes[r[t].1 as int].id.0));
    assert(depth_of(dict, order[pa]) > depth_of(dict, order[t]));
}

/// Nodes with inputs that a node without inputs leads to follow one of their feeders.
proof fn lemma_order_fed(
    q: Seq<(usize, usize)>,
    r: Seq<(usize, usize)>,
    has_in: Seq<bool>,
    src: Seq<usize>,
    dst: Seq<usize>,
    nodes: Seq<Node>,
    wires: Seq<Wire>,
    order: Seq<NodeId>,
    dict: Map<u128, (usize, usize)>,
)
    requires
        unique_nodes(nodes),
        nodes.len() <= usize::MAX,
        ends_ok(src, dst, nodes, wires),
        read_off(q, r, nodes, order, dict),
        has_in.len() == nodes.len(),
        forall|v: int| 0 <= v < nodes.len() ==> (has_in[v] <==> exists|e: int| 0 <= e < dst.len() && dst[e] == v),
        forall|w: usize, u: usize|
            #![trigger reaches(src, dst, u, w)]
            w < has_in.len() && has_in[w as int] && u < has_in.len() && !has_in[u as int] && reaches(
                src,
                dst,
                u,
                w,
            ) ==> fed_from_deeper(q, src, dst, w as int),
    ensures
        fed_before(order, dict, nodes, wires),
{
    lemma_read_off(q, r, nodes, order, dict);
    let len = r.len() as int;
    // a node that an inputless node leads to follows one of its feeders
    assert forall|t: int, u: NodeId|
        #![trigger leads_to(wires, u, order[t])]
        0 <= t < len && has_input(wires, order[t]) && contains_node(nodes, u) && !has_input(wires, u)
            && leads_to(wires, u, order[t]) implies exists|k: int, p: int|
        0 <= k < wires.len() && 0 <= p < t && wires[k].src == order[p] && wires[k].dst == order[t]
            && depth_of(dict, order[p]) > depth_of(dict, order[t]) by {
        let w = r[t].1;
        assert(w < nodes.len());
        assert(nodes[w as int].id == order[t]);
        lemma_index_in(nodes, order[t], w as int);
        let ju = choose|j: int| 0 <= j < nodes.len() && nodes[j].id == u;
        lemma_index_in(nodes, u, ju);
        let iu = ju as usize;
        // `w` has an input, `iu` has none
        let k0 = choose|k: int| 0 <= k < wires.len() && wires[k].dst == order[t];
        assert(dst[k0] < nodes.len() && nodes[dst[k0] as int].id == wires[k0].dst);
        assert(dst[k0] == w);
        assert(has_in[w as int]);
        if has_in[iu as int] {
            let e = choose|e: int| 0 <= e < dst.len() && dst[e] == iu;
            assert(wires[e].dst == u);
            assert(false);
        }
        lemma_leads_to_reaches(src, dst, nodes, wires, u, order[t]);
        assert(reaches(src, dst, iu, w));
        assert(fed_from_deeper(q, src, dst, w as int));
        lemma_feeder_before(q, r, src, dst, nodes, wires, order, dict, t);
    }
}

/// The order and record are read off the entries `r`, sorted deepest first, of the
/// entries `q` that hold each node once.
spec fn read_off(
    q: Seq<(usize, usize)>,
    r: Seq<(usize, usize)>,
    nodes: Seq<Node>,
    order: Seq<NodeId>,
    dict: Map<u128, (usize, usize)>,
) -> bool {
    &&& covers(q, nodes.len())
    &&& same_entries(r, q)
    &&& forall|a: int, b: int| 0 <= a < b < r.len() ==> (#[trigger] r[a]).0 >= (#[trigger] r[b]).0
    &&& order.len() == r.len()
    &&& forall|p: int| 0 <= p < order.len() ==> #[trigger] order[p] == nodes[r[p].1 as int].id
    &&& forall|p: int|
        0 <= p < r.len() ==> dict.contains_key(#[trigger] nodes[r[p].1 as int].id.0)
            && dict[nodes[r[p].1 as int].id.0] == (r[p].0, (r.len() - 1 - p) as usize)
    &&& forall|key: u128| #[trigger]
        dict.contains_key(key) ==> exists|p: int| 0 <= p < r.len() && nodes[r[p].1 as int].id.0 == key
}

/// `q` holds node `w` deeper than zero.
pub open spec fn has_deep(q: Seq<(usize, usize)>, w: int) -> bool {
    exists|k: int| 0 <= k < q.len() && q[k].1 == w && q[k].0 > 0
}

/// What reading off gives at once: each node once, places, deepest first, and where each
/// node and each entry stand.
proof fn lemma_read_off(
    q: Seq<(usize, usize)>,
    r: Seq<(usize, usize)>,
    nodes: Seq<Node>,
    order: Seq<NodeId>,
    dict: Map<u128, (usize, usize)>,
)
    requires
        unique_nodes(nodes),
        nodes.len() <= usize::MAX,
        read_off(q, r, nodes, order, dict),
    ensures
        super::is_permutation_of_nodes(order, nodes),
        places_recorded(order, dict),
        deepest_first(order, dict),
        forall|p: int| 0 <= p < r.len() ==> (#[trigger] r[p]).1 < nodes.len(),
        forall|p: int| 0 <= p < r.len() ==> depth_of(dict, #[trigger] order[p]) == r[p].0,
        forall|k: int| 0 <= k < q.len() ==> r.contains(#[trigger] q[k]),
        r.len() == nodes.len(),
{
    let len = r.len() as int;
    assert forall|p: int| 0 <= p < len implies (#[trigger] r[p]).1 < nodes.len() by {
        assert(q.contains(r[p]));
        let k = choose|k: int| 0 <= k < q.len() && q[k] == r[p];
    }
    assert forall|p: int| 0 <= p < len implies depth_of(dict, #[trigger] order[p]) == r[p].0 by {
        assert(dict.contains_key(nodes[r[p].1 as int].id.0));
    }
    assert forall|a: int, b: int| 0 <= a < len && 0 <= b < len && a != b implies order[a] != order[b] by {
        assert(r[a].1 != r[b].1);
        assert(r[a].1 < nodes.len() && r[b].1 < nodes.len());
        assert(nodes[r[a].1 as int].id != nodes[r[b].1 as int].id);
    }
    assert(order.no_duplicates());
    assert forall|p: int| 0 <= p < len implies contains_node(nodes, #[trigger] order[p]) by {
        assert(r[p].1 < nodes.len());
        assert(nodes[r[p].1 as int].id == order[p]);
    }
    assert forall|v: int| 0 <= v < nodes.len() implies order.contains(#[trigger] nodes[v].id) by {
        assert(has_entry(q, v));
        let k = choose|k: int| 0 <= k < q.len() && q[k].1 == v;
        assert(r.contains(q[k]));
        let p = choose|p: int| 0 <= p < r.len() && r[p] == q[k];
        assert(order[p] == nodes[v].id);
    }
    assert forall|p: int| 0 <= p < len implies dict.contains_key(#[trigger] order[p].0)
        && dict[order[p].0].1 == len - 1 - p by {
        assert(dict.contains_key(nodes[r[p].1 as int].id.0));
    }
    assert forall|key: u128| #[trigger] dict.contains_key(key) implies exists|p: int|
        0 <= p < len && order[p].0 == key by {
        let p = choose|p: int| 0 <= p < r.len() && nodes[r[p].1 as int].id.0 == key;
        assert(order[p].0 == key);
    }
    assert forall|p: int, t: int| 0 <= p < t < len implies depth_of(dict, #[trigger] order[p])
        >= depth_of(dict, #[trigger] order[t]) by {
        assert(r[p].0 >= r[t].0);
    }
}

/// The depth chain of an order read off entries where every entry deeper than zero
/// comes from one a level shallower that it feeds.
proof fn lemma_order_chained(
    q: Seq<(usize, usize)>,
    r: Seq<(usize, usize)>,
    src: Seq<usize>,
    dst: Seq<usize>,
    nodes: Seq<Node>,
    wires: Seq<Wire>,
    order: Seq<NodeId>,
    dict: Map<u128, (usize, usize)>,
)
    requires
        unique_nodes(nodes),
        nodes.len() <= usize::MAX,
        ends_ok(src, dst, nodes, wires),
        read_off(q, r, nodes, order, dict),
        found_any(q, src, dst),
    ensures
        depths_chained(order, dict, wires),
{
    lemma_read_off(q, r, nodes, order, dict);
    let len = r.len() as int;
    assert forall|p: int|
        0 <= p < len && depth_of(dict, #[trigger] order[p]) > 0 implies exists|t: int|
        p < t < len && depth_of(dict, order[t]) + 1 == depth_of(dict, order[p]) && wire_between(
            wires,
            order[p],
            order[t],
        ) by {
        assert(q.contains(r[p]));
        let k = choose|k: int| 0 <= k < q.len() && q[k] == r[p];
        assert(q[k].0 > 0);
        let (j, e) = choose|j: int, e: int|
            0 <= j < q.len() && q[j].0 + 1 == q[k].0 && 0 <= e < src.len() && src[e] == q[k].1 && dst[e]
                == q[j].1;
        assert(r.contains(q[j]));
        let t = choose|t: int| 0 <= t < r.len() && r[t] == q[j];
        if t <= p {
            if t < p {
                assert(r[t].0 >= r[p].0);
            }
            assert(false);
        }
        assert(depth_of(dict, order[t]) == r[t].0);
        assert(order[t] == nodes[q[j].1 as int].id);
        assert(src[e] < nodes.len() && nodes[src[e] as int].id == wires[e].src);
        assert(dst[e] < nodes.len() && nodes[dst[e] as int].id == wires[e].dst);
        assert(wires[e].src == order[p] && wires[e].dst == order[t]);
    }
}

/// Wires that close no cycle run forward in an order read off settled entries.
proof fn lemma_order_forward(
    q: Seq<(usize, usize)>,
    r: Seq<(usize, usize)>,
    src: Seq<usize>,
    dst: Seq<usize>,
    nodes: Seq<Node>,
    wires: Seq<Wire>,
    order: Seq<NodeId>,
    dict: Map<u128, (usize, usize)>,
)
    requires
        unique_nodes(nodes),
        nodes.len() <= usize::MAX,
        ends_ok(src, dst, nodes, wires),
        read_off(q, r, nodes, order, dict),
        forall|e: int| 0 <= e < src.len() ==> #[trigger] edge_settled(q, src, dst, e),
    ensures
        wires_forward(order, dict, wires),
{
    lemma_read_off(q, r, nodes, order, dict);
    let len = r.len() as int;
    assert forall|k: int, p: int, t: int|
        #![trigger wires[k], order[p], order[t]]
        0 <= k < wires.len() && 0 <= p < len && 0 <= t < len && order[p] == wires[k].src
            && order[t] == wires[k].dst && !leads_to(wires, wires[k].dst, wires[k].src) implies p < t
        && depth_of(dict, order[p]) > depth_of(dict, order[t]) by {
        assert(src[k] < nodes.len() && nodes[src[k] as int].id == wires[k].src);
        assert(dst[k] < nodes.len() && nodes[dst[k] as int].id == wires[k].dst);
        assert(edge_settled(q, src, dst, k));
        if reaches(src, dst, dst[k], src[k]) {
            lemma_reaches_ids(src, dst, nodes, wires, dst[k], src[k]);
        }
        let (a, b) = choose|a: int, b: int|
            0 <= a < q.len() && 0 <= b < q.len() && q[a].1 == src[k] && q[b].1 == dst[k] && q[a].0 > q[b].0;
        assert(r.contains(q[a]) && r.contains(q[b]));
        let pa = choose|i: int| 0 <= i < r.len() && r[i] == q[a];
        let pb = choose|i: int| 0 <= i < r.len() && r[i] == q[b];
        assert(order[pa] == wires[k].src);
        assert(order[pb] == wires[k].dst);
        assert(p == pa);
        assert(t == pb);
        if pb <= pa {
            if pb < pa {
                assert(r[pb].0 >= r[pa].0);
            }
            assert(false);
        }
    }
}

/// Node index `w` of a node that no node without inputs leads to was not reached from
/// one, when every node that was is marked in `f` only if such a node leads to it.
proof fn lemma_not_from_source(
    src: Seq<usize>,
    dst: Seq<usize>,
    nodes: Seq<Node>,
    wires: Seq<Wire>,
    has_in: Seq<bool>,
    f: Seq<bool>,
    w: usize,
)
    requires
        unique_nodes(nodes),
        ends_ok(src, dst, nodes, wires),
        has_in.len() == nodes.len(),
        f.len() == nodes.len(),
        forall|v: int| 0 <= v < nodes.len() ==> (has_in[v] <==> exists|e: int| 0 <= e < dst.len() && dst[e] == v),
        forall|x: int|
            0 <= x < nodes.len() && #[trigger] f[x] ==> exists|u: usize|
                u < nodes.len() && !has_in[u as int] && reaches(src, dst, u, x as usize),
        w < nodes.len(),
        !fed_from_source(nodes, wires, nodes[w as int].id),
    ensures
        !f[w as int],
{
    if f[w as int] {
        let u = choose|u: usize| u < nodes.len() && !has_in[u as int] && reaches(src, dst, u, w);
        lemma_reaches_ids(src, dst, nodes, wires, u, w);
        let uid = nodes[u as int].id;
        assert(contains_node(nodes, uid));
        if has_input(wires, uid) {
            let k = choose|k: int| 0 <= k < wires.len() && wires[k].dst == uid;
            assert(dst[k] < nodes.len() && nodes[dst[k] as int].id == uid);
            assert(dst[k] == u);
            assert(has_in[u as int]);
        }
        assert(fed_from_source(nodes, wires, nodes[w as int].id));
    }
}

/// The laws on nodes that no node without inputs leads to.
proof fn lemma_order_exits(
    q: Seq<(usize, usize)>,
    r: Seq<(usize, usize)>,
    has_in: Seq<bool>,
    has_out: Seq<bool>,
    f: Seq<bool>,
    src: Seq<usize>,
    dst: Seq<usize>,
    nodes: Seq<Node>,
    wires: Seq<Wire>,
    order: Seq<NodeId>,
    dict: Map<u128, (usize, usize)>,
)
    requires
        unique_nodes(nodes),
        nodes.len() <= usize::MAX,
        ends_ok(src, dst, nodes, wires),
        read_off(q, r, nodes, order, dict),
        has_in.len() == nodes.len(),
        has_out.len() == nodes.len(),
        f.len() == nodes.len(),
        forall|v: int| 0 <= v < nodes.len() ==> (has_in[v] <==> exists|e: int| 0 <= e < dst.len() && dst[e] == v),
        forall|v: int| 0 <= v < nodes.len() ==> (has_out[v] <==> exists|e: int| 0 <= e < src.len() && src[e] == v),
        forall|x: int|
            0 <= x < nodes.len() && #[trigger] f[x] ==> exists|u: usize|
                u < nodes.len() && !has_in[u as int] && reaches(src, dst, u, x as usize),
        forall|w: usize, z: usize|
            #![trigger reaches(src, dst, w, z)]
            w < nodes.len() && !f[w as int] && has_out[w as int] && z < nodes.len() && !has_out[z as int]
                && reaches(src, dst, w, z) ==> has_deep(q, w as int),
        forall|w: usize, y: usize|
            #![trigger reaches(src, dst, w, y), reaches(src, dst, y, w)]
            w < nodes.len() && y < nodes.len() && w != y && !f[w as int] && reaches(src, dst, w, y) && reaches(
                src,
                dst,
                y,
                w,
            ) ==> has_deep(q, w as int) || has_deep(q, y as int),
    ensures
        exits_deep(order, dict, nodes, wires),
        cycle_ends_shallow(order, dict, nodes, wires),
{
    lemma_read_off(q, r, nodes, order, dict);
    let len = r.len() as int;
    assert forall|t: int|
        0 <= t < len && #[trigger] has_output(wires, order[t]) && leads_to_end(nodes, wires, order[t])
            && !fed_from_source(nodes, wires, order[t]) implies depth_of(dict, order[t]) > 0 by {
        let w = r[t].1;
        assert(nodes[w as int].id == order[t]);
        lemma_index_in(nodes, order[t], w as int);
        lemma_not_from_source(src, dst, nodes, wires, has_in, f, w);
        let k0 = choose|k: int| 0 <= k < wires.len() && wires[k].src == order[t];
        assert(src[k0] < nodes.len() && nodes[src[k0] as int].id == wires[k0].src);
        assert(src[k0] == w);
        assert(has_out[w as int]);
        let z = choose|z: NodeId| contains_node(nodes, z) && !has_output(wires, z) && leads_to(wires, order[t], z);
        lemma_leads_to_reaches(src, dst, nodes, wires, order[t], z);
        let jz = choose|j: int| 0 <= j < nodes.len() && nodes[j].id == z;
        lemma_index_in(nodes, z, jz);
        let iz = jz as usize;
        if has_out[iz as int] {
            let e = choose|e: int| 0 <= e < src.len() && src[e] == iz;
            assert(wires[e].src == z);
            assert(false);
        }
        assert(reaches(src, dst, w, iz));
        assert(has_deep(q, w as int));
        let k = choose|k: int| 0 <= k < q.len() && q[k].1 == w && q[k].0 > 0;
        assert(r.contains(q[k]));
        let pk = choose|x: int| 0 <= x < r.len() && r[x] == q[k];
        if pk != t {
            assert(r[pk].1 != r[t].1);
        }
    }
    assert forall|t: int, p: int|
        #![trigger leads_to(wires, order[t], order[p]), leads_to(wires, order[p], order[t])]
        0 <= t < len && 0 <= p < len && p != t && !fed_from_source(nodes, wires, order[t]) && depth_of(
            dict,
            order[t],
        ) == 0 && leads_to(wires, order[t], order[p]) && leads_to(wires, order[p], order[t]) implies p < t by {
        let w = r[t].1;
        let y = r[p].1;
        assert(nodes[w as int].id == order[t]);
        assert(nodes[y as int].id == order[p]);
        lemma_index_in(nodes, order[t], w as int);
        lemma_index_in(nodes, order[p], y as int);
        lemma_not_from_source(src, dst, nodes, wires, has_in, f, w);
        assert(r[t].1 != r[p].1);
        lemma_leads_to_reaches(src, dst, nodes, wires, order[t], order[p]);
        lemma_leads_to_reaches(src, dst, nodes, wires, order[p], order[t]);
        assert(reaches(src, dst, w, y) && reaches(src, dst, y, w));
        if has_deep(q, w as int) {
            let k = choose|k: int| 0 <= k < q.len() && q[k].1 == w && q[k].0 > 0;
            assert(r.contains(q[k]));
            let pk = choose|x: int| 0 <= x < r.len() && r[x] == q[k];
            if pk != t {
                assert(r[pk].1 != r[t].1);
            }
            assert(false);
        } else {
            assert(has_deep(q, y as int));
            let k = choose|k: int| 0 <= k < q.len() && q[k].1 == y && q[k].0 > 0;
            assert(r.contains(q[k]));
            let pk = choose|x: int| 0 <= x < r.len() && r[x] == q[k];
            if pk != p {
                assert(r[pk].1 != r[p].1);
            }
            if p > t {
                assert(r[t].0 >= r[p].0);
            }
        }
    }
}

/// The order and record read off the settled entries are a fresh order.
proof fn lemma_walk_gives_order(
    q: Seq<(usize, usize)>,
    r: Seq<(usize, usize)>,
    has_in: Seq<bool>,
    has_out: Seq<bool>,
    f: Seq<bool>,
    src: Seq<usize>,
    dst: Seq<usize>,
    nodes: Seq<Node>,
    wires: Seq<Wire>,
    order: Seq<NodeId>,
    dict: Map<u128, (usize, usize)>,
)
    requires
        unique_nodes(nodes),
        nodes.len() <= usize::MAX,
        ends_ok(src, dst, nodes, wires),
        read_off(q, r, nodes, order, dict),
        found_any(q, src, dst),
        forall|e: int| 0 <= e < src.len() ==> #[trigger] edge_settled(q, src, dst, e),
        has_in.len() == nodes.len(),
        has_out.len() == nodes.len(),
        f.len() == nodes.len(),
        forall|v: int| 0 <= v < nodes.len() ==> (has_in[v] <==> exists|e: int| 0 <= e < dst.len() && dst[e] == v),
        forall|v: int| 0 <= v < nodes.len() ==> (has_out[v] <==> exists|e: int| 0 <= e < src.len() && src[e] == v),
        forall|w: usize, u: usize|
            #![trigger reaches(src, dst, u, w)]
            w < has_in.len() && has_in[w as int] && u < has_in.len() && !has_in[u as int] && reaches(
                src,
                dst,
                u,
                w,
            ) ==> fed_from_deeper(q, src, dst, w as int),
        forall|x: int|
            0 <= x < nodes.len() && #[trigger] f[x] ==> exists|u: usize|
                u < nodes.len() && !has_in[u as int] && reaches(src, dst, u, x as usize),
        forall|w: usize, z: usize|
            #![trigger reaches(src, dst, w, z)]
            w < nodes.len() && !f[w as int] && has_out[w as int] && z < nodes.len() && !has_out[z as int]
                && reaches(src, dst, w, z) ==> has_deep(q, w as int),
        forall|w: usize, y: usize|
            #![trigger reaches(src, dst, w, y), reaches(src, dst, y, w)]
            w < nodes.len() && y < nodes.len() && w != y && !f[w as int] && reaches(src, dst, w, y) && reaches(
                src,
                dst,
                y,
                w,
            ) ==> has_deep(q, w as int) || has_deep(q, y as int),
    ensures
        fresh_order(order, dict, nodes, wires),
{
    lemma_read_off(q, r, nodes, order, dict);
    lemma_order_chained(q, r, src, dst, nodes, wires, order, dict);
    lemma_order_forward(q, r, src, dst, nodes, wires, order, dict);
    lemma_order_fed(q, r, has_in, src, dst, nodes, wires, order, dict);
    lemma_order_exits(q, r, has_in, has_out, f, src, dst, nodes, wires, order, dict);
}

impl Graph {
    /// Brings the evaluation order up to date, if it is dirty; a clean order is left as
    /// it is. Every wire must join two nodes of the graph. The new order lists the nodes
    /// deepest first; each node comes after the nodes that feed it, except where a cycle
    /// joins them; a node with inputs comes after one of its feeders when a node without
    /// inputs leads to it (so such a cycle is entered at a node fed from outside it);
    /// where no such node leads to a node, it lies deeper than zero if it feeds on toward
    /// a node without outputs (so such a cycle ends at a node that feeds out), and at depth
    /// zero it ends its cycle. The record gives each node its depth and its place counted
    /// from the end.
    pub fn refresh_eval_order(&mut self)
        requires
            old(self).wf(),
            old(self).wires_connected(),
        ensures
            final(self).wf(),
            !final(self).dirty(),
            !old(self).dirty() ==> final(self).eval_order_view() == old(self).eval_order_view()
                && final(self).eval_dict_view() == old(self).eval_dict_view(),
            old(self).dirty() ==> fresh_order(
                final(self).eval_order_view(),
                final(self).eval_dict_view(),
                final(self).nodes_view(),
                final(self).wires_view(),
            ),
            final(self).nodes_view() == old(self).nodes_view(),
            final(self).wires_view() == old(self).wires_view(),
            final(self).grid_view() == old(self).grid_view(),
            final(self).names_view() == old(self).names_view(),
            final(self).graph_id() == old(self).graph_id(),
            final(self).next_node() == old(self).next_node(),
            final(self).next_wire() == old(self).next_wire(),
    {
        if !self.is_eval_order_dirty {
            return;
        }
        let n = self.nodes.len();
        let (src, dst) = wire_ends(&self.nodes, &self.wires);
        let has_in = marked(&dst, n);
        let has_out = marked(&src, n);
        let (first, reached) = walk(&has_in, &src, &dst);
        proof {
            assert forall|e: int| 0 <= e < src@.len() implies has_out@[#[trigger] src@[e] as int] by {
                assert(src@[e] < n);
            }
        }
        let (back, rest) = rwalk(&has_out, &reached, &src, &dst);
        let queue = settle_depths(&first, &reached, &back, &rest, &src, &dst);
        proof {
            assert forall|a: int, b: int|
                0 <= a < queue@.len() && 0 <= b < queue@.len() && a != b implies (#[trigger] queue@[a]).1 != (
                #[trigger] queue@[b]).1 by {}
        }
        let ranked = by_depth(&queue);
        let len = ranked.len();
        let mut order: Vec<NodeId> = Vec::new();
        let mut dict: HashMap<u128, (usize, usize)> = HashMap::new();
        let mut p: usize = 0;
        while p < len
            invariant
                p <= len,
                len == ranked@.len(),
                n == self.nodes@.len(),
                unique_nodes(self.nodes@),
                same_entries(ranked@, queue@),
                forall|k: int| 0 <= k < queue@.len() ==> (#[trigger] queue@[k]).1 < n,
                order@.len() == p,
                forall|a: int| 0 <= a < p ==> #[trigger] order@[a] == self.nodes@[ranked@[a].1 as int].id,
                forall|a: int|
                    0 <= a < p ==> dict@.contains_key(#[trigger] self.nodes@[ranked@[a].1 as int].id.0)
                        && dict@[self.nodes@[ranked@[a].1 as int].id.0] == (ranked@[a].0, (len - 1
                        - a) as usize),
                forall|key: u128| #[trigger]
                    dict@.contains_key(key) ==> exists|a: int|
                        0 <= a < p && self.nodes@[ranked@[a].1 as int].id.0 == key,
            decreases len - p,
        {
            proof {
                assert(queue@.contains(ranked@[p as int]));
                let k = choose|k: int| 0 <= k < queue@.len() && queue@[k] == ranked@[p as int];
                assert(queue@[k].1 < n);
            }
            let id = self.nodes[ranked[p].1].id;
            proof {
                assert forall|a: int| 0 <= a < p implies #[trigger] self.nodes@[ranked@[a].1 as int].id.0
                    != id.0 by {
                    assert(ranked@[a].1 != ranked@[p as int].1);
                    assert(queue@.contains(ranked@[a]));
                    let k = choose|k: int| 0 <= k < queue@.len() && queue@[k] == ranked@[a];
                    assert(queue@[k].1 < n);
                }
            }
            order.push(id);
            dict.insert(id.0, (ranked[p].0, len - 1 - p));
            p = p + 1;
        }
        self.eval_order = order;
        self.eval_order_dict = dict;
        self.is_eval_order_dirty = false;
        proof {
            assert forall|w: usize, u: usize|
                #![trigger reaches(src@, dst@, u, w)]
                w < n && has_in@[w as int] && u < n && !has_in@[u as int] && reaches(src@, dst@, u, w)
                    implies fed_from_deeper(queue@, src@, dst@, w as int) by {
                assert(fed_from_deeper(first@, src@, dst@, w as int));
                let (e, a, b) = choose|e: int, a: int, b: int|
                    0 <= e < src@.len() && dst@[e] == w && 0 <= a < first@.len() && 0 <= b < first@.len()
                        && first@[a].1 == src@[e] && first@[b].1 == w && first@[a].0 > first@[b].0;
                assert(queue@[a] == first@[a] && queue@[b] == first@[b]);
            }
            assert forall|w: usize, z: usize|
                #![trigger reaches(src@, dst@, w, z)]
                w < n && !reached@[w as int] && has_out@[w as int] && z < n && !has_out@[z as int] && reaches(
                    src@,
                    dst@,
                    w,
                    z,
                ) implies has_deep(queue@, w as int) by {
                assert(good(back@, reached@, src@, dst@, w as int));
            }
            assert forall|w: usize, y: usize|
                #![trigger reaches(src@, dst@, w, y), reaches(src@, dst@, y, w)]
                w < n && y < n && w != y && !reached@[w as int] && reaches(src@, dst@, w, y) && reaches(
                    src@,
                    dst@,
                    y,
                    w,
                ) implies has_deep(queue@, w as int) || has_deep(queue@, y as int) by {
                if good(back@, reached@, src@, dst@, w as int) {
                } else {
                    assert(good(back@, reached@, src@, dst@, y as int));
                    if reached@[y as int] {
                        let p = choose|p: Seq<usize>| is_path(src@, dst@, p) && p[0] == y && p.last() == w;
                        lemma_closed_path(src@, dst@, reached@, p, p.len() - 1);
                    }
                }
            }
            lemma_walk_gives_order(
                queue@,
                ranked@,
                has_in@,
                has_out@,
                reached@,
                src@,
                dst@,
                self.nodes@,
                self.wires@,
                self.eval_order@,
                self.eval_order_dict@,
            );
        }
    }
}

/// The states of the nodes that feed `id`, one per wire into it, in wire order.
pub open spec fn input_states(nodes: Seq<Node>, wires: Seq<Wire>, id: NodeId) -> Seq<bool>
    decreases wires.len(),
{
    if wires.len() == 0 {
        Seq::empty()
    } else {
        let rest = input_states(nodes, wires.drop_last(), id);
        if wires.last().dst == id {
            rest.push(nodes[index_in(nodes, wires.last().src)].state)
        } else {
            rest
        }
    }
}

/// The inputs of node `id` are, in wire order, the states of the nodes at the source
/// ends of the wires that end at `id`, one per wire.
pub proof fn lemma_inputs_are_feeders(nodes: Seq<Node>, wires: Seq<Wire>, id: NodeId)
    ensures
        input_states(nodes, wires, id) == wires.filter(|w: Wire| w.dst == id).map_values(
            |w: Wire| nodes[index_in(nodes, w.src)].state,
        ),
    decreases wires.len(),
{
    reveal(Seq::filter);
    if wires.len() > 0 {
        lemma_inputs_are_feeders(nodes, wires.drop_last(), id);
        let f = |w: Wire| nodes[index_in(nodes, w.src)].state;
        let rest = wires.drop_last().filter(|w: Wire| w.dst == id);
        assert(rest.push(wires.last()).map_values(f) =~= rest.map_values(f).push(f(wires.last())));
    }
}

/// Evaluating node `id` changes that node alone, and of it only its state and its gate's
/// state: it keeps its identifier, its place and its kind of gate.
pub proof fn lemma_eval_step_local(nodes: Seq<Node>, wires: Seq<Wire>, id: NodeId)
    requires
        contains_node(nodes, id),
    ensures
        eval_step(nodes, wires, id).len() == nodes.len(),
        forall|j: int|
            0 <= j < nodes.len() && j != index_in(nodes, id) ==> #[trigger] eval_step(nodes, wires, id)[j]
                == nodes[j],
        eval_step(nodes, wires, id)[index_in(nodes, id)].id == id,
        eval_step(nodes, wires, id)[index_in(nodes, id)].position == nodes[index_in(nodes, id)].position,
        eval_step(nodes, wires, id)[index_in(nodes, id)].gate.spec_as_gate() == nodes[index_in(
            nodes,
            id,
        )].gate.spec_as_gate(),
{
    let i = index_in(nodes, id);
    lemma_gate_outputs(nodes[i].gate, input_states(nodes, wires, id));
}

/// The nodes after node `id` is evaluated: its gate reads the states of the nodes that
/// feed it, and the node takes its gate's output as its state.
pub open spec fn eval_step(nodes: Seq<Node>, wires: Seq<Wire>, id: NodeId) -> Seq<Node> {
    let i = index_in(nodes, id);
    let ins = input_states(nodes, wires, id);
    let t = count_true(ins);
    nodes.update(
        i,
        Node { state: nodes[i].gate.output(ins.len(), t), gate: nodes[i].gate.next(t), ..nodes[i] },
    )
}

/// The nodes after each node of `order` is evaluated in turn.
pub open spec fn eval_run(nodes: Seq<Node>, wires: Seq<Wire>, order: Seq<NodeId>) -> Seq<Node>
    decreases order.len(),
{
    if order.len() == 0 {
        nodes
    } else {
        eval_step(eval_run(nodes, wires, order.drop_last()), wires, order.last())
    }
}

/// Evaluating in `order` never asks a capacitor to hold more than nine.
pub open spec fn eval_safe(nodes: Seq<Node>, wires: Seq<Wire>, order: Seq<NodeId>) -> bool
    decreases order.len(),
{
    if order.len() == 0 {
        true
    } else {
        let before = eval_run(nodes, wires, order.drop_last());
        let id = order.last();
        &&& eval_safe(nodes, wires, order.drop_last())
        &&& before[index_in(before, id)].gate.can_evaluate(
            count_true(input_states(before, wires, id)),
        )
    }
}

/// A safe evaluation is safe up to any point.
proof fn lemma_eval_safe_prefix(nodes: Seq<Node>, wires: Seq<Wire>, order: Seq<NodeId>, k: int)
    requires
        eval_safe(nodes, wires, order),
        0 <= k <= order.len(),
    ensures
        eval_safe(nodes, wires, order.take(k)),
    decreases order.len(),
{
    if k < order.len() {
        assert(order.take(order.len() - 1) =~= order.drop_last());
        lemma_eval_safe_prefix(nodes, wires, order.drop_last(), k);
        assert(order.drop_last().take(k) =~= order.take(k));
    } else {
        assert(order.take(k) =~= order);
    }
}

/// A copy of `v`.
fn copy_vec<T: Copy>(v: &Vec<T>) -> (r: Vec<T>)
    ensures
        r@ == v@,
{
    let mut r: Vec<T> = Vec::new();
    let mut i: usize = 0;
    while i < v.len()
        invariant
            i <= v@.len(),
            r@ == v@.take(i as int),
        decreases v@.len() - i,
    {
        r.push(v[i]);
        i = i + 1;
        assert(r@ =~= v@.take(i as int));
    }
    assert(v@.take(v@.len() as int) =~= v@);
    r
}

impl Graph {
    /// The states of the nodes that feed `id`, one per wire into it, in wire order.
    fn input_states_of(&self, id: NodeId) -> (r: Vec<bool>)
        requires
            unique_nodes(self.nodes@),
            forall|e: int|
                0 <= e < self.wires@.len() ==> contains_node(self.nodes@, (#[trigger] self.wires@[e]).src),
        ensures
            r@ == input_states(self.nodes@, self.wires@, id),
    {
        let mut r: Vec<bool> = Vec::new();
        let mut e: usize = 0;
        while e < self.wires.len()
            invariant
                e <= self.wires@.len(),
                unique_nodes(self.nodes@),
                forall|k: int|
                    0 <= k < self.wires@.len() ==> contains_node(self.nodes@, (#[trigger] self.wires@[k]).src),
                r@ == input_states(self.nodes@, self.wires@.take(e as int), id),
            decreases self.wires@.len() - e,
        {
            assert(self.wires@.take(e + 1).drop_last() =~= self.wires@.take(e as int));
            let w = self.wires[e];
            if w.dst == id {
                assert(self.wires@[e as int] == w);
                match self.index_of(w.src) {
                    Some(i) => r.push(self.nodes[i].state),
                    None => {},
                }
            }
            e = e + 1;
        }
        assert(self.wires@.take(self.wires@.len() as int) =~= self.wires@);
        r
    }

    /// One tick: each node, in the evaluation order, takes as its state what its gate
    /// outputs for the current states of the nodes that feed it. The order must be up to
    /// date, every wire must join two nodes, and no capacitor may be asked to hold more
    /// than nine.
    pub fn evaluate(&mut self)
        requires
            old(self).wf(),
            !old(self).dirty(),
            old(self).wires_connected(),
            eval_safe(old(self).nodes_view(), old(self).wires_view(), old(self).eval_order_view()),
        ensures
            final(self).wf(),
            final(self).nodes_view() == eval_run(
                old(self).nodes_view(),
                old(self).wires_view(),
                old(self).eval_order_view(),
            ),
            final(self).wires_view() == old(self).wires_view(),
            final(self).grid_view() == old(self).grid_view(),
            final(self).names_view() == old(self).names_view(),
            final(self).eval_order_view() == old(self).eval_order_view(),
            final(self).eval_dict_view() == old(self).eval_dict_view(),
            final(self).dirty() == old(self).dirty(),
            final(self).graph_id() == old(self).graph_id(),
            final(self).next_node() == old(self).next_node(),
            final(self).next_wire() == old(self).next_wire(),
    {
        let _ = self.run(false);
    }

    /// Whether a tick can be evaluated: no capacitor would be asked to hold more than
    /// nine. The order must be up to date and every wire must join two nodes.
    pub fn can_evaluate(&self) -> (r: bool)
        requires
            self.wf(),
            !self.dirty(),
            self.wires_connected(),
        ensures
            r == eval_safe(self.nodes_view(), self.wires_view(), self.eval_order_view()),
    {
        let mut scratch = Graph {
            id: self.id,
            next_node_id: self.next_node_id,
            next_wire_id: self.next_wire_id,
            nodes: copy_vec(&self.nodes),
            wires: copy_vec(&self.wires),
            node_grid: HashMap::new(),
            named_nodes: HashMap::new(),
            eval_order: copy_vec(&self.eval_order),
            eval_order_dict: HashMap::new(),
            is_eval_order_dirty: false,
        };
        proof {
            assert forall|a: int| 0 <= a < scratch.eval_order@.len() implies contains_node(
                scratch.nodes@,
                #[trigger] scratch.eval_order@[a],
            ) by {
                assert(contains_node(self.nodes@, self.eval_order@[a]));
            }
            assert forall|a: int| 0 <= a < scratch.nodes@.len() implies scratch.eval_order@.contains(
                #[trigger] scratch.nodes@[a].id,
            ) by {
                assert(self.eval_order@.contains(self.nodes@[a].id));
            }
            assert forall|e: int| 0 <= e < scratch.wires@.len() implies scratch.has_node(
                #[trigger] scratch.wires@[e].src,
            ) && scratch.has_node(scratch.wires@[e].dst) by {
                assert(self.has_node(self.wires@[e].src));
            }
        }
        scratch.run(true)
    }

    /// Evaluates each node in turn, as [`Graph::evaluate`] does; when `check`, first
    /// looks at each step whether a capacitor would overflow, and stops there with
    /// `false`. Without `check`, the evaluation must be safe.
    fn run(&mut self, check: bool) -> (ok: bool)
        requires
            old(self).wf(),
            !old(self).dirty(),
            old(self).wires_connected(),
            !check ==> eval_safe(old(self).nodes_view(), old(self).wires_view(), old(self).eval_order_view()),
        ensures
            ok == eval_safe(old(self).nodes_view(), old(self).wires_view(), old(self).eval_order_view()),
            ok ==> final(self).nodes_view() == eval_run(
                old(self).nodes_view(),
                old(self).wires_view(),
                old(self).eval_order_view(),
            ),
            final(self).wf(),
            final(self).wires_view() == old(self).wires_view(),
            final(self).grid_view() == old(self).grid_view(),
            final(self).names_view() == old(self).names_view(),
            final(self).eval_order_view() == old(self).eval_order_view(),
            final(self).eval_dict_view() == old(self).eval_dict_view(),
            final(self).dirty() == old(self).dirty(),
            final(self).graph_id() == old(self).graph_id(),
            final(self).next_node() == old(self).next_node(),
            final(self).next_wire() == old(self).next_wire(),
    {
        let ghost start = self.nodes@;
        let ghost order = self.eval_order@;
        let len = self.eval_order.len();
        let mut k: usize = 0;
        while k < len
            invariant
                k <= len,
                len == order.len(),
                order == self.eval_order@,
                order == old(self).eval_order@,
                self.wires@ == old(self).wires@,
                self.node_grid@ == old(self).node_grid@,
                self.named_nodes@ == old(self).named_nodes@,
                self.eval_order_dict@ == old(self).eval_order_dict@,
                self.is_eval_order_dirty == old(self).is_eval_order_dirty,
                self.id == old(self).id,
                self.next_node_id == old(self).next_node_id,
                self.next_wire_id == old(self).next_wire_id,
                start == old(self).nodes@,
                old(self).wf(),
                self.wf(),
                !old(self).dirty(),
                old(self).wires_connected(),
                !check ==> eval_safe(start, self.wires@, order),
                eval_safe(start, self.wires@, order.take(k as int)),
                self.nodes@ == eval_run(start, self.wires@, order.take(k as int)),
                self.nodes@.len() == start.len(),
                forall|i: int|
                    0 <= i < start.len() ==> (#[trigger] self.nodes@[i]).id == start[i].id
                        && self.nodes@[i].position == start[i].position,
                unique_nodes(self.nodes@),
                forall|m: NodeId| contains_node(start, m) == contains_node(self.nodes@, m),
                forall|m: NodeId|
                    contains_node(start, m) ==> index_in(self.nodes@, m) == index_in(start, m),
            decreases len - k,
        {
            let ghost before = self.nodes@;
            let id = self.eval_order[k];
            proof {
                assert(order.take(k + 1).drop_last() =~= order.take(k as int));
                assert(order.take(k + 1).last() == id);
                if !check {
                    lemma_eval_safe_prefix(start, self.wires@, order, k + 1);
                }
                assert(super::is_permutation_of_nodes(order, start));
                assert(contains_node(start, order[k as int]));
                assert forall|e: int| 0 <= e < self.wires@.len() implies contains_node(
                    self.nodes@,
                    (#[trigger] self.wires@[e]).src,
                ) by {
                    assert(old(self).has_node(self.wires@[e].src));
                }
            }
            let ins = self.input_states_of(id);
            let i = match self.index_of(id) {
                Some(i) => i,
                None => 0,
            };
            let mut node = self.nodes[i];
            if check && !node.gate.takes(ins.as_slice()) {
                proof {
                    if eval_safe(start, self.wires@, order) {
                        lemma_eval_safe_prefix(start, self.wires@, order, k + 1);
                    }
                }
                return false;
            }
            let out = node.gate.evaluate(ins.as_slice());
            node.state = out;
            self.nodes.set(i, node);
            proof {
                lemma_same_ids_wf(before, self.nodes@, i as int);
                assert forall|m: NodeId| contains_node(start, m) implies index_in(self.nodes@, m)
                    == index_in(start, m) by {
                    assert(contains_node(before, m));
                }
                assert forall|i2: int| 0 <= i2 < start.len() implies (#[trigger] self.nodes@[i2]).id
                    == start[i2].id && self.nodes@[i2].position == start[i2].position by {
                    assert(before[i2].id == start[i2].id);
                }
            }
            proof {
                let s = self.nodes@;
                assert forall|i: int| 0 <= i < s.len() implies (#[trigger] s[i]).id.0
                    < self.next_node_id.0 || self.next_node_id.0 == u128::MAX by {
                    assert(s[i].id == start[i].id);
                }
                assert forall|key: i128| #[trigger]
                    self.node_grid@.contains_key(key) implies self.has_node(self.node_grid@[key])
                    && key == super::cell_key(
                    super::spec_world_to_grid(self.node_of(self.node_grid@[key]).position),
                ) by {
                    let m = self.node_grid@[key];
                    assert(contains_node(start, m));
                    let oi = index_in(start, m);
                    assert(s[oi].position == start[oi].position);
                }
                assert forall|a: int| 0 <= a < self.eval_order@.len() implies contains_node(
                    s,
                    #[trigger] self.eval_order@[a],
                ) by {
                    assert(contains_node(start, self.eval_order@[a]));
                }
                assert forall|a: int| 0 <= a < s.len() implies self.eval_order@.contains(
                    #[trigger] s[a].id,
                ) by {
                    assert(s[a].id == start[a].id);
                    assert(self.eval_order@.contains(start[a].id));
                }
            }
            k = k + 1;
        }
        proof {
            assert(order.take(len as int) =~= order);
        }
        true
    }
}

} // verus!
