//! Identifiers of graphs, nodes and wires: a prefix letter and a hexadecimal
//! number, handed out in increasing order until the largest value, which is
//! reserved as the invalid identifier.
use crate::text::{
    chars_of, digits_of, lemma_digits_roundtrip, parse_unsigned, push_digits, read_unsigned,
    string_from_chars,
};
use vstd::prelude::*;

verus! {

/// There are no identifiers left to hand out.
#[derive(Debug, Clone, Copy, PartialEq, Eq, Structural)]
pub struct OutOfIDsError;

/// The identifier of a graph.
#[derive(Debug, Clone, Copy, PartialEq, Eq, Structural, Hash)]
pub struct GraphId(pub u32);

/// The text of a graph identifier: `g` and the number in lower-case hexadecimal.
pub open spec fn graph_id_text(id: GraphId) -> Seq<char> {
    seq!['g'] + digits_of(id.0 as nat, 16)
}

/// The graph identifier that a text names: `g` followed by a number as
/// `u32::from_str_radix(_, 16)` reads it.
pub open spec fn graph_id_from_text(s: Seq<char>) -> Result<GraphId, ()> {
    if s.len() > 0 && s[0] == 'g' {
        match parse_unsigned(s.drop_first(), 16, u32::MAX as nat) {
            Some(v) => Ok(GraphId(v as u32)),
            None => Err(()),
        }
    } else {
        Err(())
    }
}

impl GraphId {
    /// The identifier that is never handed out.
    pub fn invalid() -> (r: GraphId)
        ensures
            r == GraphId(u32::MAX),
    {
        GraphId(u32::MAX)
    }

    /// The default identifier is [`Self::invalid`].
    pub fn default() -> (r: GraphId)
        ensures
            r == GraphId(u32::MAX),
    {
        GraphId(u32::MAX)
    }

    /// Returns the current value and moves `self` on to the next one; once `self` is
    /// [`Self::invalid`] it stays there and an error is returned.
    pub fn step(&mut self) -> (r: Result<GraphId, OutOfIDsError>)
        ensures
            old(self).0 == u32::MAX ==> r == Err::<GraphId, OutOfIDsError>(OutOfIDsError) && *final(self) == *old(self),
            old(self).0 != u32::MAX ==> r == Ok::<GraphId, OutOfIDsError>(*old(self)) && final(self).0 == old(self).0 + 1,
    {
        if self.0 == u32::MAX {
            Err(OutOfIDsError)
        } else {
            let id = *self;
            self.0 = self.0 + 1;
            Ok(id)
        }
    }

    /// The identifier as text, such as `g1f`.
    pub fn to_string(&self) -> (s: String)
        ensures
            s@ == graph_id_text(*self),
    {
        let mut v: Vec<char> = Vec::new();
        v.push('g');
        push_digits(&mut v, self.0 as u128, 16);
        assert(v@ =~= graph_id_text(*self));
        string_from_chars(&v)
    }

    /// Reads an identifier written as `g` and a hexadecimal number.
    pub fn from_str(s: &str) -> (r: Result<GraphId, ()>)
        ensures
            r == graph_id_from_text(s@),
    {
        let cs = chars_of(s);
        if cs.len() > 0 && cs[0] == 'g' {
            assert(cs@.subrange(1, cs@.len() as int) =~= s@.drop_first());
            match read_unsigned(&cs, 1, cs.len(), 16, u32::MAX as u128) {
                Some(v) => Ok(GraphId(v as u32)),
                None => Err(()),
            }
        } else {
            Err(())
        }
    }
}

/// The identifier of a node.
#[derive(Debug, Clone, Copy, PartialEq, Eq, Structural, Hash)]
pub struct NodeId(pub u128);

/// The text of a node identifier: `n` and the number in lower-case hexadecimal.
pub open spec fn node_id_text(id: NodeId) -> Seq<char> {
    seq!['n'] + digits_of(id.0 as nat, 16)
}

/// The node identifier that a text names: `n` followed by a number as
/// `u128::from_str_radix(_, 16)` reads it.
pub open spec fn node_id_from_text(s: Seq<char>) -> Result<NodeId, ()> {
    if s.len() > 0 && s[0] == 'n' {
        match parse_unsigned(s.drop_first(), 16, u128::MAX as nat) {
            Some(v) => Ok(NodeId(v as u128)),
            None => Err(()),
        }
    } else {
        Err(())
    }
}

impl NodeId {
    /// The identifier that is never handed out.
    pub fn invalid() -> (r: NodeId)
        ensures
            r == NodeId(u128::MAX),
    {
        NodeId(u128::MAX)
    }

    /// The default identifier is [`Self::invalid`].
    pub fn default() -> (r: NodeId)
        ensures
            r == NodeId(u128::MAX),
    {
        NodeId(u128::MAX)
    }

    /// Returns the current value and moves `self` on to the next one; once `self` is
    /// [`Self::invalid`] it stays there and `None` is returned.
    pub fn step(&mut self) -> (r: Option<NodeId>)
        ensures
            old(self).0 == u128::MAX ==> r == None::<NodeId> && *final(self) == *old(self),
            old(self).0 != u128::MAX ==> r == Some(*old(self)) && final(self).0 == old(self).0 + 1,
    {
        if self.0 == u128::MAX {
            None
        } else {
            let id = *self;
            self.0 = self.0 + 1;
            Some(id)
        }
    }

    /// The identifier as text, such as `n1f`.
    pub fn to_string(&self) -> (s: String)
        ensures
            s@ == node_id_text(*self),
    {
        let mut v: Vec<char> = Vec::new();
        v.push('n');
        push_digits(&mut v, self.0 as u128, 16);
        assert(v@ =~= node_id_text(*self));
        string_from_chars(&v)
    }

    /// Reads an identifier written as `n` and a hexadecimal number.
    pub fn from_str(s: &str) -> (r: Result<NodeId, ()>)
        ensures
            r == node_id_from_text(s@),
    {
        let cs = chars_of(s);
        if cs.len() > 0 && cs[0] == 'n' {
            assert(cs@.subrange(1, cs@.len() as int) =~= s@.drop_first());
            match read_unsigned(&cs, 1, cs.len(), 16, u128::MAX as u128) {
                Some(v) => Ok(NodeId(v as u128)),
                None => Err(()),
            }
        } else {
            Err(())
        }
    }
}

/// The identifier of a wire.
#[derive(Debug, Clone, Copy, PartialEq, Eq, Structural, Hash)]
pub struct WireId(pub u128);

/// The text of a wire identifier: `w` and the number in lower-case hexadecimal.
pub open spec fn wire_id_text(id: WireId) -> Seq<char> {
    seq!['w'] + digits_of(id.0 as nat, 16)
}

/// The wire identifier that a text names: `w` followed by a number as
/// `u128::from_str_radix(_, 16)` reads it.
pub open spec fn wire_id_from_text(s: Seq<char>) -> Result<WireId, ()> {
    if s.len() > 0 && s[0] == 'w' {
        match parse_unsigned(s.drop_first(), 16, u128::MAX as nat) {
            Some(v) => Ok(WireId(v as u128)),
            None => Err(()),
        }
    } else {
        Err(())
    }
}

impl WireId {
    /// The identifier that is never handed out.
    pub fn invalid() -> (r: WireId)
        ensures
            r == WireId(u128::MAX),
    {
        WireId(u128::MAX)
    }

    /// The default identifier is [`Self::invalid`].
    pub fn default() -> (r: WireId)
        ensures
            r == WireId(u128::MAX),
    {
        WireId(u128::MAX)
    }

    /// Returns the current value and moves `self` on to the next one; once `self` is
    /// [`Self::invalid`] it stays there and `None` is returned.
    pub fn step(&mut self) -> (r: Option<WireId>)
        ensures
            old(self).0 == u128::MAX ==> r == None::<WireId> && *final(self) == *old(self),
            old(self).0 != u128::MAX ==> r == Some(*old(self)) && final(self).0 == old(self).0 + 1,
    {
        if self.0 == u128::MAX {
            None
        } else {
            let id = *self;
            self.0 = self.0 + 1;
            Some(id)
        }
    }

    /// The identifier as text, such as `w1f`.
    pub fn to_string(&self) -> (s: String)
        ensures
            s@ == wire_id_text(*self),
    {
        let mut v: Vec<char> = Vec::new();
        v.push('w');
        push_digits(&mut v, self.0 as u128, 16);
        assert(v@ =~= wire_id_text(*self));
        string_from_chars(&v)
    }

    /// Reads an identifier written as `w` and a hexadecimal number.
    pub fn from_str(s: &str) -> (r: Result<WireId, ()>)
        ensures
            r == wire_id_from_text(s@),
    {
        let cs = chars_of(s);
        if cs.len() > 0 && cs[0] == 'w' {
            assert(cs@.subrange(1, cs@.len() as int) =~= s@.drop_first());
            match read_unsigned(&cs, 1, cs.len(), 16, u128::MAX as u128) {
                Some(v) => Ok(WireId(v as u128)),
                None => Err(()),
            }
        } else {
            Err(())
        }
    }
}

/// The digits of a number, read back in the same base with a bound no smaller than the
/// number, give the number.
proof fn lemma_reads_back(v: nat, max: nat)
    requires
        v <= max,
    ensures
        parse_unsigned(digits_of(v, 16), 16, max) == Some(v),
{
    lemma_digits_roundtrip(v, 16);
}

/// Writing a graph identifier and reading the text back gives the identifier.
pub proof fn lemma_graph_id_roundtrip(id: GraphId)
    ensures
        graph_id_from_text(graph_id_text(id)) == Ok::<GraphId, ()>(id),
{
    let s = graph_id_text(id);
    assert(s.drop_first() =~= digits_of(id.0 as nat, 16));
    lemma_reads_back(id.0 as nat, u32::MAX as nat);
}

/// Writing a node identifier and reading the text back gives the identifier.
pub proof fn lemma_node_id_roundtrip(id: NodeId)
    ensures
        node_id_from_text(node_id_text(id)) == Ok::<NodeId, ()>(id),
{
    let s = node_id_text(id);
    assert(s.drop_first() =~= digits_of(id.0 as nat, 16));
    lemma_reads_back(id.0 as nat, u128::MAX as nat);
}

/// Writing a wire identifier and reading the text back gives the identifier.
pub proof fn lemma_wire_id_roundtrip(id: WireId)
    ensures
        wire_id_from_text(wire_id_text(id)) == Ok::<WireId, ()>(id),
{
    let s = wire_id_text(id);
    assert(s.drop_first() =~= digits_of(id.0 as nat, 16));
    lemma_reads_back(id.0 as nat, u128::MAX as nat);
}

} // verus!
