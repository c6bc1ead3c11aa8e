//! The console: kinds of log message and the colours they are shown in, the lines the
//! logger writes, references to things of the editor that can be written into text and
//! read back, and the buffer of recent log text that drops its oldest lines to stay
//! within its capacity.
use crate::gate::{
    first_index_of, gate_from_text, gate_id_from_name, gate_id_name, gate_text, lemma_gate_roundtrip,
    Gate, GateId,
};
use crate::graph::Graph;
use crate::graph::template::GraphList;
use crate::graph::Node;
use crate::graph::Wire;
use crate::ids::{
    graph_id_from_text, graph_id_text, lemma_graph_id_roundtrip, lemma_node_id_roundtrip,
    lemma_wire_id_roundtrip, node_id_from_text, node_id_text, wire_id_from_text, wire_id_text,
    GraphId, NodeId, WireId,
};
use crate::ivec::IVec2;
use crate::rich_text::{color_act_text, ColorAct, ColorId, ColorRef};
use crate::term::Color;
use crate::text::{
    chars_of, digit_of, digits_of, extend_chars, find_char, lemma_digits_roundtrip, parse_signed,
    push_signed, read_signed, signed_text, string_from_chars, sub_chars, unsigned_digits,
};
use crate::tool::{lemma_tool_roundtrip, tool_from_name, tool_name, ToolId};
use vstd::prelude::*;
use vstd::string::StringSliceAdditionalSpecFns;

verus! {

/// How important a log message is.
#[derive(Debug, Clone, Copy, PartialEq, Eq, Structural, Hash)]
pub enum LogType {
    Info,
    Debug,
    Attempt,
    Success,
    /// Failed, but was optional or can resort to a default.
    Warning,
    /// Failed, the action must be cancelled.
    Error,
    /// Failed, the application cannot continue.
    Fatal,
}

/// The name of a kind of log message.
pub open spec fn log_type_name(t: LogType) -> Seq<char> {
    match t {
        LogType::Info => seq!['i', 'n', 'f', 'o'],
        LogType::Debug => seq!['d', 'e', 'b', 'u', 'g'],
        LogType::Attempt => seq!['a', 't', 't', 'e', 'm', 'p', 't'],
        LogType::Success => seq!['s', 'u', 'c', 'c', 'e', 's', 's'],
        LogType::Warning => seq!['w', 'a', 'r', 'n', 'i', 'n', 'g'],
        LogType::Error => seq!['e', 'r', 'r', 'o', 'r'],
        LogType::Fatal => seq!['f', 'a', 't', 'a', 'l'],
    }
}

/// The colour a kind of log message is shown in.
pub open spec fn log_type_color(t: LogType) -> ColorRef {
    match t {
        LogType::Info => ColorRef::Theme(ColorId::Foreground3),
        LogType::Debug => ColorRef::Exact(Color { r: 255, g: 0, b: 255, a: 255 }),
        LogType::Attempt => ColorRef::Theme(ColorId::Foreground2),
        LogType::Success => ColorRef::Theme(ColorId::Foreground1),
        LogType::Warning => ColorRef::Theme(ColorId::Caution),
        LogType::Error => ColorRef::Theme(ColorId::Error),
        LogType::Fatal => ColorRef::Theme(ColorId::Destructive),
    }
}

fn log_type_chars(t: LogType) -> (r: Vec<char>)
    ensures
        r@ == log_type_name(t),
{
    let r = match t {
        LogType::Info => vec!['i', 'n', 'f', 'o'],
        LogType::Debug => vec!['d', 'e', 'b', 'u', 'g'],
        LogType::Attempt => vec!['a', 't', 't', 'e', 'm', 'p', 't'],
        LogType::Success => vec!['s', 'u', 'c', 'c', 'e', 's', 's'],
        LogType::Warning => vec!['w', 'a', 'r', 'n', 'i', 'n', 'g'],
        LogType::Error => vec!['e', 'r', 'r', 'o', 'r'],
        LogType::Fatal => vec!['f', 'a', 't', 'a', 'l'],
    };
    assert(r@ =~= log_type_name(t));
    r
}

/// How important a message of the graphics library's own log is.
#[derive(Debug, Clone, Copy, PartialEq, Eq, Structural, Hash)]
pub enum TraceLevel {
    All,
    Trace,
    Debug,
    Info,
    Warning,
    Error,
    Fatal,
    Silent,
}

/// The kind of console message a graphics library message is logged as: tracing joins
/// the information, fatal messages count as errors, and the two levels that only bound
/// a minimum are not logged.
pub open spec fn trace_kind(level: TraceLevel) -> Option<LogType> {
    match level {
        TraceLevel::Debug => Some(LogType::Debug),
        TraceLevel::Trace | TraceLevel::Info => Some(LogType::Info),
        TraceLevel::Warning => Some(LogType::Warning),
        TraceLevel::Error | TraceLevel::Fatal => Some(LogType::Error),
        TraceLevel::Silent | TraceLevel::All => None,
    }
}

/// The kind of console message a graphics library message at `level` is logged as, if
/// it is logged at all.
pub fn trace_log_type(level: TraceLevel) -> (r: Option<LogType>)
    ensures
        r == trace_kind(level),
{
    match level {
        TraceLevel::Debug => Some(LogType::Debug),
        TraceLevel::Trace | TraceLevel::Info => Some(LogType::Info),
        TraceLevel::Warning => Some(LogType::Warning),
        TraceLevel::Error | TraceLevel::Fatal => Some(LogType::Error),
        TraceLevel::Silent | TraceLevel::All => None,
    }
}

impl LogType {
    /// The default kind is `Info`.
    pub fn default() -> (r: LogType)
        ensures
            r == LogType::Info,
    {
        LogType::Info
    }

    /// Messages of this kind are important enough to be written to the error stream as
    /// well: warnings and worse.
    pub fn echoes_to_stderr(self) -> (r: bool)
        ensures
            r == (self == LogType::Warning || self == LogType::Error || self == LogType::Fatal),
    {
        match self {
            LogType::Warning | LogType::Error | LogType::Fatal => true,
            _ => false,
        }
    }

    /// The kind's name, such as `warning`.
    pub fn to_string(self) -> (s: String)
        ensures
            s@ == log_type_name(self),
    {
        string_from_chars(&log_type_chars(self))
    }

    /// The colour messages of this kind are shown in.
    pub fn color(self) -> (r: ColorRef)
        ensures
            r == log_type_color(self),
    {
        match self {
            LogType::Info => ColorRef::Theme(ColorId::Foreground3),
            LogType::Debug => ColorRef::Exact(Color { r: 255, g: 0, b: 255, a: 255 }),
            LogType::Attempt => ColorRef::Theme(ColorId::Foreground2),
            LogType::Success => ColorRef::Theme(ColorId::Foreground1),
            LogType::Warning => ColorRef::Theme(ColorId::Caution),
            LogType::Error => ColorRef::Theme(ColorId::Error),
            LogType::Fatal => ColorRef::Theme(ColorId::Destructive),
        }
    }

    /// The kind as a colour: its colour.
    pub fn into_color_ref(self) -> (r: ColorRef)
        ensures
            r == log_type_color(self),
    {
        self.color()
    }
}

/// The line the logger writes for a message: the kind's colour pushed, `[kind]: `, the
/// message, the colour popped, and a line break.
pub open spec fn log_line_text(level: LogType, msg: Seq<char>) -> Seq<char> {
    color_act_text(ColorAct::Push(log_type_color(level))) + seq!['['] + log_type_name(level)
        + seq![']', ':', ' '] + msg + color_act_text(ColorAct::Pop) + seq!['\n']
}

/// Appends the characters of `s` to `out`.
fn push_str(out: &mut Vec<char>, s: &str)
    ensures
        final(out)@ == old(out)@ + s@,
{
    let cs = chars_of(s);
    extend_chars(out, &cs);
}

/// The line the logger writes for a message of kind `level`.
pub fn log_line(level: LogType, msg: &str) -> (r: String)
    ensures
        r@ == log_line_text(level, msg@),
{
    let mut v: Vec<char> = Vec::new();
    push_str(&mut v, ColorAct::Push(level.color()).to_string().as_str());
    v.push('[');
    extend_chars(&mut v, &log_type_chars(level));
    v.push(']');
    v.push(':');
    v.push(' ');
    push_str(&mut v, msg);
    push_str(&mut v, ColorAct::Pop.to_string().as_str());
    v.push('\n');
    assert(v@ =~= log_line_text(level, msg@));
    string_from_chars(&v)
}

/// The colour change that opens a reference in text.
pub open spec fn ref_open() -> Seq<char> {
    color_act_text(ColorAct::Push(ColorRef::Theme(ColorId::HyperRef)))
}

/// The colour change that closes a reference in text.
pub open spec fn ref_close() -> Seq<char> {
    color_act_text(ColorAct::Pop)
}

/// A reference to a gate, written `[gate]`.
#[derive(Debug, Clone, Copy, PartialEq, Eq, Structural)]
pub struct GateRef(pub Gate);

/// A reference to a tool, written `[tool]`.
#[derive(Debug, Clone, Copy, PartialEq, Eq, Structural)]
pub struct ToolRef(pub ToolId);

/// A reference to a world position, written `(x,y)`.
#[derive(Debug, Clone, Copy, PartialEq, Eq, Structural)]
pub struct PositionRef(pub IVec2);

/// A reference to a graph, written as its identifier.
#[derive(Debug, Clone, Copy, PartialEq, Eq, Structural)]
pub struct GraphRef(pub GraphId);

/// A reference to a node, written as its identifier.
#[derive(Debug, Clone, Copy, PartialEq, Eq, Structural)]
pub struct NodeRef(pub NodeId);

/// A reference to a wire, written as its identifier.
#[derive(Debug, Clone, Copy, PartialEq, Eq, Structural)]
pub struct WireRef(pub WireId);

/// Something of the editor that text can refer to.
#[derive(Debug, Clone, Copy, PartialEq, Eq, Structural)]
pub enum HyperRef {
    Gate(GateRef),
    Tool(ToolRef),
    Position(PositionRef),
    Graph(GraphRef),
    Node(NodeRef),
    Wire(WireRef),
}

/// No written reference had the form of the text.
#[derive(Debug, Clone, Copy, PartialEq, Eq, Structural)]
pub struct ParseHyperRefError;

/// The text between `open` and `close` when `s` starts with one and ends with the other.
pub open spec fn inside(s: Seq<char>, open: char, close: char) -> Option<Seq<char>> {
    if s.len() >= 2 && s[0] == open && s.last() == close {
        Some(s.subrange(1, s.len() - 1))
    } else {
        None
    }
}

/// Which gate a reference text `[gate]` names.
pub open spec fn gate_ref_from_text(s: Seq<char>) -> Result<GateRef, ()> {
    match inside(s, '[', ']') {
        Some(t) => match gate_from_text(t) {
            Ok(g) => Ok(GateRef(g)),
            Err(_) => Err(()),
        },
        None => Err(()),
    }
}

/// The tool a reference text `[tool]` names.
pub open spec fn tool_ref_from_text(s: Seq<char>) -> Result<ToolRef, ()> {
    match inside(s, '[', ']') {
        Some(t) => match tool_from_name(t) {
            Some(x) => Ok(ToolRef(x)),
            None => Err(()),
        },
        None => Err(()),
    }
}

/// The first place of `c` in `s`.
pub open spec fn first_of(s: Seq<char>, c: char) -> Option<int> {
    if exists|i: int| 0 <= i < s.len() && s[i] == c {
        Some(choose|i: int| 0 <= i < s.len() && s[i] == c && forall|j: int| 0 <= j < i ==> s[j] != c)
    } else {
        None
    }
}

/// The position a reference text `(x,y)` names: two numbers of `i32`, split at the first
/// comma.
pub open spec fn position_ref_from_text(s: Seq<char>) -> Result<PositionRef, ()> {
    match inside(s, '(', ')') {
        Some(t) => match first_of(t, ',') {
            Some(c) => match (
                parse_signed(t.subrange(0, c), i32::MIN as int, i32::MAX as int),
                parse_signed(t.subrange(c + 1, t.len() as int), i32::MIN as int, i32::MAX as int),
            ) {
                (Some(x), Some(y)) => Ok(PositionRef(IVec2 { x: x as i32, y: y as i32 })),
                _ => Err(()),
            },
            None => Err(()),
        },
        None => Err(()),
    }
}

/// What a reference text refers to: the first of a gate, a tool, a position, a graph, a
/// node and a wire that it reads as.
pub open spec fn hyper_ref_from_text(s: Seq<char>) -> Result<HyperRef, ParseHyperRefError> {
    if let Ok(r) = gate_ref_from_text(s) {
        Ok(HyperRef::Gate(r))
    } else if let Ok(r) = tool_ref_from_text(s) {
        Ok(HyperRef::Tool(r))
    } else if let Ok(r) = position_ref_from_text(s) {
        Ok(HyperRef::Position(r))
    } else if let Ok(id) = graph_id_from_text(s) {
        Ok(HyperRef::Graph(GraphRef(id)))
    } else if let Ok(id) = node_id_from_text(s) {
        Ok(HyperRef::Node(NodeRef(id)))
    } else if let Ok(id) = wire_id_from_text(s) {
        Ok(HyperRef::Wire(WireRef(id)))
    } else {
        Err(ParseHyperRefError)
    }
}

/// The text of a reference: `[gate]`, `[tool]`, `(x,y)` or an identifier.
pub open spec fn hyper_ref_body(r: HyperRef) -> Seq<char> {
    match r {
        HyperRef::Gate(GateRef(g)) => seq!['['] + gate_text(g) + seq![']'],
        HyperRef::Tool(ToolRef(t)) => seq!['['] + tool_name(t) + seq![']'],
        HyperRef::Position(PositionRef(p)) => seq!['('] + signed_text(p.x as int) + seq![',']
            + signed_text(p.y as int) + seq![')'],
        HyperRef::Graph(GraphRef(id)) => graph_id_text(id),
        HyperRef::Node(NodeRef(id)) => node_id_text(id),
        HyperRef::Wire(WireRef(id)) => wire_id_text(id),
    }
}

/// A reference as written in text, between the colour changes that mark it.
pub open spec fn hyper_ref_text(r: HyperRef) -> Seq<char> {
    ref_open() + hyper_ref_body(r) + ref_close()
}

/// A number of `i32` written in decimal reads back as that number, and its text holds
/// no comma.
proof fn lemma_signed_roundtrip(v: int)
    requires
        i32::MIN <= v <= i32::MAX,
    ensures
        parse_signed(signed_text(v), i32::MIN as int, i32::MAX as int) == Some(v),
        forall|i: int| 0 <= i < signed_text(v).len() ==> signed_text(v)[i] != ',',
{
    let m: nat = if v < 0 { (-v) as nat } else { v as nat };
    lemma_digits_roundtrip(m, 10);
    let d = digits_of(m, 10);
    assert forall|i: int| 0 <= i < d.len() implies d[i] != ',' by {
        assert(digit_of(d[i], 10) is Some);
    }
    if v < 0 {
        let t = seq!['-'] + d;
        assert(t.drop_first() =~= d);
        assert forall|i: int| 0 <= i < t.len() implies t[i] != ',' by {
            if i > 0 {
                assert(t[i] == d[i - 1]);
            }
        }
    } else {
        assert(unsigned_digits(d) == d);
    }
}

/// The first comma of `x`, a comma and `y` is the one after `x` when `x` holds none.
proof fn lemma_first_comma(x: Seq<char>, y: Seq<char>)
    requires
        forall|i: int| 0 <= i < x.len() ==> x[i] != ',',
    ensures
        first_of(x + seq![','] + y, ',') == Some(x.len() as int),
{
    let s = x + seq![','] + y;
    assert(s[x.len() as int] == ',');
    let c = choose|i: int| 0 <= i < s.len() && s[i] == ',' && forall|j: int| 0 <= j < i ==> s[j] != ',';
    assert(0 <= c < s.len() && s[c] == ',') by {
        assert(forall|j: int| 0 <= j < x.len() ==> s[j] == x[j]);
    }
    if c < x.len() {
        assert(s[c] == x[c]);
    }
    if c > x.len() {
        assert(s[x.len() as int] == ',');
    }
}

/// The name of a tool is not the text of a gate.
proof fn lemma_tool_name_is_no_gate(t: ToolId)
    ensures
        gate_from_text(tool_name(t)) is Err,
{
    let n = tool_name(t);
    reveal_with_fuel(gate_id_from_name, 1);
    assert(gate_id_name(GateId::Or).len() == 2);
    assert(gate_id_name(GateId::And).len() == 3);
    assert(gate_id_name(GateId::Nor).len() == 3);
    assert(gate_id_name(GateId::Xor).len() == 3);
    assert(gate_id_name(GateId::Resistor).len() == 8);
    assert(gate_id_name(GateId::Capacitor).len() == 9);
    assert(gate_id_name(GateId::Led).len() == 3);
    assert(gate_id_name(GateId::Delay).len() == 5);
    assert(gate_id_name(GateId::Battery).len() == 7);
    assert(n.len() == 6 || n.len() == 5 || n.len() == 4 || n.len() == 9);
    assert(n.len() == 5 ==> n[0] != gate_id_name(GateId::Delay)[0]);
    assert(n.len() == 9 ==> n[0] != gate_id_name(GateId::Capacitor)[0]);
    assert(gate_id_from_name(n) is None);
    assert(forall|i: int| 0 <= i < n.len() ==> n[i] != '.');
    assert(first_index_of(n, '.') is None);
}

/// A reference written as text reads back as the same reference, for every reference
/// but one to a delay gate, whose text carries no setting and is not read back.
pub proof fn lemma_hyper_ref_roundtrip(r: HyperRef)
    requires
        r != HyperRef::Gate(GateRef(Gate::Delay)),
    ensures
        hyper_ref_from_text(hyper_ref_body(r)) == Ok::<HyperRef, ParseHyperRefError>(r),
{
    let b = hyper_ref_body(r);
    match r {
        HyperRef::Gate(GateRef(g)) => {
            lemma_gate_roundtrip(g);
            assert(b.subrange(1, b.len() - 1) =~= gate_text(g));
        },
        HyperRef::Tool(ToolRef(t)) => {
            lemma_tool_roundtrip(t);
            lemma_tool_name_is_no_gate(t);
            assert(b.subrange(1, b.len() - 1) =~= tool_name(t));
        },
        HyperRef::Position(PositionRef(p)) => {
            let x = signed_text(p.x as int);
            let y = signed_text(p.y as int);
            lemma_signed_roundtrip(p.x as int);
            lemma_signed_roundtrip(p.y as int);
            let t = x + seq![','] + y;
            assert(b.subrange(1, b.len() - 1) =~= t);
            lemma_first_comma(x, y);
            assert(t.subrange(0, x.len() as int) =~= x);
            assert(t.subrange(x.len() as int + 1, t.len() as int) =~= y);
            assert(b[0] == '(');
        },
        HyperRef::Graph(GraphRef(id)) => {
            lemma_graph_id_roundtrip(id);
        },
        HyperRef::Node(NodeRef(id)) => {
            lemma_node_id_roundtrip(id);
        },
        HyperRef::Wire(WireRef(id)) => {
            lemma_wire_id_roundtrip(id);
        },
    }
}

/// The characters inside `cs` when it starts with `open` and ends with `close`.
fn chars_inside(cs: &Vec<char>, open: char, close: char) -> (r: Option<Vec<char>>)
    ensures
        match inside(cs@, open, close) {
            Some(t) => r is Some && r.unwrap()@ == t,
            None => r is None,
        },
{
    let n = cs.len();
    if n >= 2 && cs[0] == open && cs[n - 1] == close {
        Some(sub_chars(cs, 1, n - 1))
    } else {
        None
    }
}

impl GateRef {
    /// Reads `[gate]`.
    pub fn from_str(s: &str) -> (r: Result<GateRef, ()>)
        ensures
            r == gate_ref_from_text(s@),
    {
        let cs = chars_of(s);
        match chars_inside(&cs, '[', ']') {
            Some(t) => match Gate::from_str(string_from_chars(&t).as_str()) {
                Ok(g) => Ok(GateRef(g)),
                Err(_) => Err(()),
            },
            None => Err(()),
        }
    }
}

impl ToolRef {
    /// Reads `[tool]`.
    pub fn from_str(s: &str) -> (r: Result<ToolRef, ()>)
        ensures
            r == tool_ref_from_text(s@),
    {
        let cs = chars_of(s);
        match chars_inside(&cs, '[', ']') {
            Some(t) => match ToolId::from_str(string_from_chars(&t).as_str()) {
                Ok(x) => Ok(ToolRef(x)),
                Err(_) => Err(()),
            },
            None => Err(()),
        }
    }
}

impl PositionRef {
    /// Reads `(x,y)`.
    pub fn from_str(s: &str) -> (r: Result<PositionRef, ()>)
        ensures
            r == position_ref_from_text(s@),
    {
        let cs = chars_of(s);
        match chars_inside(&cs, '(', ')') {
            Some(t) => {
                let n = t.len();
                match find_char(&t, 0, ',') {
                    Some(c) => {
                        proof {
                            assert(first_of(t@, ',') == Some(c as int)) by {
                                let k = choose|i: int|
                                    0 <= i < t@.len() && t@[i] == ',' && forall|j: int|
                                        0 <= j < i ==> t@[j] != ',';
                                assert(t@[c as int] == ',');
                                if k < c {
                                } else if k > c {
                                    assert(t@[c as int] != ',');
                                }
                            }
                        }
                        let x = read_signed(&t, 0, c, i32::MIN as i128, i32::MAX as i128);
                        let y = read_signed(&t, c + 1, n, i32::MIN as i128, i32::MAX as i128);
                        match (x, y) {
                            (Some(x), Some(y)) => Ok(PositionRef(IVec2 { x: x as i32, y: y as i32 })),
                            _ => Err(()),
                        }
                    },
                    None => Err(()),
                }
            },
            None => Err(()),
        }
    }
}

impl GraphRef {
    /// Reads a graph identifier.
    pub fn from_str(s: &str) -> (r: Result<GraphRef, ()>)
        ensures
            r == (match graph_id_from_text(s@) {
                Ok(id) => Ok::<GraphRef, ()>(GraphRef(id)),
                Err(_) => Err(()),
            }),
    {
        match GraphId::from_str(s) {
            Ok(id) => Ok(GraphRef(id)),
            Err(_) => Err(()),
        }
    }
}

impl NodeRef {
    /// Reads a node identifier.
    pub fn from_str(s: &str) -> (r: Result<NodeRef, ()>)
        ensures
            r == (match node_id_from_text(s@) {
                Ok(id) => Ok::<NodeRef, ()>(NodeRef(id)),
                Err(_) => Err(()),
            }),
    {
        match NodeId::from_str(s) {
            Ok(id) => Ok(NodeRef(id)),
            Err(_) => Err(()),
        }
    }
}

impl WireRef {
    /// Reads a wire identifier.
    pub fn from_str(s: &str) -> (r: Result<WireRef, ()>)
        ensures
            r == (match wire_id_from_text(s@) {
                Ok(id) => Ok::<WireRef, ()>(WireRef(id)),
                Err(_) => Err(()),
            }),
    {
        match WireId::from_str(s) {
            Ok(id) => Ok(WireRef(id)),
            Err(_) => Err(()),
        }
    }
}

/// Graph `i` of `gs` is the first that holds node `id`.
pub open spec fn first_holding_node(gs: Seq<Graph>, id: NodeId, i: int) -> bool {
    &&& 0 <= i < gs.len()
    &&& gs[i].has_node(id)
    &&& forall|j: int| 0 <= j < i ==> !(#[trigger] gs[j]).has_node(id)
}

/// Graph `i` of `gs` is the first that holds wire `id`.
pub open spec fn first_holding_wire(gs: Seq<Graph>, id: WireId, i: int) -> bool {
    &&& 0 <= i < gs.len()
    &&& gs[i].has_wire(id)
    &&& forall|j: int| 0 <= j < i ==> !(#[trigger] gs[j]).has_wire(id)
}

impl GraphRef {
    /// Hands the graph referred to to `f` and gives back what `f` returns; `None` if the
    /// list holds no such graph.
    pub fn deref_with<T, F: FnOnce(&Graph) -> T>(self, graphs: &GraphList, f: F) -> (r: Option<T>)
        requires
            graphs.wf(),
            forall|g: Graph| f.requires((&g,)),
        ensures
            r is Some <==> graphs.has_graph(self.0),
            r matches Some(t) ==> exists|i: int|
                0 <= i < graphs.graphs_view().len() && graphs.graphs_view()[i].graph_id() == self.0
                    && f.ensures((&graphs.graphs_view()[i],), t),
    {
        match graphs.get(&self.0) {
            Some(g) => {
                let t = f(g);
                proof {
                    let i = graphs.graphs_view().index_of(*g);
                    assert(graphs.graphs_view()[i] == *g);
                }
                Some(t)
            },
            None => None,
        }
    }
}

impl NodeRef {
    /// Hands the first graph that holds the node referred to, and that node, to `f` and
    /// gives back what `f` returns; `None` if no graph of the list holds it.
    pub fn deref_with<T, F: FnOnce(&Graph, &Node) -> T>(self, graphs: &GraphList, f: F) -> (r:
        Option<T>)
        requires
            graphs.wf(),
            forall|g: Graph, n: Node| f.requires((&g, &n)),
        ensures
            r is None <==> forall|i: int|
                0 <= i < graphs.graphs_view().len() ==> !(#[trigger] graphs.graphs_view()[i]).has_node(
                    self.0,
                ),
            r matches Some(t) ==> exists|i: int|
                first_holding_node(graphs.graphs_view(), self.0, i) && f.ensures(
                    (&graphs.graphs_view()[i], &graphs.graphs_view()[i].node_of(self.0)),
                    t,
                ),
    {
        let gs = graphs.graphs();
        let mut i: usize = 0;
        while i < gs.len()
            invariant
                gs@ == graphs.graphs_view(),
                graphs.wf(),
                i <= gs@.len(),
                forall|j: int| 0 <= j < i ==> !(#[trigger] gs@[j]).has_node(self.0),
                forall|g: Graph, n: Node| f.requires((&g, &n)),
            decreases gs@.len() - i,
        {
            assert(gs@[i as int].wf());
            match gs[i].node(&self.0) {
                Ok(n) => {
                    let t = f(&gs[i], n);
                    assert(first_holding_node(graphs.graphs_view(), self.0, i as int));
                    return Some(t);
                },
                Err(_) => {},
            }
            i = i + 1;
        }
        None
    }
}

impl WireRef {
    /// Hands the first graph that holds the wire referred to, and that wire, to `f` and
    /// gives back what `f` returns; `None` if no graph of the list holds it.
    pub fn deref_with<T, F: FnOnce(&Graph, &Wire) -> T>(self, graphs: &GraphList, f: F) -> (r:
        Option<T>)
        requires
            graphs.wf(),
            forall|g: Graph, w: Wire| f.requires((&g, &w)),
        ensures
            r is None <==> forall|i: int|
                0 <= i < graphs.graphs_view().len() ==> !(#[trigger] graphs.graphs_view()[i]).has_wire(
                    self.0,
                ),
            r matches Some(t) ==> exists|i: int|
                first_holding_wire(graphs.graphs_view(), self.0, i) && f.ensures(
                    (&graphs.graphs_view()[i], &graphs.graphs_view()[i].wire_of(self.0)),
                    t,
                ),
    {
        let gs = graphs.graphs();
        let mut i: usize = 0;
        while i < gs.len()
            invariant
                gs@ == graphs.graphs_view(),
                graphs.wf(),
                i <= gs@.len(),
                forall|j: int| 0 <= j < i ==> !(#[trigger] gs@[j]).has_wire(self.0),
                forall|g: Graph, w: Wire| f.requires((&g, &w)),
            decreases gs@.len() - i,
        {
            assert(gs@[i as int].wf());
            match gs[i].wire(&self.0) {
                Ok(w) => {
                    let t = f(&gs[i], w);
                    assert(first_holding_wire(graphs.graphs_view(), self.0, i as int));
                    return Some(t);
                },
                Err(_) => {},
            }
            i = i + 1;
        }
        None
    }
}

impl HyperRef {
    /// Reads a reference: the first of a gate, a tool, a position, a graph, a node and a
    /// wire that the text reads as.
    pub fn from_str(s: &str) -> (r: Result<HyperRef, ParseHyperRefError>)
        ensures
            r == hyper_ref_from_text(s@),
    {
        if let Ok(r) = GateRef::from_str(s) {
            Ok(HyperRef::Gate(r))
        } else if let Ok(r) = ToolRef::from_str(s) {
            Ok(HyperRef::Tool(r))
        } else if let Ok(r) = PositionRef::from_str(s) {
            Ok(HyperRef::Position(r))
        } else if let Ok(r) = GraphRef::from_str(s) {
            Ok(HyperRef::Graph(r))
        } else if let Ok(r) = NodeRef::from_str(s) {
            Ok(HyperRef::Node(r))
        } else if let Ok(r) = WireRef::from_str(s) {
            Ok(HyperRef::Wire(r))
        } else {
            Err(ParseHyperRefError)
        }
    }

    /// The reference as written in text, marked by colour changes.
    pub fn to_string(&self) -> (s: String)
        ensures
            s@ == hyper_ref_text(*self),
    {
        let mut v: Vec<char> = Vec::new();
        push_str(&mut v, ColorAct::Push(ColorRef::Theme(ColorId::HyperRef)).to_string().as_str());
        let ghost before = v@;
        match *self {
            HyperRef::Gate(GateRef(g)) => {
                v.push('[');
                push_str(&mut v, g.to_string().as_str());
                v.push(']');
            },
            HyperRef::Tool(ToolRef(t)) => {
                v.push('[');
                push_str(&mut v, t.to_string().as_str());
                v.push(']');
            },
            HyperRef::Position(PositionRef(p)) => {
                v.push('(');
                push_signed(&mut v, p.x as i128);
                v.push(',');
                push_signed(&mut v, p.y as i128);
                v.push(')');
            },
            HyperRef::Graph(GraphRef(id)) => {
                push_str(&mut v, id.to_string().as_str());
            },
            HyperRef::Node(NodeRef(id)) => {
                push_str(&mut v, id.to_string().as_str());
            },
            HyperRef::Wire(WireRef(id)) => {
                push_str(&mut v, id.to_string().as_str());
            },
        }
        push_str(&mut v, ColorAct::Pop.to_string().as_str());
        assert(v@ =~= hyper_ref_text(*self));
        string_from_chars(&v)
    }
}

impl GraphId {
    /// A reference to this graph.
    pub fn graph_ref(&self) -> (r: GraphRef)
        ensures
            r == GraphRef(*self),
    {
        GraphRef(*self)
    }
}

impl NodeId {
    /// A reference to this node.
    pub fn node_ref(&self) -> (r: NodeRef)
        ensures
            r == NodeRef(*self),
    {
        NodeRef(*self)
    }
}

impl WireId {
    /// A reference to this wire.
    pub fn wire_ref(&self) -> (r: WireRef)
        ensures
            r == WireRef(*self),
    {
        WireRef(*self)
    }
}

impl Graph {
    /// A reference to this graph.
    pub fn graph_ref(&self) -> (r: GraphRef)
        ensures
            r == GraphRef(self.graph_id()),
    {
        GraphRef(*self.id())
    }
}

impl Node {
    /// A reference to this node.
    pub fn node_ref(&self) -> (r: NodeRef)
        ensures
            r == NodeRef(self.id),
    {
        NodeRef(self.id)
    }
}

impl Wire {
    /// A reference to this wire.
    pub fn wire_ref(&self) -> (r: WireRef)
        ensures
            r == WireRef(self.id),
    {
        WireRef(self.id)
    }
}

/// Where the line of `s` that starts at `i` ends: just after its line break, or at the
/// end of `s`.
pub open spec fn line_end(s: Seq<u8>, i: int) -> int
    decreases s.len() - i,
{
    if i < 0 || i >= s.len() {
        s.len() as int
    } else if s[i] == 10 {
        i + 1
    } else {
        line_end(s, i + 1)
    }
}

/// The byte `b` continues a character of UTF-8 text (it does not start one).
pub open spec fn is_continuation(b: u8) -> bool {
    128 <= b < 192
}

/// The first place at or after `k` where a character of `s` starts, or the end of `s`.
pub open spec fn char_start_from(s: Seq<u8>, k: int) -> int
    decreases s.len() - k,
{
    if k < 0 || k >= s.len() {
        s.len() as int
    } else if !is_continuation(s[k]) {
        k
    } else {
        char_start_from(s, k + 1)
    }
}

/// The first line break of `s`.
pub open spec fn first_break(s: Seq<u8>) -> Option<int> {
    if exists|i: int| 0 <= i < s.len() && s[i] == 10 {
        Some(choose|i: int| 0 <= i < s.len() && s[i] == 10 && forall|j: int| 0 <= j < i ==> s[j] != 10)
    } else {
        None
    }
}

/// `content` with its oldest lines dropped until `n` more bytes fit within `cap`; when
/// no complete line is left to drop, it is emptied.
pub open spec fn make_room(content: Seq<u8>, n: int, cap: int) -> Seq<u8>
    decreases content.len(),
{
    if content.len() + n > cap {
        match first_break(content) {
            Some(p) => if 0 <= p < content.len() {
                make_room(content.skip(p + 1), n, cap)
            } else {
                Seq::empty()
            },
            None => Seq::empty(),
        }
    } else {
        content
    }
}

/// The buffer after one line is added: a line longer than the whole buffer replaces it,
/// cut to its last `cap` bytes (moved on to where a character starts); any other line
/// goes after as much of the old content as leaves room for it.
pub open spec fn add_line(content: Seq<u8>, line: Seq<u8>, cap: int) -> Seq<u8> {
    if line.len() > cap {
        line.skip(char_start_from(line, line.len() - cap))
    } else {
        make_room(content, line.len() as int, cap) + line
    }
}

/// The buffer after the lines of `text` from `i` on are added one by one.
pub open spec fn add_lines(content: Seq<u8>, text: Seq<u8>, i: int, cap: int) -> Seq<u8>
    decreases text.len() - i,
{
    if i < 0 || i >= text.len() {
        content
    } else {
        let e = line_end(text, i);
        if i < e <= text.len() {
            add_lines(add_line(content, text.subrange(i, e), cap), text, e, cap)
        } else {
            content
        }
    }
}

/// Making room drops a run of whole lines from the front (or everything, when no line
/// break is left to cut at) and leaves room for `n` more bytes.
proof fn lemma_make_room(content: Seq<u8>, n: int, cap: int)
    requires
        0 <= n <= cap,
    ensures
        exists|k: int|
            0 <= k <= content.len() && (k == 0 || k == content.len() || content[k - 1] == 10)
                && make_room(content, n, cap) == content.skip(k),
        content.len() + n <= cap ==> make_room(content, n, cap) == content,
        make_room(content, n, cap).len() + n <= cap,
    decreases content.len(),
{
    if content.len() + n > cap {
        match first_break(content) {
            Some(p) => {
                if 0 <= p < content.len() {
                    let rest = content.skip(p + 1);
                    let i = choose|i: int| 0 <= i < content.len() && content[i] == 10;
                    let m = lemma_min_break(content, i);
                    assert(content[p] == 10);
                    lemma_make_room(rest, n, cap);
                    let k2 = choose|k: int|
                        0 <= k <= rest.len() && (k == 0 || k == rest.len() || rest[k - 1] == 10)
                            && make_room(rest, n, cap) == rest.skip(k);
                    let k = p + 1 + k2;
                    assert(content.skip(k) =~= rest.skip(k2));
                    if k2 > 0 && k2 < rest.len() {
                        assert(rest[k2 - 1] == content[k - 1]);
                    }
                } else {
                    assert(content.skip(content.len() as int) =~= Seq::<u8>::empty());
                }
            },
            None => {
                assert(content.skip(content.len() as int) =~= Seq::<u8>::empty());
            },
        }
    } else {
        assert(content.skip(0) =~= content);
    }
}

/// A line break at `i` means there is a first one, at `m`.
proof fn lemma_min_break(s: Seq<u8>, i: int) -> (m: int)
    requires
        0 <= i < s.len(),
        s[i] == 10,
    ensures
        0 <= m <= i,
        s[m] == 10,
        forall|j: int| 0 <= j < m ==> s[j] != 10,
    decreases i,
{
    if exists|j: int| 0 <= j < i && s[j] == 10 {
        let j = choose|j: int| 0 <= j < i && s[j] == 10;
        lemma_min_break(s, j)
    } else {
        i
    }
}

/// Where a character starts at or after `k` lies between `k` and the end.
proof fn lemma_char_start_from(s: Seq<u8>, k: int)
    requires
        0 <= k <= s.len(),
    ensures
        k <= char_start_from(s, k) <= s.len(),
    decreases s.len() - k,
{
    if k < s.len() && is_continuation(s[k]) {
        lemma_char_start_from(s, k + 1);
    }
}

/// Adding a line that fits keeps it whole, after the old content with only whole lines
/// dropped from its front (the oldest first; all of it when no line break is left), and
/// stays within the capacity; a line longer than the capacity replaces the content with
/// its own end, no longer than the capacity.
pub proof fn lemma_add_line_drops_whole_lines(content: Seq<u8>, line: Seq<u8>, cap: int)
    requires
        0 <= cap,
    ensures
        line.len() <= cap ==> exists|k: int|
            0 <= k <= content.len() && (k == 0 || k == content.len() || content[k - 1] == 10)
                && add_line(content, line, cap) == content.skip(k) + line,
        line.len() <= cap ==> add_line(content, line, cap).len() <= cap,
        line.len() <= cap && content.len() + line.len() <= cap ==> add_line(content, line, cap)
            == content + line,
        line.len() > cap ==> exists|j: int|
            line.len() - cap <= j <= line.len() && add_line(content, line, cap) == line.skip(j),
{
    if line.len() <= cap {
        lemma_make_room(content, line.len() as int, cap);
    } else {
        let j = char_start_from(line, line.len() - cap);
        lemma_char_start_from(line, line.len() - cap);
        assert(add_line(content, line, cap) == line.skip(j));
    }
}

/// Making room in old lines followed by newer text drops only old lines, and never the
/// newer text, when the newer text and the new bytes fit.
#[verifier::spinoff_prover]
#[verifier::rlimit(60)]
proof fn lemma_make_room_keeps(o: Seq<u8>, t: Seq<u8>, n: int, cap: int)
    requires
        0 <= n,
        t.len() + n <= cap,
        o.len() == 0 || o.last() == 10,
    ensures
        exists|k: int|
            0 <= k <= o.len() && (k == 0 || o[k - 1] == 10) && make_room(o + t, n, cap) == o.skip(k) + t,
    decreases o.len(),
{
    let c = o + t;
    if c.len() + n > cap {
        assert(o.len() > 0);
        assert(c[o.len() - 1] == 10);
        let m = lemma_min_break(c, o.len() - 1);
        let p = first_break(c)->0;
        assert(first_break(c) == Some(p));
        assert(c[p] == 10 && forall|j: int| 0 <= j < p ==> c[j] != 10) by {
            assert(exists|i: int| 0 <= i < c.len() && c[i] == 10);
        }
        assert(p <= o.len() - 1) by {
            if p > o.len() - 1 {
                assert(c[o.len() - 1] != 10);
            }
        }
        let o2 = o.skip(p + 1);
        assert(c.skip(p + 1) =~= o2 + t);
        assert(o2.len() == 0 || o2.last() == 10);
        lemma_make_room_keeps(o2, t, n, cap);
        let k2 = choose|k: int|
            0 <= k <= o2.len() && (k == 0 || o2[k - 1] == 10) && make_room(o2 + t, n, cap) == o2.skip(k) + t;
        assert(o2.skip(k2) =~= o.skip(p + 1 + k2));
        if k2 > 0 {
            assert(o2[k2 - 1] == o[p + 1 + k2 - 1]);
        }
    } else {
        assert(o.skip(0) =~= o);
    }
}

/// Adding the lines of `text` from `i` on keeps what `lemma_push_law` says.
#[verifier::spinoff_prover]
#[verifier::rlimit(60)]
proof fn lemma_add_lines_law(c: Seq<u8>, text: Seq<u8>, i: int, cap: int)
    requires
        0 <= cap,
        c.len() <= cap,
        0 <= i <= text.len(),
    ensures
        add_lines(c, text, i, cap).len() <= cap,
        exists|k: int|
            0 <= k <= c.len() + text.len() - i && add_lines(c, text, i, cap) == (c + text.skip(i)).skip(k),
        c.len() + text.len() - i <= cap ==> add_lines(c, text, i, cap) == c + text.skip(i),
    decreases text.len() - i,
{
    if i < text.len() {
        lemma_line_end(text, i);
        let e = line_end(text, i);
        let line = text.subrange(i, e);
        let c2 = add_line(c, line, cap);
        lemma_add_line_drops_whole_lines(c, line, cap);
        lemma_add_lines_law(c2, text, e, cap);
        assert(line + text.skip(e) =~= text.skip(i));
        let k2 = choose|k: int|
            0 <= k <= c2.len() + text.len() - e && add_lines(c2, text, e, cap) == (c2 + text.skip(e)).skip(k);
        if line.len() <= cap {
            let k1 = choose|k: int|
                0 <= k <= c.len() && (k == 0 || k == c.len() || c[k - 1] == 10) && c2 == c.skip(k) + line;
            assert(c2 + text.skip(e) =~= (c + text.skip(i)).skip(k1));
            assert((c + text.skip(i)).skip(k1).skip(k2) =~= (c + text.skip(i)).skip(k1 + k2));
        } else {
            let j = choose|j: int| line.len() - cap <= j <= line.len() && c2 == line.skip(j);
            assert(c2 + text.skip(e) =~= (c + text.skip(i)).skip(c.len() + j));
            assert((c + text.skip(i)).skip(c.len() + j).skip(k2) =~= (c + text.skip(i)).skip(c.len() + j + k2));
        }
        if c.len() + text.len() - i <= cap {
            assert(c2 == c + line);
            assert(c + line + text.skip(e) =~= c + text.skip(i));
        }
    } else {
        assert((c + text.skip(i)).skip(0) =~= c);
        assert(c + text.skip(i) =~= c);
    }
}

/// Adding lines after old lines, with the whole text fitting in the buffer, drops only
/// old lines: the buffer ends with all of the text added so far.
#[verifier::spinoff_prover]
#[verifier::rlimit(60)]
proof fn lemma_add_lines_whole(o: Seq<u8>, text: Seq<u8>, i: int, cap: int)
    requires
        0 <= cap,
        0 <= i <= text.len(),
        text.len() <= cap,
        o.len() + i <= cap,
        o.len() == 0 || o.last() == 10,
    ensures
        exists|k: int|
            0 <= k <= o.len() && (k == 0 || o[k - 1] == 10) && add_lines(o + text.subrange(0, i), text, i, cap)
                == o.skip(k) + text,
    decreases text.len() - i,
{
    let c = o + text.subrange(0, i);
    if i < text.len() {
        lemma_line_end(text, i);
        let e = line_end(text, i);
        let line = text.subrange(i, e);
        let tp = text.subrange(0, i);
        lemma_make_room_keeps(o, tp, line.len() as int, cap);
        let k1 = choose|k: int|
            0 <= k <= o.len() && (k == 0 || o[k - 1] == 10) && make_room(c, line.len() as int, cap) == o.skip(k)
                + text.subrange(0, i);
        let o2 = o.skip(k1);
        let c2 = o2 + text.subrange(0, e);
        assert(add_line(c, line, cap) == c2) by {
            assert(line.len() <= cap);
            assert(o2 + tp + line =~= c2);
        }
        assert(add_lines(c, text, i, cap) == add_lines(c2, text, e, cap));
        assert(o2.len() == 0 || o2.last() == 10) by {
            if o2.len() > 0 {
                assert(o2.last() == o.last());
            }
        }
        assert(o2.len() + e <= cap) by {
            lemma_make_room(c, line.len() as int, cap);
        }
        lemma_add_lines_whole(o2, text, e, cap);
        let k2 = choose|k: int|
            0 <= k <= o2.len() && (k == 0 || o2[k - 1] == 10) && add_lines(o2 + text.subrange(0, e), text, e, cap)
                == o2.skip(k) + text;
        assert(o2.skip(k2) =~= o.skip(k1 + k2));
        if k2 > 0 {
            assert(o2[k2 - 1] == o[k1 + k2 - 1]);
        }
    } else {
        assert(text.subrange(0, i) =~= text);
        assert(o.skip(0) =~= o);
    }
}

/// Pushing `text` onto the contents `content` of a buffer holding at most `cap` bytes
/// keeps it within the capacity and leaves an end of the old contents followed by the
/// text; empty text changes nothing; text that fits after the old contents is appended
/// whole; and when the old contents are empty or end with a line break and the text fits
/// in the buffer, the buffer ends with the whole text after an end of the old contents
/// that starts a line: only whole old lines were dropped.
pub proof fn lemma_push_law(content: Seq<u8>, text: Seq<u8>, cap: int)
    requires
        0 <= cap,
        content.len() <= cap,
    ensures
        add_lines(content, text, 0, cap).len() <= cap,
        exists|k: int|
            0 <= k <= content.len() + text.len() && add_lines(content, text, 0, cap) == (content + text).skip(k),
        text.len() == 0 ==> add_lines(content, text, 0, cap) == content,
        content.len() + text.len() <= cap ==> add_lines(content, text, 0, cap) == content + text,
        (content.len() == 0 || content.last() == 10) && text.len() <= cap ==> exists|k: int|
            0 <= k <= content.len() && (k == 0 || k == content.len() || content[k - 1] == 10)
                && add_lines(content, text, 0, cap) == content.skip(k) + text,
{
    lemma_add_lines_law(content, text, 0, cap);
    assert(text.skip(0) =~= text);
    if (content.len() == 0 || content.last() == 10) && text.len() <= cap {
        assert(content + text.subrange(0, 0) =~= content);
        lemma_add_lines_whole(content, text, 0, cap);
    }
}

/// Line ends lie after where the line starts, within the text.
proof fn lemma_line_end(s: Seq<u8>, i: int)
    requires
        0 <= i < s.len(),
    ensures
        i < line_end(s, i) <= s.len(),
    decreases s.len() - i,
{
    if s[i] != 10 {
        if i + 1 < s.len() {
            lemma_line_end(s, i + 1);
        } else {
            assert(line_end(s, i + 1) == s.len());
        }
    }
}

/// The recent text of a log, at most `capacity` bytes of it.
#[derive(Debug)]
pub struct LogBuffer {
    content: Vec<u8>,
    capacity: usize,
}

impl LogBuffer {
    /// The bytes held.
    pub closed spec fn contents(&self) -> Seq<u8> {
        self.content@
    }

    /// The most bytes the buffer holds.
    pub closed spec fn cap(&self) -> nat {
        self.capacity as nat
    }

    /// The buffer holds no more than its capacity.
    pub open spec fn wf(&self) -> bool {
        self.contents().len() <= self.cap()
    }

    /// An empty buffer that holds at most `capacity` bytes.
    pub fn with_capacity(capacity: usize) -> (r: LogBuffer)
        ensures
            r.wf(),
            r.contents() == Seq::<u8>::empty(),
            r.cap() == capacity,
    {
        LogBuffer { content: Vec::new(), capacity }
    }

    /// The bytes held.
    pub fn content_bytes(&self) -> (r: &[u8])
        ensures
            r@ == self.contents(),
    {
        self.content.as_slice()
    }

    /// The most bytes the buffer holds.
    pub fn capacity(&self) -> (r: usize)
        ensures
            r == self.cap(),
    {
        self.capacity
    }

    /// The byte ranges of the lines shown when `displayable` lines fit and the view is
    /// scrolled up by `offset` lines from the bottom.
    pub fn visible_lines(&self, offset: usize, displayable: usize) -> (r: Vec<(usize, usize)>)
        ensures
            ({
                let all = line_ranges(self.contents(), 0);
                let first = first_visible(all.len() as int, offset as int, displayable as int);
                let last = if first + displayable < all.len() {
                    first + displayable
                } else {
                    all.len() as int
                };
                spans_are(r@, all.subrange(first, last))
            }),
    {
        let s = self.content.as_slice();
        let n = s.len();
        let ghost all = line_ranges(s@, 0);
        // Count the lines.
        let mut count: usize = 0;
        let mut i: usize = 0;
        while i < n
            invariant
                n == s@.len(),
                i <= n,
                count + line_ranges(s@, i as int).len() == all.len(),
                count <= i,
            decreases n - i,
        {
            proof {
                lemma_line_end(s@, i as int);
            }
            let e = Self::end_of_line(s, i);
            count = count + 1;
            i = e;
        }
        let first = first_visible_line(count, offset, displayable);
        let mut r: Vec<(usize, usize)> = Vec::new();
        let mut k: usize = 0;
        let mut i: usize = 0;
        let ghost mut seen: Seq<(int, int)> = Seq::empty();
        while i < n
            invariant
                n == s@.len(),
                i <= n,
                k == seen.len(),
                k <= i,
                count == all.len(),
                seen + line_ranges(s@, i as int) == all,
                first <= count,
                spans_are(
                    r@,
                    seen.subrange(
                        if first < k { first as int } else { k as int },
                        if first + displayable < k { first + displayable } else { k as int },
                    ),
                ),
            decreases n - i,
        {
            proof {
                lemma_line_end(s@, i as int);
            }
            let e = Self::end_of_line(s, i);
            if first <= k && k - first < displayable {
                r.push((i, e));
            }
            proof {
                let old_seen = seen;
                seen = seen.push((i as int, e as int));
                assert(seen + line_ranges(s@, e as int) =~= old_seen + line_ranges(s@, i as int));
            }
            k = k + 1;
            i = e;
            proof {
                let lo = if first < k { first as int } else { k as int };
                let hi = if first + displayable < k { first + displayable } else { k as int };
                assert forall|j: int| 0 <= j < r@.len() implies (#[trigger] r@[j]).0 == seen.subrange(
                    lo,
                    hi,
                )[j].0 && r@[j].1 == seen.subrange(lo, hi)[j].1 by {}
            }
        }
        assert(line_ranges(s@, n as int) =~= Seq::<(int, int)>::empty());
        assert(seen =~= all);
        r
    }

    /// Where the line of `s` that starts at `i` ends.
    fn end_of_line(s: &[u8], i: usize) -> (e: usize)
        requires
            i < s@.len(),
        ensures
            e == line_end(s@, i as int),
            i < e <= s@.len(),
    {
        proof {
            lemma_line_end(s@, i as int);
        }
        let n = s.len();
        let mut e = i;
        while e < n && s[e] != 10
            invariant
                i <= e <= n == s@.len(),
                line_end(s@, e as int) == line_end(s@, i as int),
            decreases n - e,
        {
            e = e + 1;
        }
        if e < n {
            e = e + 1;
        }
        e
    }

    /// Adds `text` line by line (each line with its line break): the oldest lines are
    /// dropped as needed to stay within the capacity, and a line longer than the whole
    /// buffer keeps only its end.
    pub fn push(&mut self, text: &str)
        requires
            old(self).wf(),
        ensures
            final(self).wf(),
            final(self).cap() == old(self).cap(),
            final(self).contents() == add_lines(old(self).contents(), text.spec_bytes(), 0, old(self).cap() as int),
    {
        let bytes = text.as_bytes();
        let n = bytes.len();
        let cap = self.capacity;
        let mut i: usize = 0;
        while i < n
            invariant
                i <= n == bytes@.len(),
                cap == self.capacity,
                self.content@.len() <= cap,
                add_lines(self.content@, bytes@, i as int, cap as int) == add_lines(
                    old(self).content@,
                    bytes@,
                    0,
                    cap as int,
                ),
            decreases n - i,
        {
            proof {
                lemma_line_end(bytes@, i as int);
            }
            let mut e = i;
            while e < n && bytes[e] != 10
                invariant
                    i <= e <= n == bytes@.len(),
                    line_end(bytes@, e as int) == line_end(bytes@, i as int),
                decreases n - e,
            {
                e = e + 1;
            }
            if e < n {
                e = e + 1;
            }
            assert(e == line_end(bytes@, i as int));
            self.add_line(bytes, i, e);
            i = e;
        }
    }

    /// Adds the line `bytes[start..end]`.
    fn add_line(&mut self, bytes: &[u8], start: usize, end: usize)
        requires
            old(self).content@.len() <= old(self).capacity,
            start <= end <= bytes@.len(),
        ensures
            final(self).content@ == add_line(
                old(self).content@,
                bytes@.subrange(start as int, end as int),
                old(self).capacity as int,
            ),
            final(self).content@.len() <= final(self).capacity,
            final(self).capacity == old(self).capacity,
    {
        let ghost line = bytes@.subrange(start as int, end as int);
        let len = end - start;
        let cap = self.capacity;
        if len > cap {
            let mut k = end - cap;
            while k < end && bytes[k] >= 128 && bytes[k] < 192
                invariant
                    end - cap <= k <= end <= bytes@.len(),
                    start < end - cap,
                    line == bytes@.subrange(start as int, end as int),
                    char_start_from(line, k - start) == char_start_from(line, (end - cap) - start),
                decreases end - k,
            {
                k = k + 1;
            }
            let mut v: Vec<u8> = Vec::new();
            let mut m = k;
            while m < end
                invariant
                    k <= m <= end <= bytes@.len(),
                    v@ == bytes@.subrange(k as int, m as int),
                decreases end - m,
            {
                v.push(bytes[m]);
                m = m + 1;
                assert(v@ =~= bytes@.subrange(k as int, m as int));
            }
            assert(char_start_from(line, k - start) == k - start);
            assert(line.skip(k - start) =~= bytes@.subrange(k as int, end as int));
            self.content = v;
        } else {
            loop
                invariant
                    len <= cap == self.capacity,
                    self.content@.len() <= cap,
                    make_room(self.content@, len as int, cap as int) == make_room(
                        old(self).content@,
                        len as int,
                        cap as int,
                    ),
                ensures
                    make_room(self.content@, len as int, cap as int) == self.content@,
                    self.content@.len() + len <= cap,
                    cap == self.capacity,
                decreases self.content@.len(),
            {
                if self.content.len() <= cap - len {
                    break ;
                }
                let mut p: usize = 0;
                while p < self.content.len() && self.content[p] != 10
                    invariant
                        p <= self.content@.len(),
                        forall|j: int| 0 <= j < p ==> self.content@[j] != 10,
                    decreases self.content@.len() - p,
                {
                    p = p + 1;
                }
                if p < self.content.len() {
                    proof {
                        assert(first_break(self.content@) == Some(p as int)) by {
                            let c = choose|i: int|
                                0 <= i < self.content@.len() && self.content@[i] == 10 && forall|j: int|
                                    0 <= j < i ==> self.content@[j] != 10;
                            if c < p {
                            } else if c > p {
                                assert(self.content@[p as int] != 10);
                            }
                        }
                    }
                    let mut rest: Vec<u8> = Vec::new();
                    let mut q = p + 1;
                    while q < self.content.len()
                        invariant
                            p + 1 <= q <= self.content@.len(),
                            rest@ == self.content@.subrange(p + 1, q as int),
                        decreases self.content@.len() - q,
                    {
                        rest.push(self.content[q]);
                        q = q + 1;
                        assert(rest@ =~= self.content@.subrange(p + 1, q as int));
                    }
                    assert(self.content@.skip(p + 1) =~= rest@);
                    self.content = rest;
                } else {
                    self.content = Vec::new();
                    assert(make_room(Seq::<u8>::empty(), len as int, cap as int) =~= Seq::<u8>::empty());
                }
            }
            let mut m = start;
            while m < end
                invariant
                    start <= m <= end <= bytes@.len(),
                    self.content@ == make_room(old(self).content@, len as int, cap as int)
                        + bytes@.subrange(start as int, m as int),
                    cap == self.capacity,
                decreases end - m,
            {
                self.content.push(bytes[m]);
                m = m + 1;
                assert(self.content@ =~= make_room(old(self).content@, len as int, cap as int)
                    + bytes@.subrange(start as int, m as int));
            }
        }
    }
}

/// The lines of `s` from `i` on, each as the range from its start to just after its
/// line break (the last line may lack one).
pub open spec fn line_ranges(s: Seq<u8>, i: int) -> Seq<(int, int)>
    decreases s.len() - i,
{
    if i < 0 || i >= s.len() {
        Seq::empty()
    } else {
        let e = line_end(s, i);
        if i < e <= s.len() {
            seq![(i, e)] + line_ranges(s, e)
        } else {
            Seq::empty()
        }
    }
}

/// The spans `r` stand for the ranges `t`.
pub open spec fn spans_are(r: Seq<(usize, usize)>, t: Seq<(int, int)>) -> bool {
    &&& r.len() == t.len()
    &&& forall|k: int| 0 <= k < r.len() ==> (#[trigger] r[k]).0 == t[k].0 && r[k].1 == t[k].1
}

/// The number of the first line shown out of `line_count` lines, when `displayable` fit
/// and the view is scrolled up by `offset` lines from the bottom.
pub open spec fn first_visible(line_count: int, offset: int, displayable: int) -> int {
    if line_count - offset - displayable > 0 {
        line_count - offset - displayable
    } else {
        0
    }
}

/// The first line shown when `displayable` lines fit and the view is scrolled up by
/// `offset` lines from the bottom of `line_count` lines (never before the first line).
pub fn first_visible_line(line_count: usize, offset: usize, displayable: usize) -> (r: usize)
    ensures
        r == first_visible(line_count as int, offset as int, displayable as int),
{
    line_count.saturating_sub(offset).saturating_sub(displayable)
}

} // verus!
