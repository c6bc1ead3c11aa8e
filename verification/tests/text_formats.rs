use gate_graph::console::{
    first_visible_line, log_line, GateRef, GraphRef, HyperRef, LogType, NodeRef, ParseHyperRefError,
    PositionRef, ToolRef, WireRef,
};
use gate_graph::gate::{Gate, GateId, Ntd, NtdRangeError, SaturatingNtd};
use gate_graph::ids::{GraphId, NodeId, OutOfIDsError, WireId};
use gate_graph::ivec::IVec2;
use gate_graph::rich_text::{ColorAct, ColorId, ColorRef, RichStrError, RichStrIter};
use gate_graph::term::Color;
use gate_graph::tool::ToolId;
use gate_graph::icons::ButtonIconId;
use gate_graph::properties::{gate_data, tool_data};
use gate_graph::console::{trace_log_type, LogBuffer, TraceLevel};

#[test]
fn identifiers_as_text() {
    assert_eq!(GraphId(0x1f).to_string(), "g1f");
    assert_eq!(NodeId(255).to_string(), "nff");
    assert_eq!(WireId(0).to_string(), "w0");
    assert_eq!(GraphId::from_str("g1f"), Ok(GraphId(0x1f)));
    assert_eq!(NodeId::from_str("nFF"), Ok(NodeId(255)));
    assert_eq!(WireId::from_str("w+a"), Ok(WireId(10)));
    assert_eq!(NodeId::from_str("w1"), Err(()));
    assert_eq!(NodeId::from_str("n"), Err(()));
    assert_eq!(GraphId::from_str("g100000000"), Err(()));
    for v in [0u128, 1, 15, 16, 4096, u128::MAX] {
        assert_eq!(NodeId::from_str(&NodeId(v).to_string()), Ok(NodeId(v)));
        assert_eq!(WireId::from_str(&WireId(v).to_string()), Ok(WireId(v)));
    }
}

#[test]
fn identifiers_step() {
    let mut g = GraphId(4);
    assert_eq!(g.step(), Ok(GraphId(4)));
    assert_eq!(g, GraphId(5));
    let mut last = GraphId::invalid();
    assert_eq!(last.step(), Err(OutOfIDsError));
    assert_eq!(last, GraphId::invalid());
    let mut n = NodeId::invalid();
    assert_eq!(n.step(), None);
    let mut w = WireId(0);
    assert_eq!(w.step(), Some(WireId(0)));
    assert_eq!(w, WireId(1));
    assert_eq!(NodeId::default(), NodeId(u128::MAX));
}

#[test]
fn gates_as_text() {
    assert_eq!(Gate::Resistor { resistance: Ntd::Seven }.to_string(), "resistor.7");
    assert_eq!(Gate::Or.to_string(), "or");
    assert_eq!(Gate::from_str("capacitor.3"), Ok(Gate::Capacitor { capacity: Ntd::Three }));
    assert_eq!(Gate::from_str("led.9"), Ok(Gate::Led { color: Ntd::Nine }));
    assert_eq!(Gate::from_str("delay.4"), Ok(Gate::Delay));
    // the delay is written without a setting, which does not read back
    assert_eq!(Gate::from_str("delay"), Err(()));
    assert_eq!(Gate::from_str("or.1"), Err(()));
    assert_eq!(Gate::from_str("led.10"), Err(()));
    assert_eq!(GateId::from_str("battery"), Ok(GateId::Battery));
    assert_eq!(GateId::Capacitor.to_gate(Ntd::One), Gate::Capacitor { capacity: Ntd::One });
    assert_eq!(Gate::Led { color: Ntd::Two }.with_ntd(Ntd::Five), Gate::Led { color: Ntd::Five });
    assert_eq!(Gate::Xor.with_ntd(Ntd::Five), Gate::Xor);
    assert_eq!(Gate::Resistor { resistance: Ntd::One }.ntd(), Some(Ntd::One));
    assert_eq!(Gate::Battery.id(), GateId::Battery);
}

#[test]
fn digits() {
    assert_eq!(Ntd::try_from_u8(9), Ok(Ntd::Nine));
    assert_eq!(Ntd::try_from_u8(10), Err(NtdRangeError));
    assert_eq!(Ntd::Four.add(Ntd::Five), Ntd::Nine);
    assert_eq!(Ntd::Two.saturating_sub(Ntd::Five), Ntd::Zero);
    assert_eq!(Ntd::from_bool(true), Ntd::One);
    assert_eq!(Ntd::from_str("7"), Ok(Ntd::Seven));
    assert_eq!(Ntd::from_str("77"), Err(()));
    assert_eq!(
        SaturatingNtd::sum(&[SaturatingNtd(Ntd::Six), SaturatingNtd(Ntd::Five), SaturatingNtd(Ntd::One)]),
        SaturatingNtd(Ntd::Nine)
    );
}

#[test]
fn tools_as_text() {
    assert_eq!(ToolId::Interact.to_string(), "ineteract");
    assert_eq!(ToolId::from_str("ineteract"), Ok(ToolId::Interact));
    assert_eq!(ToolId::from_str("interact"), Err(()));
    assert_eq!(ToolId::from_str("erase"), Ok(ToolId::Erase));
}

#[test]
fn colors_as_text() {
    assert_eq!(ColorId::HyperRef.to_string(), "hyper_ref");
    assert_eq!(ColorId::from_str("resistance7"), Ok(ColorId::Resistance7));
    let exact = ColorRef::Exact(Color { r: 1, g: 20, b: 255, a: 0 });
    assert_eq!(exact.to_string(), "rgba(1,20,255,0)");
    assert_eq!(ColorRef::from_str("rgba(1,20,255,0)"), Ok(exact));
    assert_eq!(ColorRef::from_str("rgba(1,20,256,0)"), Err(RichStrError::InvalidEscapeCode));
    assert_eq!(ColorRef::from_str("rgba(1,20,3)"), Err(RichStrError::InvalidEscapeCode));
    assert_eq!(ColorRef::from_str("caution"), Ok(ColorRef::Theme(ColorId::Caution)));
    assert_eq!(ColorAct::Pop.to_string(), "\x1B{pop}");
    assert_eq!(ColorAct::Push(ColorRef::Theme(ColorId::Error)).to_string(), "\x1B{push:error}");
    assert_eq!(ColorAct::from_str("push:error"), Ok(ColorAct::Push(ColorRef::Theme(ColorId::Error))));
    assert_eq!(ColorAct::from_str("input"), Ok(ColorAct::Repl(ColorRef::Theme(ColorId::Input))));
    assert_eq!(ColorAct::from_str("pop"), Ok(ColorAct::Pop));
}

#[test]
fn rich_text_pieces() {
    let mut it = RichStrIter::new("a\x1B{push:error}b\x1B{input}c\x1B{pop}d\x1B{nope}e\x1B{");
    assert_eq!(it.next(), Some(Ok((None, String::from("a")))));
    assert_eq!(it.next(), Some(Ok((Some(ColorRef::Theme(ColorId::Error)), String::from("b")))));
    assert_eq!(it.next(), Some(Ok((Some(ColorRef::Theme(ColorId::Input)), String::from("c")))));
    assert_eq!(it.next(), Some(Ok((None, String::from("d")))));
    assert_eq!(it.next(), Some(Err(RichStrError::InvalidEscapeCode)));
    assert_eq!(it.next(), Some(Err(RichStrError::InvalidEscapeCode)));
    assert_eq!(it.next(), None);
}

#[test]
fn references_as_text() {
    assert_eq!(HyperRef::from_str("[or]"), Ok(HyperRef::Gate(GateRef(Gate::Or))));
    assert_eq!(HyperRef::from_str("[edit]"), Ok(HyperRef::Tool(ToolRef(ToolId::Edit))));
    assert_eq!(HyperRef::from_str("(-3,12)"), Ok(HyperRef::Position(PositionRef(IVec2::new(-3, 12)))));
    assert_eq!(HyperRef::from_str("g2"), Ok(HyperRef::Graph(GraphRef(GraphId(2)))));
    assert_eq!(HyperRef::from_str("n2a"), Ok(HyperRef::Node(NodeRef(NodeId(0x2a)))));
    assert_eq!(HyperRef::from_str("w0"), Ok(HyperRef::Wire(WireRef(WireId(0)))));
    assert_eq!(HyperRef::from_str("(1,2,3)"), Err(ParseHyperRefError));
    assert_eq!(HyperRef::from_str("x"), Err(ParseHyperRefError));
    assert_eq!(
        HyperRef::Gate(GateRef(Gate::Resistor { resistance: Ntd::One })).to_string(),
        "\x1B{push:hyper_ref}[resistor.1]\x1B{pop}"
    );
    assert_eq!(
        HyperRef::Position(PositionRef(IVec2::new(-1, 0))).to_string(),
        "\x1B{push:hyper_ref}(-1,0)\x1B{pop}"
    );
    assert_eq!(NodeId(3).node_ref(), NodeRef(NodeId(3)));
}

#[test]
fn log_lines() {
    assert_eq!(LogType::Warning.to_string(), "warning");
    assert_eq!(LogType::Debug.color(), ColorRef::Exact(Color { r: 255, g: 0, b: 255, a: 255 }));
    assert_eq!(log_line(LogType::Error, "oops"), "\x1B{push:error}[error]: oops\x1B{pop}\n");
    assert_eq!(first_visible_line(10, 2, 3), 5);
    assert_eq!(first_visible_line(4, 2, 3), 0);
}

#[test]
fn property_panel_texts() {
    let (icon, name, desc) = gate_data(Gate::Resistor { resistance: Ntd::Five });
    assert_eq!(icon, ButtonIconId::Resistor);
    assert_eq!(name, "Resistor");
    assert_eq!(desc, "True when the number of true inputs exceed the NTD value.");
    assert_eq!(gate_data(Gate::Battery), (ButtonIconId::Battery, "Battery", "Always true."));
    let (icon, name, _) = tool_data(ToolId::Create);
    assert_eq!((icon, name), (ButtonIconId::Pen, "Create"));
    let (icon, name, desc) = tool_data(ToolId::Interact);
    assert_eq!((icon, name), (ButtonIconId::Interact, "Interact"));
    assert!(desc.starts_with("Interact with input nodes"));
}

#[test]
fn log_buffer_visible_lines() {
    let mut b = LogBuffer::with_capacity(100);
    b.push("a\nbb\nccc\nd");
    assert_eq!(b.visible_lines(0, 2), vec![(5, 9), (9, 10)]);
    assert_eq!(b.visible_lines(1, 2), vec![(2, 5), (5, 9)]);
    assert_eq!(b.visible_lines(7, 2), vec![(0, 2), (2, 5)]);
    assert_eq!(b.visible_lines(0, 10), vec![(0, 2), (2, 5), (5, 9), (9, 10)]);
    assert_eq!(b.visible_lines(0, 0), vec![]);
    assert_eq!(LogBuffer::with_capacity(4).visible_lines(0, 3), vec![]);
}

#[test]
fn colour_changes_read_back() {
    let acts = [
        ColorAct::Pop,
        ColorAct::Repl(ColorRef::Theme(ColorId::BlueprintsBackground)),
        ColorAct::Push(ColorRef::Exact(Color { r: 1, g: 22, b: 255, a: 0 })),
        ColorAct::Repl(ColorRef::Exact(Color { r: 0, g: 0, b: 0, a: 100 })),
        ColorAct::Push(ColorRef::Theme(ColorId::Resistance9)),
    ];
    for a in acts {
        let text = a.to_string();
        let code = &text[2..text.len() - 1];
        assert_eq!(ColorAct::from_str(code), Ok(a));
    }
    let exact = ColorRef::Exact(Color { r: 10, g: 200, b: 3, a: 255 });
    assert_eq!(exact.to_string(), "rgba(10,200,3,255)");
    assert_eq!(ColorRef::from_str(&exact.to_string()), Ok(exact));
}

#[test]
fn references_read_back() {
    let refs = [
        HyperRef::Gate(GateRef(Gate::Capacitor { capacity: Ntd::Two })),
        HyperRef::Gate(GateRef(Gate::Battery)),
        HyperRef::Tool(ToolRef(ToolId::Interact)),
        HyperRef::Position(PositionRef(IVec2::new(-2147483648, 77))),
        HyperRef::Graph(GraphRef(GraphId(0xabc))),
        HyperRef::Node(NodeRef(NodeId(0))),
        HyperRef::Wire(WireRef(WireId(u128::MAX))),
    ];
    let open = "\x1B{push:hyper_ref}";
    let close = "\x1B{pop}";
    for r in refs {
        let text = r.to_string();
        assert!(text.starts_with(open) && text.ends_with(close));
        let body = &text[open.len()..text.len() - close.len()];
        assert_eq!(HyperRef::from_str(body), Ok(r));
    }
    // A delay gate is written without a setting and is not read back.
    let delay = HyperRef::Gate(GateRef(Gate::Delay)).to_string();
    assert_eq!(HyperRef::from_str(&delay[open.len()..delay.len() - close.len()]), Err(ParseHyperRefError));
}

#[test]
fn graphics_log_levels() {
    assert_eq!(trace_log_type(TraceLevel::Trace), Some(LogType::Info));
    assert_eq!(trace_log_type(TraceLevel::Debug), Some(LogType::Debug));
    assert_eq!(trace_log_type(TraceLevel::Fatal), Some(LogType::Error));
    assert_eq!(trace_log_type(TraceLevel::Warning), Some(LogType::Warning));
    assert_eq!(trace_log_type(TraceLevel::All), None);
    assert_eq!(trace_log_type(TraceLevel::Silent), None);
    assert!(LogType::Warning.echoes_to_stderr());
    assert!(LogType::Fatal.echoes_to_stderr());
    assert!(!LogType::Success.echoes_to_stderr());
    assert!(!LogType::Info.echoes_to_stderr());
}
