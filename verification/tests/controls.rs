use gate_graph::input::{combine_ints, IntCombine, first_starting, Button, Event, EventSource, EventSourceDef, InputState, Key};
use gate_graph::tab::TabList;
use gate_graph::console::{GateRef, HyperRef, PositionRef, ToolRef};
use gate_graph::controls::{Bindings, Inputs, Visibility};
use gate_graph::gate::GateId;
use gate_graph::tool::{Create, Edit, EditDragging, Erase, Interact, Tool, ToolId};
use gate_graph::gate::{Gate, GateInstance, Ntd};
use gate_graph::icons::{ButtonIconId, ButtonIconSheetId};
use gate_graph::rich_text::ColorRef;
use gate_graph::term::Color;
use gate_graph::toolpane::{editor_tick, ButtonAction, Orientation, ToolPane};
use gate_graph::graph::{Elbow, Graph};
use gate_graph::ids::{GraphId, NodeId, WireId};
use gate_graph::ivec::IVec2;

fn input(down: &[Key], pressed: &[Key], released: &[Key]) -> InputState {
    InputState {
        keys_down: down.to_vec(),
        keys_pressed: pressed.to_vec(),
        keys_released: released.to_vec(),
        buttons_down: vec![],
        buttons_pressed: vec![],
        buttons_released: vec![],
    }
}

#[test]
fn events_move_through_their_phases() {
    let mut e = Event::Inactive;
    e.activate();
    assert_eq!(e, Event::Starting);
    assert!(e.is_active() && e.is_starting() && e.is_changing());
    e.activate();
    assert_eq!(e, Event::Active);
    e.deactivate();
    assert_eq!(e, Event::Ending);
    assert!(e.is_inactive() && e.is_ending());
    e.step();
    assert_eq!(e, Event::Inactive);
    e.deactivate();
    assert_eq!(e, Event::Inactive);
    assert_eq!(Event::Starting.next(), Event::Active);
    assert_eq!(Event::Ending.next(), Event::Inactive);
    assert!(Event::Starting.is(Event::Active));
    assert!(!Event::Active.is(Event::Starting));
    assert!(Event::Ending.is(Event::Inactive));
}

#[test]
fn sources_read_keys() {
    let a = EventSource::Keyboard(Key::A);
    assert_eq!(a.get(&input(&[Key::A], &[Key::A], &[])), Event::Starting);
    assert_eq!(a.get(&input(&[Key::A], &[], &[])), Event::Active);
    assert_eq!(a.get(&input(&[], &[], &[Key::A])), Event::Ending);
    assert_eq!(a.get(&input(&[], &[], &[])), Event::Inactive);
    assert_eq!(EventSource::Constant(Event::Ending).get(&input(&[Key::A], &[], &[])), Event::Ending);
    let not_a = EventSource::Not(Box::new(EventSource::Keyboard(Key::A)));
    assert!(not_a.is_active(&input(&[], &[], &[])));
    let m = EventSource::Mouse(Button::Left);
    assert!(!m.is_active(&input(&[Key::A], &[], &[])));
}

#[test]
fn combined_sources() {
    // `All` is held when any part is, `Any` when every part is
    let all = EventSource::All(vec![EventSource::Keyboard(Key::A), EventSource::Keyboard(Key::B)]);
    let any = EventSource::Any(vec![EventSource::Keyboard(Key::A), EventSource::Keyboard(Key::B)]);
    let only_a = input(&[Key::A], &[Key::A], &[]);
    assert!(all.is_active(&only_a));
    assert!(!any.is_active(&only_a));
    assert!(all.is_starting(&only_a));
    assert!(!any.is_starting(&only_a));
    let both = input(&[Key::A, Key::B], &[Key::B], &[]);
    assert!(any.is_starting(&both));
    assert_eq!(any.get(&both), Event::Starting);
    let a_up = input(&[], &[], &[Key::A]);
    assert!(all.is_ending(&a_up));
    assert!(!any.is_ending(&a_up));
    let a_up_b_held = input(&[Key::B], &[], &[Key::A]);
    assert!(any.is_ending(&a_up_b_held));
    assert!(!all.is_ending(&a_up_b_held));
}

#[test]
fn written_sources() {
    let src = EventSource::Any(vec![
        EventSource::Keyboard(Key::LeftControl),
        EventSource::Not(Box::new(EventSource::Mouse(Button::Right))),
        EventSource::Constant(Event::Active),
    ]);
    let def = EventSourceDef::from(src);
    match &def {
        EventSourceDef::Any(items) => {
            assert_eq!(items.len(), 3);
            assert!(matches!(items[0], EventSourceDef::LeftControl));
            assert!(matches!(&items[1], EventSourceDef::Not(x) if matches!(**x, EventSourceDef::MouseRight)));
            assert!(matches!(items[2], EventSourceDef::Active));
        }
        _ => panic!("expected Any"),
    }
    let back = EventSource::from(def);
    match back {
        EventSource::Any(items) => {
            assert!(matches!(items[0], EventSource::Keyboard(Key::LeftControl)));
            assert!(matches!(&items[1], EventSource::Not(x) if matches!(**x, EventSource::Mouse(Button::Right))));
            assert!(matches!(items[2], EventSource::Constant(Event::Active)));
        }
        _ => panic!("expected Any"),
    }
    assert!(matches!(EventSource::from(EventSourceDef::Kp7), EventSource::Keyboard(Key::Kp7)));
}

#[test]
fn hotkeys() {
    assert_eq!(first_starting(&[(Event::Active, 1), (Event::Starting, 2), (Event::Starting, 3)]), Some(2));
    assert_eq!(first_starting(&[(Event::Active, 1), (Event::Ending, 2)]), None::<i32>);
}

#[test]
fn tab_focus_follows_its_tab() {
    let mut tabs = TabList::with_tabs(vec!['a', 'b', 'c']);
    assert_eq!(tabs.focused_tab(), Some(&'a'));
    assert_eq!(tabs.focus(2), Ok(()));
    assert_eq!(tabs.focus(3), Err(()));
    tabs.insert(0, 'z');
    assert_eq!(tabs.focused_tab(), Some(&'c'));
    assert_eq!(tabs.remove(1), 'a');
    assert_eq!(tabs.focused_tab(), Some(&'c'));
    tabs.push('d');
    assert_eq!(tabs.tabs(), &['z', 'b', 'c', 'd']);
    tabs.retain(&[false, true, true, true]);
    assert_eq!(tabs.tabs(), &['b', 'c', 'd']);
    assert_eq!(tabs.focused_tab(), Some(&'c'));
    assert_eq!(tabs.pop(), Some('d'));
    assert_eq!(tabs.focused_tab(), Some(&'c'));
    assert_eq!(tabs.pop(), Some('c'));
    assert_eq!(tabs.focused_index(), 0);
    assert_eq!(tabs.focused_tab(), Some(&'b'));
}

#[test]
fn tab_reordering() {
    let mut tabs = TabList::with_tabs(vec!['a', 'b', 'c', 'd']);
    assert_eq!(tabs.reorder(0, 2), Ok(()));
    // the tabs in 0..2 turn left by one; the focus goes to place 2
    assert_eq!(tabs.tabs(), &['b', 'a', 'c', 'd']);
    assert_eq!(tabs.focused_index(), 2);
    assert_eq!(tabs.reorder(3, 1), Ok(()));
    // the tabs in 1..3 turn right by one; the focus on 2 moves to 3
    assert_eq!(tabs.tabs(), &['b', 'c', 'a', 'd']);
    assert_eq!(tabs.focused_index(), 3);
    assert_eq!(tabs.reorder(4, 0), Err(()));
    assert_eq!(tabs.len(), 4);
    assert!(!tabs.is_empty());
}

fn quiet_frame() -> Inputs {
    let i = Event::Inactive;
    Inputs {
        primary: i,
        secondary: i,
        alternate: i,
        parallel: i,
        or_gate_hotkey: i,
        and_gate_hotkey: i,
        nor_gate_hotkey: i,
        xor_gate_hotkey: i,
        resistor_gate_hotkey: i,
        capacitor_gate_hotkey: i,
        led_gate_hotkey: i,
        delay_gate_hotkey: i,
        battery_gate_hotkey: i,
        create_tool_hotkey: i,
        erase_tool_hotkey: i,
        edit_tool_hotkey: i,
        interact_tool_hotkey: i,
        hide_toolpane: i,
        collapse_toolpane: i,
        expand_toolpane: i,
    }
}

#[test]
fn hotkeys_choose_gate_tool_and_pane() {
    let mut f = quiet_frame();
    assert_eq!((f.gate(), f.tool(), f.toolpane_vis()), (None, None, None));
    f.led_gate_hotkey = Event::Starting;
    f.battery_gate_hotkey = Event::Starting;
    f.xor_gate_hotkey = Event::Active;
    assert_eq!(f.gate(), Some(GateId::Led));
    f.edit_tool_hotkey = Event::Starting;
    assert_eq!(f.tool(), Some(ToolId::Edit));
    f.expand_toolpane = Event::Starting;
    f.collapse_toolpane = Event::Starting;
    assert_eq!(f.toolpane_vis(), Some(Visibility::Collapsed));
    f.hide_toolpane = Event::Starting;
    assert_eq!(f.toolpane_vis(), Some(Visibility::Hidden));
    assert_eq!(Visibility::default(), Visibility::Expanded);
}

#[test]
fn default_bindings_read_a_frame() {
    let b = Bindings::default();
    let mut frame = input(&[Key::Seven, Key::RightControl, Key::B], &[Key::Seven, Key::B], &[]);
    frame.buttons_down = vec![Button::Left];
    frame.buttons_pressed = vec![Button::Left];
    let f = b.get_all(&frame);
    assert_eq!(f.primary, Event::Starting);
    assert_eq!(f.secondary, Event::Inactive);
    assert_eq!(f.gate(), Some(GateId::Led));
    assert_eq!(f.tool(), Some(ToolId::Create));
    assert_eq!(f.toolpane_vis(), Some(Visibility::Hidden));
    let still = b.get_all(&input(&[Key::LeftShift], &[], &[Key::One]));
    assert_eq!(still.parallel, Event::Active);
    assert_eq!(still.or_gate_hotkey, Event::Ending);
    assert_eq!((still.gate(), still.tool(), still.toolpane_vis()), (None, None, None));
}

fn pressing(primary: Event, secondary: Event) -> Inputs {
    let mut f = quiet_frame();
    f.primary = primary;
    f.secondary = secondary;
    f
}

#[test]
fn create_tool_places_and_wires() {
    let mut g = Graph::new(GraphId(0));
    let mut t = Create::new();
    let click = pressing(Event::Starting, Event::Inactive);
    assert!(!t.tick(Gate::Battery, Elbow::Vertical, &click, &mut g, IVec2::new(1, 1)));
    assert_eq!(t.current_node, Some(NodeId(0)));
    assert!(t.tick(Gate::Or, Elbow::Vertical, &click, &mut g, IVec2::new(9, 1)));
    assert_eq!(t.current_node, Some(NodeId(1)));
    assert_eq!(g.nodes_iter().len(), 2);
    assert_eq!(g.wires_iter().len(), 1);
    assert_eq!((*g.wires_iter()[0].src(), *g.wires_iter()[0].dst()), (NodeId(0), NodeId(1)));
    // Clicking the remembered node again adds nothing.
    assert!(!t.tick(Gate::Or, Elbow::Vertical, &click, &mut g, IVec2::new(12, 5)));
    assert_eq!(g.nodes_iter().len(), 2);
    // Clicking the first node wires back to it.
    assert!(t.tick(Gate::Or, Elbow::Horizontal, &click, &mut g, IVec2::new(0, 0)));
    assert_eq!(*g.wires_iter()[1].id(), WireId(1));
    assert_eq!((*g.wires_iter()[1].src(), *g.wires_iter()[1].dst()), (NodeId(1), NodeId(0)));
    // An existing wire is not made twice.
    t.current_node = Some(NodeId(0));
    assert!(!t.tick(Gate::Or, Elbow::Horizontal, &click, &mut g, IVec2::new(8, 0)));
    assert_eq!(g.wires_iter().len(), 2);
    let forget = pressing(Event::Inactive, Event::Starting);
    assert!(!t.tick(Gate::Or, Elbow::Horizontal, &forget, &mut g, IVec2::new(0, 0)));
    assert_eq!(t.current_node, None);
}

#[test]
fn erase_edit_and_interact_tools() {
    let mut g = Graph::new(GraphId(0));
    let a = g.create_node(Gate::Or, IVec2::new(0, 0)).unwrap();
    let b = g.create_node(Gate::Or, IVec2::new(8, 0)).unwrap();
    let c = g.create_node(Gate::Xor, IVec2::new(16, 0)).unwrap();
    g.create_wire(Elbow::Horizontal, a, b).unwrap();
    let click = pressing(Event::Starting, Event::Inactive);

    // Interact switches an input node between Or and Nor, but not a node fed by a wire.
    let mut i = Interact::new();
    assert!(i.tick(&click, &mut g, IVec2::new(3, 3)));
    assert_eq!(*g.node(&a).unwrap().gate(), GateInstance::Nor);
    assert!(i.tick(&click, &mut g, IVec2::new(3, 3)));
    assert_eq!(*g.node(&a).unwrap().gate(), GateInstance::Or);
    assert!(!i.tick(&click, &mut g, IVec2::new(9, 0)));
    assert_eq!(*g.node(&b).unwrap().gate(), GateInstance::Or);
    assert!(!i.tick(&click, &mut g, IVec2::new(17, 0)));

    // Edit regates with the secondary control and drags with the primary one.
    let mut e = Edit::new();
    assert!(!e.tick(Gate::Battery, &pressing(Event::Inactive, Event::Starting), &mut g, IVec2::new(16, 0)));
    assert_eq!(*g.node(&c).unwrap().gate(), GateInstance::Battery);
    e.tick(Gate::Or, &click, &mut g, IVec2::new(16, 0));
    assert_eq!(e.target, Some(EditDragging { id: c }));
    e.tick(Gate::Or, &pressing(Event::Active, Event::Inactive), &mut g, IVec2::new(40, 0));
    assert_eq!(g.node(&c).unwrap().position(), IVec2::new(16, 0));
    e.tick(Gate::Or, &pressing(Event::Ending, Event::Inactive), &mut g, IVec2::new(40, 8));
    assert_eq!(e.target, None);
    assert_eq!(g.node(&c).unwrap().position(), IVec2::new(40, 8));
    assert_eq!(*g.node_at(IVec2::new(5, 1)).unwrap().id(), c);
    assert!(g.node_at(IVec2::new(2, 0)).is_none());

    // Erase deletes the node under the cursor with its wires.
    let mut x = Erase::new();
    assert!(!x.tick(&click, &mut g, IVec2::new(100, 100)));
    assert!(x.tick(&click, &mut g, IVec2::new(9, 7)));
    assert!(g.node(&b).is_err());
    assert_eq!(g.wires_iter().len(), 0);
    assert_eq!(g.nodes_iter().len(), 2);
}

#[test]
fn tools_by_kind() {
    let mut g = Graph::new(GraphId(0));
    let mut t = Tool::default();
    assert_eq!(t.id(), ToolId::Create);
    assert!(!t.tick(Gate::Or, Elbow::Vertical, &pressing(Event::Starting, Event::Inactive), &mut g, IVec2::new(0, 0)));
    assert_eq!(t, Tool::Create(Create { current_node: Some(NodeId(0)) }));
    let mut e = ToolId::Erase.init();
    assert_eq!(e.id(), ToolId::Erase);
    assert!(e.tick(Gate::Or, Elbow::Vertical, &pressing(Event::Starting, Event::Inactive), &mut g, IVec2::new(0, 0)));
    assert_eq!(g.nodes_iter().len(), 0);
    assert_eq!(ToolId::Edit.init(), Tool::Edit(Edit { target: None }));
    assert_eq!(ToolId::Interact.init().id(), ToolId::Interact);
}

fn pane() -> ToolPane {
    ToolPane::new(
        Tool::default(),
        Gate::Capacitor { capacity: Ntd::Three },
        Elbow::Horizontal,
        Orientation::Vertical,
        Visibility::Expanded,
        ButtonIconSheetId::X32,
    )
}

#[test]
fn tool_pane_buttons() {
    let p = pane();
    assert_eq!(p.ntd, Ntd::Three);
    assert_eq!(p.button_groups.len(), 4);
    let tools = &p.button_groups[0];
    assert_eq!(tools.buttons().len(), 6);
    assert_eq!(tools.buttons()[1].icon, Some(ButtonIconId::Edit));
    assert_eq!(tools.buttons()[1].action, ButtonAction::SetTool(ToolId::Edit));
    assert_eq!((tools.cols(Visibility::Expanded), tools.rows(Visibility::Expanded)), (3, 2));
    let digits = &p.button_groups[2];
    assert!(digits.rev_rows());
    assert_eq!(digits.rows(Visibility::Expanded), 4);
    assert_eq!(digits.rows(Visibility::Collapsed), 10);
    assert_eq!(digits.rows(Visibility::Hidden), 0);
    assert_eq!(digits.cols(Visibility::Collapsed), 1);
    assert_eq!(digits.buttons()[0].text, Some("9"));
    assert_eq!(digits.buttons()[8].color, Some(ColorRef::Exact(Color { r: 165, g: 42, b: 42, a: 255 })));
    assert_eq!(digits.buttons()[9].action, ButtonAction::SetNtd(Ntd::Zero));
    assert_eq!(p.button_groups[3].buttons()[0].action, ButtonAction::Settings);
    assert_eq!(ToolPane::new(Tool::default(), Gate::Xor, Elbow::Vertical, Orientation::Horizontal, Visibility::Hidden, ButtonIconSheetId::X16).ntd, Ntd::Zero);
}

#[test]
fn tool_pane_choices() {
    let mut p = pane();
    assert!(!p.set_tool(ToolId::Create));
    assert!(p.set_tool(ToolId::Erase));
    assert_eq!(p.tool.id(), ToolId::Erase);
    assert!(p.set_gate(GateId::Resistor));
    assert_eq!(p.gate, Gate::Resistor { resistance: Ntd::Three });
    assert!(!p.set_gate(GateId::Resistor));
    assert!(p.set_ntd(Ntd::Seven));
    assert_eq!(p.gate, Gate::Resistor { resistance: Ntd::Seven });
    assert!(!p.set_ntd(Ntd::Seven));
    assert!(p.apply_action(ButtonAction::SetGate(GateId::Or)));
    assert_eq!(p.gate, Gate::Or);
    assert!(p.apply_action(ButtonAction::SetNtd(Ntd::One)));
    assert_eq!((p.gate, p.ntd), (Gate::Or, Ntd::One));
    assert!(!p.apply_action(ButtonAction::Clipboard));
    assert!(p.apply_action(ButtonAction::SetTool(ToolId::Interact)));
    assert_eq!(p.tool, Tool::Interact(Interact::new()));
}

#[test]
fn editor_frames() {
    let mut p = pane();
    let mut g = Graph::new(GraphId(0));
    let mut f = pressing(Event::Starting, Event::Inactive);
    f.and_gate_hotkey = Event::Starting;
    assert!(!editor_tick(&mut p, &f, &mut g, IVec2::new(0, 0)));
    assert_eq!(p.gate, Gate::And);
    assert_eq!(*g.node(&NodeId(0)).unwrap().gate(), GateInstance::And);
    f.and_gate_hotkey = Event::Inactive;
    assert!(editor_tick(&mut p, &f, &mut g, IVec2::new(8, 0)));
    assert_eq!(g.wires_iter().len(), 1);
    // Switching to the erase tool on the same frame erases with it.
    f.erase_tool_hotkey = Event::Starting;
    assert!(editor_tick(&mut p, &f, &mut g, IVec2::new(8, 0)));
    assert_eq!(p.tool.id(), ToolId::Erase);
    assert_eq!((g.nodes_iter().len(), g.wires_iter().len()), (1, 0));
}

#[test]
fn links_point_at_buttons() {
    let p = pane();
    assert_eq!(p.linked_button(HyperRef::Gate(GateRef(Gate::Led { color: Ntd::One }))), Some((1, 6)));
    assert_eq!(p.linked_button(HyperRef::Gate(GateRef(Gate::Or))), Some((1, 0)));
    assert_eq!(p.linked_button(HyperRef::Tool(ToolRef(ToolId::Interact))), Some((0, 4)));
    assert_eq!(p.linked_button(HyperRef::Position(PositionRef(IVec2::new(1, 2)))), None);
}

#[test]
fn erase_undoes_create() {
    let mut g = Graph::new(GraphId(0));
    let a = g.create_node(Gate::Or, IVec2::new(0, 0)).unwrap();
    let click = pressing(Event::Starting, Event::Inactive);
    let mut c = Create { current_node: Some(a) };
    assert!(c.tick(Gate::Xor, Elbow::Vertical, &click, &mut g, IVec2::new(24, 8)));
    assert_eq!((g.nodes_iter().len(), g.wires_iter().len()), (2, 1));
    let mut e = Erase::new();
    assert!(e.tick(&click, &mut g, IVec2::new(24, 8)));
    assert_eq!((g.nodes_iter().len(), g.wires_iter().len()), (1, 0));
    assert_eq!(*g.nodes_iter()[0].id(), a);
    assert!(g.node_at(IVec2::new(3, 1)).is_none());
    assert_eq!(*g.node_at(IVec2::new(0, 0)).unwrap().id(), a);
}

#[test]
fn integer_sources_combine() {
    assert_eq!(combine_ints(IntCombine::Sum, &[1, 2, 3]), Some(6));
    assert_eq!(combine_ints(IntCombine::Sum, &[]), Some(0));
    assert_eq!(combine_ints(IntCombine::Product, &[2, -3, 4]), Some(-24));
    assert_eq!(combine_ints(IntCombine::Product, &[]), Some(1));
    assert_eq!(combine_ints(IntCombine::Difference, &[10, 3, 2]), Some(5));
    assert_eq!(combine_ints(IntCombine::Difference, &[7]), Some(7));
    assert_eq!(combine_ints(IntCombine::Difference, &[]), Some(0));
    // a step that overflows fails, even when a later value would bring it back
    assert_eq!(combine_ints(IntCombine::Sum, &[i32::MAX, 1, -1]), None);
    assert_eq!(combine_ints(IntCombine::Product, &[65536, 65536, 0]), None);
    assert_eq!(combine_ints(IntCombine::Difference, &[i32::MIN, 1]), None);
}
