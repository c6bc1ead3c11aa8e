//! The tool pane: the tool, gate, setting and wire bend that new work uses, the
//! buttons that choose them, and what pressing a button or a hotkey changes.
use crate::console::HyperRef;
use crate::controls::{Inputs, Visibility};
use crate::gate::{Gate, GateId, Ntd};
use crate::graph::{Elbow, Graph};
use crate::icons::{ButtonIconId, ButtonIconSheetId};
use crate::input::{first_starting_of, Event};
use crate::ivec::IVec2;
use crate::rich_text::ColorRef;
use crate::term::Color;
use crate::tool::{cell_at, fresh_tool, tool_ticked, wire_made, Tool, ToolId};
use vstd::prelude::*;

verus! {

/// Which way a panel runs.
#[derive(Debug, Clone, Copy, PartialEq, Eq, Structural, Hash)]
pub enum Orientation {
    Horizontal,
    Vertical,
}

/// What pressing a button of the tool pane asks for.
#[derive(Debug, Clone, Copy, PartialEq, Eq, Structural, Hash)]
pub enum ButtonAction {
    SetTool(ToolId),
    SetGate(GateId),
    SetNtd(Ntd),
    Blueprints,
    Clipboard,
    Settings,
}

/// A button of the tool pane.
#[derive(Debug, Clone, Copy, PartialEq, Eq)]
pub struct Button {
    pub text: Option<&'static str>,
    pub tooltip: Option<&'static str>,
    pub desc: Option<&'static str>,
    pub color: Option<ColorRef>,
    pub icon: Option<ButtonIconId>,
    pub action: ButtonAction,
}

/// A text of a button, as characters.
pub open spec fn text_view(t: Option<&'static str>) -> Option<Seq<char>> {
    match t {
        Some(s) => Some(s@),
        None => None,
    }
}

/// What a button without tooltip or description shows and does: its text, colour,
/// icon and action.
pub open spec fn face(b: Button) -> (Option<Seq<char>>, Option<ColorRef>, Option<ButtonIconId>, ButtonAction) {
    (text_view(b.text), b.color, b.icon, b.action)
}

impl Button {
    /// A button with no tooltip and no description.
    pub fn plain(
        text: Option<&'static str>,
        color: Option<ColorRef>,
        icon: Option<ButtonIconId>,
        action: ButtonAction,
    ) -> (r: Button)
        ensures
            r == (Button { text, tooltip: None, desc: None, color, icon, action }),
    {
        Button { text, tooltip: None, desc: None, color, icon, action }
    }
}

/// A group of buttons, laid out in rows of three (or one per row when collapsed);
/// `rev_rows` lays each row out from the other end.
#[derive(Debug, Clone)]
pub struct ButtonGroup {
    buttons: Vec<Button>,
    rev_rows: bool,
}

impl ButtonGroup {
    /// The buttons.
    pub closed spec fn buttons_view(&self) -> Seq<Button> {
        self.buttons@
    }

    /// Each row is laid out from the other end.
    pub closed spec fn reversed(&self) -> bool {
        self.rev_rows
    }

    /// The buttons.
    pub fn buttons(&self) -> (r: &[Button])
        ensures
            r@ == self.buttons_view(),
    {
        self.buttons.as_slice()
    }

    /// Whether each row is laid out from the other end.
    pub fn rev_rows(&self) -> (r: bool)
        ensures
            r == self.reversed(),
    {
        self.rev_rows
    }

    /// Buttons per row: three when expanded, one when collapsed, none when hidden.
    pub fn cols(&self, visibility: Visibility) -> (r: usize)
        ensures
            r == match visibility {
                Visibility::Expanded => 3usize,
                Visibility::Collapsed => 1usize,
                Visibility::Hidden => 0usize,
            },
    {
        match visibility {
            Visibility::Expanded => 3,
            Visibility::Collapsed => 1,
            Visibility::Hidden => 0,
        }
    }

    /// The number of rows the buttons take: a third of them rounded up when expanded,
    /// all of them when collapsed, none when hidden.
    pub fn rows(&self, visibility: Visibility) -> (r: usize)
        ensures
            r == match visibility {
                Visibility::Expanded => (self.buttons_view().len() + 2) / 3,
                Visibility::Collapsed => self.buttons_view().len(),
                Visibility::Hidden => 0,
            },
    {
        match visibility {
            Visibility::Expanded => {
                let n = self.buttons.len();
                n / 3 + if n % 3 == 0 { 0 } else { 1 }
            },
            Visibility::Collapsed => self.buttons.len(),
            Visibility::Hidden => 0,
        }
    }
}

/// The buttons of the tool pane, group by group: the tools with the blueprint and
/// clipboard buttons; one per kind of gate; the settings nine down to zero, each in its
/// colour; and the settings button.
pub open spec fn pane_faces() -> Seq<Seq<(Option<Seq<char>>, Option<ColorRef>, Option<ButtonIconId>, ButtonAction)>> {
    seq![
        seq![
            ((None, None, Some(ButtonIconId::Pen), ButtonAction::SetTool(ToolId::Create))),
            ((None, None, Some(ButtonIconId::Edit), ButtonAction::SetTool(ToolId::Edit))),
            ((None, None, Some(ButtonIconId::Erase), ButtonAction::SetTool(ToolId::Erase))),
            ((None, None, Some(ButtonIconId::BlueprintSelect), ButtonAction::Blueprints)),
            ((None, None, Some(ButtonIconId::Interact), ButtonAction::SetTool(ToolId::Interact))),
            ((None, None, Some(ButtonIconId::Clipboard), ButtonAction::Clipboard)),
        ],
        seq![
            ((None, None, Some(ButtonIconId::Or), ButtonAction::SetGate(GateId::Or))),
            ((None, None, Some(ButtonIconId::And), ButtonAction::SetGate(GateId::And))),
            ((None, None, Some(ButtonIconId::Nor), ButtonAction::SetGate(GateId::Nor))),
            ((None, None, Some(ButtonIconId::Xor), ButtonAction::SetGate(GateId::Xor))),
            ((None, None, Some(ButtonIconId::Resistor), ButtonAction::SetGate(GateId::Resistor))),
            ((None, None, Some(ButtonIconId::Capacitor), ButtonAction::SetGate(GateId::Capacitor))),
            ((None, None, Some(ButtonIconId::Led), ButtonAction::SetGate(GateId::Led))),
            ((None, None, Some(ButtonIconId::Delay), ButtonAction::SetGate(GateId::Delay))),
            ((None, None, Some(ButtonIconId::Battery), ButtonAction::SetGate(GateId::Battery))),
        ],
        seq![
            ((Some("9"@), Some(ColorRef::Exact(Color { r: 255, g: 255, b: 255, a: 255 })), None, ButtonAction::SetNtd(Ntd::Nine))),
            ((Some("8"@), Some(ColorRef::Exact(Color { r: 128, g: 128, b: 128, a: 255 })), None, ButtonAction::SetNtd(Ntd::Eight))),
            ((Some("7"@), Some(ColorRef::Exact(Color { r: 128, g: 0, b: 128, a: 255 })), None, ButtonAction::SetNtd(Ntd::Seven))),
            ((Some("6"@), Some(ColorRef::Exact(Color { r: 0, g: 0, b: 255, a: 255 })), None, ButtonAction::SetNtd(Ntd::Six))),
            ((Some("5"@), Some(ColorRef::Exact(Color { r: 0, g: 128, b: 0, a: 255 })), None, ButtonAction::SetNtd(Ntd::Five))),
            ((Some("4"@), Some(ColorRef::Exact(Color { r: 255, g: 255, b: 0, a: 255 })), None, ButtonAction::SetNtd(Ntd::Four))),
            ((Some("3"@), Some(ColorRef::Exact(Color { r: 255, g: 165, b: 0, a: 255 })), None, ButtonAction::SetNtd(Ntd::Three))),
            ((Some("2"@), Some(ColorRef::Exact(Color { r: 255, g: 0, b: 0, a: 255 })), None, ButtonAction::SetNtd(Ntd::Two))),
            ((Some("1"@), Some(ColorRef::Exact(Color { r: 165, g: 42, b: 42, a: 255 })), None, ButtonAction::SetNtd(Ntd::One))),
            ((Some("0"@), Some(ColorRef::Exact(Color { r: 0, g: 0, b: 0, a: 255 })), None, ButtonAction::SetNtd(Ntd::Zero))),
        ],
        seq![
            ((None, None, Some(ButtonIconId::Settings), ButtonAction::Settings)),
        ],
    ]
}

/// Only the digit buttons are laid out from the other end.
pub open spec fn pane_reversed() -> Seq<bool> {
    seq![false, false, true, false]
}

/// The tool pane: the tool in use, what gate new nodes get and its setting, the bend of
/// new wires, how the pane is laid out and its buttons.
#[derive(Debug)]
pub struct ToolPane {
    pub tool: Tool,
    pub gate: Gate,
    pub ntd: Ntd,
    pub elbow: Elbow,
    pub orientation: Orientation,
    pub visibility: Visibility,
    pub scale: ButtonIconSheetId,
    pub button_groups: Vec<ButtonGroup>,
}

/// `gate` with its setting replaced by `value`, where it has one.
pub open spec fn gate_with_ntd(gate: Gate, value: Ntd) -> Gate {
    match gate {
        Gate::Resistor { .. } => Gate::Resistor { resistance: value },
        Gate::Capacitor { .. } => Gate::Capacitor { capacity: value },
        Gate::Led { .. } => Gate::Led { color: value },
        _ => gate,
    }
}

/// Giving a gate a setting keeps its kind, and gives the setting to exactly the gates
/// that have one: resistors, capacitors and LEDs.
pub proof fn lemma_setting_follows(gate: Gate, value: Ntd)
    ensures
        gate_with_ntd(gate, value).spec_id() == gate.spec_id(),
        (gate_with_ntd(gate, value).spec_ntd() is Some) == (gate.spec_ntd() is Some),
        gate.spec_ntd() is Some ==> gate_with_ntd(gate, value).spec_ntd() == Some(value),
        gate.spec_ntd() is None ==> gate_with_ntd(gate, value) == gate,
{
}

impl ToolPane {
    /// A tool pane using `tool`, `gate` and `elbow`, whose setting starts as that gate's
    /// own (zero for a gate without one), with the standard buttons.
    pub fn new(
        tool: Tool,
        gate: Gate,
        elbow: Elbow,
        orientation: Orientation,
        visibility: Visibility,
        scale: ButtonIconSheetId,
    ) -> (r: ToolPane)
        ensures
            r.tool == tool,
            r.gate == gate,
            r.ntd == match gate.spec_ntd() {
                Some(n) => n,
                None => Ntd::Zero,
            },
            r.elbow == elbow,
            r.orientation == orientation,
            r.visibility == visibility,
            r.scale == scale,
            r.button_groups@.len() == pane_faces().len(),
            forall|i: int|
                0 <= i < pane_faces().len() ==> (#[trigger] r.button_groups@[i]).buttons_view().map_values(
                    |b: Button| face(b),
                ) == pane_faces()[i] && r.button_groups@[i].reversed() == pane_reversed()[i],
            forall|i: int, k: int|
                0 <= i < r.button_groups@.len() && 0 <= k < r.button_groups@[i].buttons_view().len()
                    ==> (#[trigger] r.button_groups@[i].buttons_view()[k]).tooltip is None
                    && r.button_groups@[i].buttons_view()[k].desc is None,
    {
        let ntd = match gate.ntd() {
            Some(n) => n,
            None => Ntd::default(),
        };
        let groups = pane_buttons();
        ToolPane { tool, gate, ntd, elbow, orientation, visibility, scale, button_groups: groups }
    }
}

/// `tool` after the tool `id` is chosen: a fresh tool of that kind, unless `tool`
/// already is one.
pub open spec fn tool_after(tool: Tool, id: ToolId) -> Tool {
    if tool.spec_id() != id {
        fresh_tool(id)
    } else {
        tool
    }
}

/// `gate` after the kind `id` is chosen with setting `ntd`: a gate of that kind, unless
/// `gate` already is one.
pub open spec fn gate_after(gate: Gate, id: GateId, ntd: Ntd) -> Gate {
    if gate.spec_id() != id {
        id.spec_to_gate(ntd)
    } else {
        gate
    }
}

impl ToolPane {
    /// Switches to a fresh tool of kind `tool_id` unless that kind is in use already;
    /// tells whether it switched.
    pub fn set_tool(&mut self, tool_id: ToolId) -> (r: bool)
        ensures
            r == (old(self).tool.spec_id() != tool_id),
            final(self).tool == tool_after(old(self).tool, tool_id),
            final(self).tool.spec_id() == tool_id,
            final(self).gate == old(self).gate,
            final(self).ntd == old(self).ntd,
            final(self).elbow == old(self).elbow,
            final(self).orientation == old(self).orientation,
            final(self).visibility == old(self).visibility,
            final(self).scale == old(self).scale,
            final(self).button_groups@ == old(self).button_groups@,
    {
        let change = self.tool.id() != tool_id;
        if change {
            self.tool = tool_id.init();
        }
        change
    }

    /// Switches to a gate of kind `gate_id`, with the pane's setting, unless that kind is
    /// in use already; tells whether it switched.
    pub fn set_gate(&mut self, gate_id: GateId) -> (r: bool)
        ensures
            r == (old(self).gate.spec_id() != gate_id),
            final(self).gate == gate_after(old(self).gate, gate_id, old(self).ntd),
            final(self).gate.spec_id() == gate_id,
            r ==> final(self).gate.spec_ntd() is None || final(self).gate.spec_ntd() == Some(old(self).ntd),
            final(self).tool == old(self).tool,
            final(self).ntd == old(self).ntd,
            final(self).elbow == old(self).elbow,
            final(self).orientation == old(self).orientation,
            final(self).visibility == old(self).visibility,
            final(self).scale == old(self).scale,
            final(self).button_groups@ == old(self).button_groups@,
    {
        let change = self.gate.id() != gate_id;
        if change {
            self.gate = gate_id.to_gate(self.ntd);
        }
        change
    }

    /// Changes the setting to `data`, and that of the current gate with it where it has
    /// one; tells whether the setting changed.
    pub fn set_ntd(&mut self, data: Ntd) -> (r: bool)
        ensures
            r == (old(self).ntd != data),
            final(self).ntd == data,
            final(self).gate == if r {
                gate_with_ntd(old(self).gate, data)
            } else {
                old(self).gate
            },
            final(self).gate.spec_id() == old(self).gate.spec_id(),
            (final(self).gate.spec_ntd() is Some) == (old(self).gate.spec_ntd() is Some),
            r || old(self).gate.spec_ntd() is None || old(self).gate.spec_ntd() == Some(old(self).ntd)
                ==> final(self).gate.spec_ntd() is None || final(self).gate.spec_ntd() == Some(data),
            final(self).tool == old(self).tool,
            final(self).elbow == old(self).elbow,
            final(self).orientation == old(self).orientation,
            final(self).visibility == old(self).visibility,
            final(self).scale == old(self).scale,
            final(self).button_groups@ == old(self).button_groups@,
    {
        let change = self.ntd != data;
        if change {
            self.ntd = data;
            self.gate = self.gate.with_ntd(data);
        }
        change
    }

    /// Does what pressing a button asks: chooses a tool, a gate or a setting (the
    /// blueprint, clipboard and settings buttons do nothing yet); tells whether
    /// anything changed.
    pub fn apply_action(&mut self, action: ButtonAction) -> (r: bool)
        ensures
            match action {
                ButtonAction::SetTool(id) => r == (old(self).tool.spec_id() != id)
                    && final(self).tool == tool_after(old(self).tool, id)
                    && final(self).gate == old(self).gate && final(self).ntd == old(self).ntd,
                ButtonAction::SetGate(id) => r == (old(self).gate.spec_id() != id)
                    && final(self).gate == gate_after(old(self).gate, id, old(self).ntd)
                    && final(self).tool == old(self).tool && final(self).ntd == old(self).ntd,
                ButtonAction::SetNtd(n) => r == (old(self).ntd != n) && final(self).ntd == n
                    && final(self).gate == (if r {
                    gate_with_ntd(old(self).gate, n)
                } else {
                    old(self).gate
                }) && final(self).tool == old(self).tool,
                _ => !r && final(self).tool == old(self).tool && final(self).gate == old(self).gate
                    && final(self).ntd == old(self).ntd,
            },
            final(self).elbow == old(self).elbow,
            final(self).orientation == old(self).orientation,
            final(self).visibility == old(self).visibility,
            final(self).scale == old(self).scale,
            final(self).button_groups@ == old(self).button_groups@,
    {
        match action {
            ButtonAction::SetTool(id) => self.set_tool(id),
            ButtonAction::SetGate(id) => self.set_gate(id),
            ButtonAction::SetNtd(n) => self.set_ntd(n),
            _ => false,
        }
    }
}

/// The button with action `a` is the one a link to `link` points at: for a gate, a
/// button choosing its kind; for a tool, a button choosing it.
pub open spec fn links_to(link: HyperRef, a: ButtonAction) -> bool {
    match link {
        HyperRef::Gate(g) => a == ButtonAction::SetGate(g.0.spec_id()),
        HyperRef::Tool(t) => a == ButtonAction::SetTool(t.0),
        _ => false,
    }
}

/// Button `k` of group `i` is the first, in group order and then button order, whose
/// action `link` points at.
pub open spec fn first_linked(groups: Seq<ButtonGroup>, link: HyperRef, i: int, k: int) -> bool {
    &&& 0 <= i < groups.len()
    &&& 0 <= k < groups[i].buttons_view().len()
    &&& links_to(link, groups[i].buttons_view()[k].action)
    &&& forall|j: int, m: int|
        0 <= j < groups.len() && 0 <= m < groups[j].buttons_view().len() && (j < i || (j == i
            && m < k)) ==> !links_to(link, (#[trigger] groups[j].buttons_view()[m]).action)
}

impl ToolPane {
    /// The button a link to `link` is drawn to, as its group and its place in the group:
    /// the first that chooses the linked gate's kind or the linked tool. Other links
    /// point at no button.
    pub fn linked_button(&self, link: HyperRef) -> (r: Option<(usize, usize)>)
        ensures
            match r {
                Some((i, k)) => first_linked(self.button_groups@, link, i as int, k as int),
                None => forall|j: int, m: int|
                    0 <= j < self.button_groups@.len() && 0 <= m < self.button_groups@[j].buttons_view().len()
                        ==> !links_to(link, (#[trigger] self.button_groups@[j].buttons_view()[m]).action),
            },
    {
        let groups = &self.button_groups;
        let mut i: usize = 0;
        while i < groups.len()
            invariant
                i <= groups@.len(),
                groups@ == self.button_groups@,
                forall|j: int, m: int|
                    0 <= j < i && 0 <= m < groups@[j].buttons_view().len() ==> !links_to(
                        link,
                        (#[trigger] groups@[j].buttons_view()[m]).action,
                    ),
            decreases groups@.len() - i,
        {
            let buttons = groups[i].buttons();
            let mut k: usize = 0;
            while k < buttons.len()
                invariant
                    i < groups@.len(),
                    k <= buttons@.len(),
                    buttons@ == groups@[i as int].buttons_view(),
                    groups@ == self.button_groups@,
                    forall|j: int, m: int|
                        0 <= j < i && 0 <= m < groups@[j].buttons_view().len() ==> !links_to(
                            link,
                            (#[trigger] groups@[j].buttons_view()[m]).action,
                        ),
                    forall|m: int| 0 <= m < k ==> !links_to(link, (#[trigger] buttons@[m]).action),
                decreases buttons@.len() - k,
            {
                let hit = match (link, buttons[k].action) {
                    (HyperRef::Gate(g), ButtonAction::SetGate(id)) => g.0.id() == id,
                    (HyperRef::Tool(t), ButtonAction::SetTool(id)) => t.0 == id,
                    _ => false,
                };
                if hit {
                    return Some((i, k));
                }
                k = k + 1;
            }
            i = i + 1;
        }
        None
    }
}

/// The tool in use after the tool hotkeys of `input` are read.
pub open spec fn hotkey_tool(tool: Tool, input: Inputs) -> Tool {
    match first_starting_of(input.tool_keys()) {
        Some(id) => tool_after(tool, id),
        None => tool,
    }
}

/// What gate is in use after the hotkeys of gates in `input` are read.
pub open spec fn hotkey_gate(gate: Gate, ntd: Ntd, input: Inputs) -> Gate {
    match first_starting_of(input.gate_keys()) {
        Some(id) => gate_after(gate, id, ntd),
        None => gate,
    }
}

/// One frame of an editor on `graph`: the hotkeys of gates and tools choose the pane's gate
/// and tool, then the tool works at the cursor's snapped world position `pos`; tells
/// whether the graph's wiring changed.
pub fn editor_tick(toolpane: &mut ToolPane, input: &Inputs, graph: &mut Graph, pos: IVec2) -> (r:
    bool)
    requires
        old(graph).wf(),
        hotkey_tool(old(toolpane).tool, *input) is Create ==> (input.primary == Event::Starting
            && !old(graph).grid_view().contains_key(cell_at(pos))
            ==> old(graph).next_node().0 != u128::MAX),
        hotkey_tool(old(toolpane).tool, *input) matches Tool::Create(c) ==> (input.primary
            == Event::Starting && wire_made(*old(graph), c.current_node, pos)
            ==> old(graph).next_wire().0 != u128::MAX),
    ensures
        final(graph).wf(),
        final(toolpane).gate == hotkey_gate(old(toolpane).gate, old(toolpane).ntd, *input),
        tool_ticked(
            hotkey_tool(old(toolpane).tool, *input),
            final(toolpane).tool,
            *old(graph),
            *final(graph),
            final(toolpane).gate,
            old(toolpane).elbow,
            *input,
            pos,
            r,
        ),
        final(toolpane).ntd == old(toolpane).ntd,
        final(toolpane).elbow == old(toolpane).elbow,
        final(toolpane).visibility == old(toolpane).visibility,
        final(graph).graph_id() == old(graph).graph_id(),
{
    match input.gate() {
        Some(g) => {
            toolpane.set_gate(g);
        },
        None => {},
    }
    match input.tool() {
        Some(t) => {
            toolpane.set_tool(t);
        },
        None => {},
    }
    let gate = toolpane.gate;
    let elbow = toolpane.elbow;
    toolpane.tool.tick(gate, elbow, input, graph, pos)
}

/// The standard button groups.
fn pane_buttons() -> (r: Vec<ButtonGroup>)
    ensures
        r@.len() == pane_faces().len(),
        forall|i: int|
            0 <= i < pane_faces().len() ==> (#[trigger] r@[i]).buttons_view().map_values(
                |b: Button| face(b),
            ) == pane_faces()[i] && r@[i].reversed() == pane_reversed()[i],
        forall|i: int, k: int|
            0 <= i < r@.len() && 0 <= k < r@[i].buttons_view().len()
                ==> (#[trigger] r@[i].buttons_view()[k]).tooltip is None
                && r@[i].buttons_view()[k].desc is None,
{
    let r = vec![
        ButtonGroup {
            rev_rows: false,
            buttons: vec![
                Button::plain(None, None, Some(ButtonIconId::Pen), ButtonAction::SetTool(ToolId::Create)),
                Button::plain(None, None, Some(ButtonIconId::Edit), ButtonAction::SetTool(ToolId::Edit)),
                Button::plain(None, None, Some(ButtonIconId::Erase), ButtonAction::SetTool(ToolId::Erase)),
                Button::plain(None, None, Some(ButtonIconId::BlueprintSelect), ButtonAction::Blueprints),
                Button::plain(None, None, Some(ButtonIconId::Interact), ButtonAction::SetTool(ToolId::Interact)),
                Button::plain(None, None, Some(ButtonIconId::Clipboard), ButtonAction::Clipboard),
            ],
        },
        ButtonGroup {
            rev_rows: false,
            buttons: vec![
                Button::plain(None, None, Some(ButtonIconId::Or), ButtonAction::SetGate(GateId::Or)),
                Button::plain(None, None, Some(ButtonIconId::And), ButtonAction::SetGate(GateId::And)),
                Button::plain(None, None, Some(ButtonIconId::Nor), ButtonAction::SetGate(GateId::Nor)),
                Button::plain(None, None, Some(ButtonIconId::Xor), ButtonAction::SetGate(GateId::Xor)),
                Button::plain(None, None, Some(ButtonIconId::Resistor), ButtonAction::SetGate(GateId::Resistor)),
                Button::plain(None, None, Some(ButtonIconId::Capacitor), ButtonAction::SetGate(GateId::Capacitor)),
                Button::plain(None, None, Some(ButtonIconId::Led), ButtonAction::SetGate(GateId::Led)),
                Button::plain(None, None, Some(ButtonIconId::Delay), ButtonAction::SetGate(GateId::Delay)),
                Button::plain(None, None, Some(ButtonIconId::Battery), ButtonAction::SetGate(GateId::Battery)),
            ],
        },
        ButtonGroup {
            rev_rows: true,
            buttons: vec![
                Button::plain(Some("9"), Some(ColorRef::Exact(Color { r: 255, g: 255, b: 255, a: 255 })), None, ButtonAction::SetNtd(Ntd::Nine)),
                Button::plain(Some("8"), Some(ColorRef::Exact(Color { r: 128, g: 128, b: 128, a: 255 })), None, ButtonAction::SetNtd(Ntd::Eight)),
                Button::plain(Some("7"), Some(ColorRef::Exact(Color { r: 128, g: 0, b: 128, a: 255 })), None, ButtonAction::SetNtd(Ntd::Seven)),
                Button::plain(Some("6"), Some(ColorRef::Exact(Color { r: 0, g: 0, b: 255, a: 255 })), None, ButtonAction::SetNtd(Ntd::Six)),
                Button::plain(Some("5"), Some(ColorRef::Exact(Color { r: 0, g: 128, b: 0, a: 255 })), None, ButtonAction::SetNtd(Ntd::Five)),
                Button::plain(Some("4"), Some(ColorRef::Exact(Color { r: 255, g: 255, b: 0, a: 255 })), None, ButtonAction::SetNtd(Ntd::Four)),
                Button::plain(Some("3"), Some(ColorRef::Exact(Color { r: 255, g: 165, b: 0, a: 255 })), None, ButtonAction::SetNtd(Ntd::Three)),
                Button::plain(Some("2"), Some(ColorRef::Exact(Color { r: 255, g: 0, b: 0, a: 255 })), None, ButtonAction::SetNtd(Ntd::Two)),
                Button::plain(Some("1"), Some(ColorRef::Exact(Color { r: 165, g: 42, b: 42, a: 255 })), None, ButtonAction::SetNtd(Ntd::One)),
                Button::plain(Some("0"), Some(ColorRef::Exact(Color { r: 0, g: 0, b: 0, a: 255 })), None, ButtonAction::SetNtd(Ntd::Zero)),
            ],
        },
        ButtonGroup {
            rev_rows: false,
            buttons: vec![
                Button::plain(None, None, Some(ButtonIconId::Settings), ButtonAction::Settings),
            ],
        },
    ];
    proof {
        assert(r@[0].buttons_view().map_values(|b: Button| face(b)) =~= pane_faces()[0]);
        assert(r@[1].buttons_view().map_values(|b: Button| face(b)) =~= pane_faces()[1]);
        assert(r@[2].buttons_view().map_values(|b: Button| face(b)) =~= pane_faces()[2]);
        assert(r@[3].buttons_view().map_values(|b: Button| face(b)) =~= pane_faces()[3]);
    }
    r
}

} // verus!
