//! The events of one frame that the editor acts on, and the choices its hotkeys make:
//! which gate, which tool, and how much of the tool pane to show.
use crate::gate::GateId;
use crate::input::{
    first_starting, first_starting_of, lemma_first_starting_picks, picks_first_starting, source_event, Button, Event, EventSource, InputState, Key,
};
use crate::tool::ToolId;
use vstd::prelude::*;

verus! {

/// The key bound to each kind of gate selects that kind: on a frame, the kind selected
/// is one whose key was pressed, with no key pressed that comes before it in the order
/// or, and, nor, xor, resistor, capacitor, LED, delay, battery; nothing is selected
/// only when none of these keys was pressed.
pub proof fn lemma_gate_hotkeys(inp: Inputs)
    ensures
        forall|id: GateId|
            first_starting_of(inp.gate_keys()) == Some(id) ==> inp.hotkey_of(id) == Event::Starting,
        forall|id: GateId, other: GateId|
            first_starting_of(inp.gate_keys()) == Some(id) && gate_rank(other) < gate_rank(id)
                ==> inp.hotkey_of(other) != Event::Starting,
        (first_starting_of(inp.gate_keys()) is None) == forall|id: GateId|
            inp.hotkey_of(id) != Event::Starting,
{
    let keys = inp.gate_keys();
    lemma_first_starting_picks(keys);
    assert forall|id: GateId| gate_rank(id) < keys.len() && #[trigger] keys[gate_rank(id) as int] == (
        inp.hotkey_of(id),
        id,
    ) by {}
    if forall|id: GateId| inp.hotkey_of(id) != Event::Starting {
        assert forall|i: int| 0 <= i < keys.len() implies keys[i].0 != Event::Starting by {
            assert(keys[gate_rank(keys[i].1) as int] == (inp.hotkey_of(keys[i].1), keys[i].1));
        }
    }
}

/// Where a kind stands in the order in which the keys of the kinds are looked at.
pub open spec fn gate_rank(id: GateId) -> nat {
    match id {
        GateId::Or => 0,
        GateId::And => 1,
        GateId::Nor => 2,
        GateId::Xor => 3,
        GateId::Resistor => 4,
        GateId::Capacitor => 5,
        GateId::Led => 6,
        GateId::Delay => 7,
        GateId::Battery => 8,
    }
}

/// Every tool hotkey chooses its own tool: the first pressed of the create, erase, edit
/// and interact hotkeys, and none when none of them was pressed.
pub proof fn lemma_tool_hotkeys(inp: Inputs)
    ensures
        (inp.create_tool_hotkey == Event::Starting) == (first_starting_of(inp.tool_keys()) == Some(ToolId::Create)),
        (inp.create_tool_hotkey != Event::Starting && inp.erase_tool_hotkey == Event::Starting) == (first_starting_of(inp.tool_keys()) == Some(ToolId::Erase)),
        (inp.create_tool_hotkey != Event::Starting && inp.erase_tool_hotkey != Event::Starting && inp.edit_tool_hotkey == Event::Starting) == (first_starting_of(inp.tool_keys()) == Some(ToolId::Edit)),
        (inp.create_tool_hotkey != Event::Starting && inp.erase_tool_hotkey != Event::Starting && inp.edit_tool_hotkey != Event::Starting && inp.interact_tool_hotkey == Event::Starting) == (first_starting_of(inp.tool_keys()) == Some(ToolId::Interact)),
        (inp.create_tool_hotkey != Event::Starting && inp.erase_tool_hotkey != Event::Starting && inp.edit_tool_hotkey != Event::Starting && inp.interact_tool_hotkey != Event::Starting) == (first_starting_of(inp.tool_keys()) is None),
{
    lemma_first_starting_picks(inp.tool_keys());
}

/// The tool pane hotkeys ask for their own view of the pane: hiding first, then
/// collapsing, then expanding, and nothing when none was pressed.
pub proof fn lemma_toolpane_hotkeys(inp: Inputs)
    ensures
        (inp.hide_toolpane == Event::Starting) == (first_starting_of(inp.toolpane_keys()) == Some(Visibility::Hidden)),
        (inp.hide_toolpane != Event::Starting && inp.collapse_toolpane == Event::Starting) == (first_starting_of(inp.toolpane_keys()) == Some(Visibility::Collapsed)),
        (inp.hide_toolpane != Event::Starting && inp.collapse_toolpane != Event::Starting && inp.expand_toolpane == Event::Starting) == (first_starting_of(inp.toolpane_keys()) == Some(Visibility::Expanded)),
        (inp.hide_toolpane != Event::Starting && inp.collapse_toolpane != Event::Starting && inp.expand_toolpane != Event::Starting) == (first_starting_of(inp.toolpane_keys()) is None),
{
    lemma_first_starting_picks(inp.toolpane_keys());
}

/// How much of a panel is shown.
#[derive(Debug, Clone, Copy, PartialEq, Eq, Structural, Hash)]
pub enum Visibility {
    Expanded,
    Collapsed,
    Hidden,
}

impl Visibility {
    /// A panel is shown whole unless told otherwise.
    pub fn default() -> (r: Visibility)
        ensures
            r == Visibility::Expanded,
    {
        Visibility::Expanded
    }
}

/// The state of each control of the editor on one frame (the pointer and the scroll
/// axes are read by the caller).
#[derive(Debug, Clone, Copy, PartialEq, Eq, Structural)]
pub struct Inputs {
    pub primary: Event,
    pub secondary: Event,
    pub alternate: Event,
    pub parallel: Event,
    pub or_gate_hotkey: Event,
    pub and_gate_hotkey: Event,
    pub nor_gate_hotkey: Event,
    pub xor_gate_hotkey: Event,
    pub resistor_gate_hotkey: Event,
    pub capacitor_gate_hotkey: Event,
    pub led_gate_hotkey: Event,
    pub delay_gate_hotkey: Event,
    pub battery_gate_hotkey: Event,
    pub create_tool_hotkey: Event,
    pub erase_tool_hotkey: Event,
    pub edit_tool_hotkey: Event,
    pub interact_tool_hotkey: Event,
    pub hide_toolpane: Event,
    pub collapse_toolpane: Event,
    pub expand_toolpane: Event,
}

impl Inputs {
    /// The event of the key bound to the kind `id`.
    pub open spec fn hotkey_of(&self, id: GateId) -> Event {
        match id {
            GateId::Or => self.or_gate_hotkey,
            GateId::And => self.and_gate_hotkey,
            GateId::Nor => self.nor_gate_hotkey,
            GateId::Xor => self.xor_gate_hotkey,
            GateId::Resistor => self.resistor_gate_hotkey,
            GateId::Capacitor => self.capacitor_gate_hotkey,
            GateId::Led => self.led_gate_hotkey,
            GateId::Delay => self.delay_gate_hotkey,
            GateId::Battery => self.battery_gate_hotkey,
        }
    }

    /// The hotkeys of gates, in the order they are looked at, each with its gate.
    pub open spec fn gate_keys(&self) -> Seq<(Event, GateId)> {
        seq![
            (self.or_gate_hotkey, GateId::Or),
            (self.and_gate_hotkey, GateId::And),
            (self.nor_gate_hotkey, GateId::Nor),
            (self.xor_gate_hotkey, GateId::Xor),
            (self.resistor_gate_hotkey, GateId::Resistor),
            (self.capacitor_gate_hotkey, GateId::Capacitor),
            (self.led_gate_hotkey, GateId::Led),
            (self.delay_gate_hotkey, GateId::Delay),
            (self.battery_gate_hotkey, GateId::Battery),
        ]
    }

    /// The tool hotkeys, in the order they are looked at, each with its tool.
    pub open spec fn tool_keys(&self) -> Seq<(Event, ToolId)> {
        seq![
            (self.create_tool_hotkey, ToolId::Create),
            (self.erase_tool_hotkey, ToolId::Erase),
            (self.edit_tool_hotkey, ToolId::Edit),
            (self.interact_tool_hotkey, ToolId::Interact),
        ]
    }

    /// The tool pane hotkeys, in the order they are looked at.
    pub open spec fn toolpane_keys(&self) -> Seq<(Event, Visibility)> {
        seq![
            (self.hide_toolpane, Visibility::Hidden),
            (self.collapse_toolpane, Visibility::Collapsed),
            (self.expand_toolpane, Visibility::Expanded),
        ]
    }

    /// Which gate's hotkey was pressed on this frame (if several were, the first in
    /// the order of `gate_keys`).
    pub fn gate(&self) -> (r: Option<GateId>)
        ensures
            picks_first_starting(self.gate_keys(), r),
            r == first_starting_of(self.gate_keys()),
    {
        let keys = vec![
            (self.or_gate_hotkey, GateId::Or),
            (self.and_gate_hotkey, GateId::And),
            (self.nor_gate_hotkey, GateId::Nor),
            (self.xor_gate_hotkey, GateId::Xor),
            (self.resistor_gate_hotkey, GateId::Resistor),
            (self.capacitor_gate_hotkey, GateId::Capacitor),
            (self.led_gate_hotkey, GateId::Led),
            (self.delay_gate_hotkey, GateId::Delay),
            (self.battery_gate_hotkey, GateId::Battery),
        ];
        assert(keys@ =~= self.gate_keys());
        first_starting(keys.as_slice())
    }

    /// The tool whose hotkey was pressed on this frame (the first in the order of the
    /// tools if several were).
    pub fn tool(&self) -> (r: Option<ToolId>)
        ensures
            picks_first_starting(self.tool_keys(), r),
            r == first_starting_of(self.tool_keys()),
    {
        let keys = vec![
            (self.create_tool_hotkey, ToolId::Create),
            (self.erase_tool_hotkey, ToolId::Erase),
            (self.edit_tool_hotkey, ToolId::Edit),
            (self.interact_tool_hotkey, ToolId::Interact),
        ];
        assert(keys@ =~= self.tool_keys());
        first_starting(keys.as_slice())
    }

    /// How the tool pane is to be shown, if one of its hotkeys was pressed on this
    /// frame (hiding first, then collapsing, then expanding).
    pub fn toolpane_vis(&self) -> (r: Option<Visibility>)
        ensures
            picks_first_starting(self.toolpane_keys(), r),
            r == first_starting_of(self.toolpane_keys()),
    {
        let keys = vec![
            (self.hide_toolpane, Visibility::Hidden),
            (self.collapse_toolpane, Visibility::Collapsed),
            (self.expand_toolpane, Visibility::Expanded),
        ];
        assert(keys@ =~= self.toolpane_keys());
        first_starting(keys.as_slice())
    }
}

/// `s` is the control-key binding of `key`: `All` of two parts, `Any` of the left and right
/// control keys, then `key` (read by `source_active`, where `All` holds when some part
/// holds and `Any` when every part does).
pub open spec fn is_ctrl_with(s: EventSource, key: Key) -> bool {
    match s {
        EventSource::All(items) => {
            &&& items@.len() == 2
            &&& match items@[0] {
                EventSource::Any(ctrl) => ctrl@ == seq![
                    EventSource::Keyboard(Key::LeftControl),
                    EventSource::Keyboard(Key::RightControl),
                ],
                _ => false,
            }
            &&& items@[1] == EventSource::Keyboard(key)
        },
        _ => false,
    }
}

/// Where each control of the editor is read from.
#[derive(Debug)]
pub struct Bindings {
    pub primary: EventSource,
    pub secondary: EventSource,
    pub alternate: EventSource,
    pub parallel: EventSource,
    pub or_gate_hotkey: EventSource,
    pub and_gate_hotkey: EventSource,
    pub nor_gate_hotkey: EventSource,
    pub xor_gate_hotkey: EventSource,
    pub resistor_gate_hotkey: EventSource,
    pub capacitor_gate_hotkey: EventSource,
    pub led_gate_hotkey: EventSource,
    pub delay_gate_hotkey: EventSource,
    pub battery_gate_hotkey: EventSource,
    pub create_tool_hotkey: EventSource,
    pub erase_tool_hotkey: EventSource,
    pub edit_tool_hotkey: EventSource,
    pub interact_tool_hotkey: EventSource,
    pub hide_toolpane: EventSource,
    pub collapse_toolpane: EventSource,
    pub expand_toolpane: EventSource,
}

/// Either control key held together with `key`.
fn ctrl_with(key: Key) -> (r: EventSource)
    ensures
        is_ctrl_with(r, key),
{
    let ctrl = vec![EventSource::Keyboard(Key::LeftControl), EventSource::Keyboard(Key::RightControl)];
    let r = EventSource::All(vec![EventSource::Any(ctrl), EventSource::Keyboard(key)]);
    r
}

impl Bindings {
    /// The usual bindings: the left and right mouse buttons, left control and left shift
    /// for the four main controls; the digits one to nine for each gate in turn; `B`,
    /// `X`, `V` and `F` for the tools; and control with `B` for each tool pane setting.
    pub fn default() -> (r: Bindings)
        ensures
            r.primary == EventSource::Mouse(Button::Left),
            r.secondary == EventSource::Mouse(Button::Right),
            r.alternate == EventSource::Keyboard(Key::LeftControl),
            r.parallel == EventSource::Keyboard(Key::LeftShift),
            r.or_gate_hotkey == EventSource::Keyboard(Key::One),
            r.and_gate_hotkey == EventSource::Keyboard(Key::Two),
            r.nor_gate_hotkey == EventSource::Keyboard(Key::Three),
            r.xor_gate_hotkey == EventSource::Keyboard(Key::Four),
            r.resistor_gate_hotkey == EventSource::Keyboard(Key::Five),
            r.capacitor_gate_hotkey == EventSource::Keyboard(Key::Six),
            r.led_gate_hotkey == EventSource::Keyboard(Key::Seven),
            r.delay_gate_hotkey == EventSource::Keyboard(Key::Eight),
            r.battery_gate_hotkey == EventSource::Keyboard(Key::Nine),
            r.create_tool_hotkey == EventSource::Keyboard(Key::B),
            r.erase_tool_hotkey == EventSource::Keyboard(Key::X),
            r.edit_tool_hotkey == EventSource::Keyboard(Key::V),
            r.interact_tool_hotkey == EventSource::Keyboard(Key::F),
            is_ctrl_with(r.hide_toolpane, Key::B),
            is_ctrl_with(r.collapse_toolpane, Key::B),
            is_ctrl_with(r.expand_toolpane, Key::B),
    {
        Bindings {
            primary: EventSource::Mouse(Button::Left),
            secondary: EventSource::Mouse(Button::Right),
            alternate: EventSource::Keyboard(Key::LeftControl),
            parallel: EventSource::Keyboard(Key::LeftShift),
            or_gate_hotkey: EventSource::Keyboard(Key::One),
            and_gate_hotkey: EventSource::Keyboard(Key::Two),
            nor_gate_hotkey: EventSource::Keyboard(Key::Three),
            xor_gate_hotkey: EventSource::Keyboard(Key::Four),
            resistor_gate_hotkey: EventSource::Keyboard(Key::Five),
            capacitor_gate_hotkey: EventSource::Keyboard(Key::Six),
            led_gate_hotkey: EventSource::Keyboard(Key::Seven),
            delay_gate_hotkey: EventSource::Keyboard(Key::Eight),
            battery_gate_hotkey: EventSource::Keyboard(Key::Nine),
            create_tool_hotkey: EventSource::Keyboard(Key::B),
            erase_tool_hotkey: EventSource::Keyboard(Key::X),
            edit_tool_hotkey: EventSource::Keyboard(Key::V),
            interact_tool_hotkey: EventSource::Keyboard(Key::F),
            hide_toolpane: ctrl_with(Key::B),
            collapse_toolpane: ctrl_with(Key::B),
            expand_toolpane: ctrl_with(Key::B),
        }
    }

    /// Reads every control on this frame.
    pub fn get_all(&self, input: &InputState) -> (r: Inputs)
        ensures
            r.primary == source_event(self.primary, *input),
            r.secondary == source_event(self.secondary, *input),
            r.alternate == source_event(self.alternate, *input),
            r.parallel == source_event(self.parallel, *input),
            r.or_gate_hotkey == source_event(self.or_gate_hotkey, *input),
            r.and_gate_hotkey == source_event(self.and_gate_hotkey, *input),
            r.nor_gate_hotkey == source_event(self.nor_gate_hotkey, *input),
            r.xor_gate_hotkey == source_event(self.xor_gate_hotkey, *input),
            r.resistor_gate_hotkey == source_event(self.resistor_gate_hotkey, *input),
            r.capacitor_gate_hotkey == source_event(self.capacitor_gate_hotkey, *input),
            r.led_gate_hotkey == source_event(self.led_gate_hotkey, *input),
            r.delay_gate_hotkey == source_event(self.delay_gate_hotkey, *input),
            r.battery_gate_hotkey == source_event(self.battery_gate_hotkey, *input),
            r.create_tool_hotkey == source_event(self.create_tool_hotkey, *input),
            r.erase_tool_hotkey == source_event(self.erase_tool_hotkey, *input),
            r.edit_tool_hotkey == source_event(self.edit_tool_hotkey, *input),
            r.interact_tool_hotkey == source_event(self.interact_tool_hotkey, *input),
            r.hide_toolpane == source_event(self.hide_toolpane, *input),
            r.collapse_toolpane == source_event(self.collapse_toolpane, *input),
            r.expand_toolpane == source_event(self.expand_toolpane, *input),
    {
        Inputs {
            primary: self.primary.get(input),
            secondary: self.secondary.get(input),
            alternate: self.alternate.get(input),
            parallel: self.parallel.get(input),
            or_gate_hotkey: self.or_gate_hotkey.get(input),
            and_gate_hotkey: self.and_gate_hotkey.get(input),
            nor_gate_hotkey: self.nor_gate_hotkey.get(input),
            xor_gate_hotkey: self.xor_gate_hotkey.get(input),
            resistor_gate_hotkey: self.resistor_gate_hotkey.get(input),
            capacitor_gate_hotkey: self.capacitor_gate_hotkey.get(input),
            led_gate_hotkey: self.led_gate_hotkey.get(input),
            delay_gate_hotkey: self.delay_gate_hotkey.get(input),
            battery_gate_hotkey: self.battery_gate_hotkey.get(input),
            create_tool_hotkey: self.create_tool_hotkey.get(input),
            erase_tool_hotkey: self.erase_tool_hotkey.get(input),
            edit_tool_hotkey: self.edit_tool_hotkey.get(input),
            interact_tool_hotkey: self.interact_tool_hotkey.get(input),
            hide_toolpane: self.hide_toolpane.get(input),
            collapse_toolpane: self.collapse_toolpane.get(input),
            expand_toolpane: self.expand_toolpane.get(input),
        }
    }
}

} // verus!
