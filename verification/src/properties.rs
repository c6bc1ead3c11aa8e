//! What the properties panel tells about the selected tool and gate: an icon,
//! a title and a one-paragraph description.
use crate::gate::{Gate, GateId};
use crate::icons::ButtonIconId;
use crate::tool::ToolId;
use vstd::prelude::*;

verus! {

/// The icon, title and description shown for a tool.
pub open spec fn tool_info(tool: ToolId) -> (ButtonIconId, Seq<char>, Seq<char>) {
    match tool {
        ToolId::Create => (
            ButtonIconId::Pen,
            "Create"@,
            "Place nodes with primary input. Placing or clicking a node automatically begins creating a wire that will connect to the next placed or clicked node."@,
        ),
        ToolId::Erase => (
            ButtonIconId::Erase,
            "Erase"@,
            "Click nodes to delete them. A deleted node will delete all its wires as well."@,
        ),
        ToolId::Edit => (
            ButtonIconId::Edit,
            "Edit"@,
            "Drag nodes with primary input. Replace the \
            gate of the selected node(s) with secondary input."@,
        ),
        ToolId::Interact => (
            ButtonIconId::Interact,
            "Interact"@,
            "Interact with input nodes using primary input to toggle them on and off"@,
        ),
    }
}

/// The icon, title and description shown for a kind of gate.
pub open spec fn gate_info(id: GateId) -> (ButtonIconId, Seq<char>, Seq<char>) {
    match id {
        GateId::Or => (ButtonIconId::Or, "Or"@, "True when one input or more is true."@),
        GateId::And => (
            ButtonIconId::And,
            "And"@,
            "True when every input is true and at least one input exists."@,
        ),
        GateId::Nor => (ButtonIconId::Nor, "Nor"@, "True when every input is false."@),
        GateId::Xor => (ButtonIconId::Xor, "Xor"@, "True when exactly one input is true."@),
        GateId::Resistor => (
            ButtonIconId::Resistor,
            "Resistor"@,
            "True when the number of true inputs exceed the NTD value."@,
        ),
        GateId::Capacitor => (
            ButtonIconId::Capacitor,
            "Capacitor"@,
            "Stores the quantity of true inputs up to a maximum of the NTD value, losing charge every tick that no input is true. True as long as the charge is not zero."@,
        ),
        GateId::Led => (
            ButtonIconId::Led,
            "Led"@,
            "Like Or, but in Inspect mode, fills its cell with the color of the NTD value when true."@,
        ),
        GateId::Delay => (
            ButtonIconId::Delay,
            "Delay"@,
            "Like Or, but gives the previous output that would have been given the previous tick."@,
        ),
        GateId::Battery => (ButtonIconId::Battery, "Battery"@, "Always true."@),
    }
}

/// The icon, title and description of `tool`.
pub fn tool_data(tool: ToolId) -> (r: (ButtonIconId, &'static str, &'static str))
    ensures
        (r.0, r.1@, r.2@) == tool_info(tool),
{
    match tool {
        ToolId::Create => (
            ButtonIconId::Pen,
            "Create",
            "Place nodes with primary input. Placing or clicking a node automatically begins creating a wire that will connect to the next placed or clicked node.",
        ),
        ToolId::Erase => (
            ButtonIconId::Erase,
            "Erase",
            "Click nodes to delete them. A deleted node will delete all its wires as well.",
        ),
        ToolId::Edit => (
            ButtonIconId::Edit,
            "Edit",
            "Drag nodes with primary input. Replace the \
            gate of the selected node(s) with secondary input.",
        ),
        ToolId::Interact => (
            ButtonIconId::Interact,
            "Interact",
            "Interact with input nodes using primary input to toggle them on and off",
        ),
    }
}

/// The icon, title and description of `gate`; they depend only on its kind.
pub fn gate_data(gate: Gate) -> (r: (ButtonIconId, &'static str, &'static str))
    ensures
        (r.0, r.1@, r.2@) == gate_info(gate.spec_id()),
{
    match gate {
        Gate::Or => (ButtonIconId::Or, "Or", "True when one input or more is true."),
        Gate::And => (
            ButtonIconId::And,
            "And",
            "True when every input is true and at least one input exists.",
        ),
        Gate::Nor => (ButtonIconId::Nor, "Nor", "True when every input is false."),
        Gate::Xor => (ButtonIconId::Xor, "Xor", "True when exactly one input is true."),
        Gate::Resistor { .. } => (
            ButtonIconId::Resistor,
            "Resistor",
            "True when the number of true inputs exceed the NTD value.",
        ),
        Gate::Capacitor { .. } => (
            ButtonIconId::Capacitor,
            "Capacitor",
            "Stores the quantity of true inputs up to a maximum of the NTD value, losing charge every tick that no input is true. True as long as the charge is not zero.",
        ),
        Gate::Led { .. } => (
            ButtonIconId::Led,
            "Led",
            "Like Or, but in Inspect mode, fills its cell with the color of the NTD value when true.",
        ),
        Gate::Delay => (
            ButtonIconId::Delay,
            "Delay",
            "Like Or, but gives the previous output that would have been given the previous tick.",
        ),
        Gate::Battery => (ButtonIconId::Battery, "Battery", "Always true."),
    }
}

} // verus!
