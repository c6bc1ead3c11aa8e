//! Where each icon lies on its sheet: the cell of a gate's or a button's icon, the
//! rectangle of that cell for a given icon width, and which sheet suits a zoom level.
use crate::gate::GateId;
use crate::ivec::{ivec, IRect, IVec2};
use vstd::prelude::*;

verus! {

/// The sheets of node icons at one size.
#[derive(Debug, Clone, Copy, PartialEq, Eq, Structural, Hash)]
pub enum NodeIconSheetId {
    Basic,
    Background,
    Highlight,
    Ntd,
}

impl NodeIconSheetId {
    /// The default sheet is `Basic`.
    pub fn default() -> (r: NodeIconSheetId)
        ensures
            r == NodeIconSheetId::Basic,
    {
        NodeIconSheetId::Basic
    }
}

/// The sizes node icons come in.
#[derive(Debug, Clone, Copy, PartialEq, Eq, Structural, Hash)]
pub enum NodeIconSheetSetId {
    X8,
    X16,
    X32,
}

impl NodeIconSheetSetId {
    /// The width of an icon of this size.
    pub fn icon_width(self) -> (r: i32)
        ensures
            r == match self {
                NodeIconSheetSetId::X8 => 8i32,
                NodeIconSheetSetId::X16 => 16i32,
                NodeIconSheetSetId::X32 => 32i32,
            },
    {
        match self {
            NodeIconSheetSetId::X8 => 8,
            NodeIconSheetSetId::X16 => 16,
            NodeIconSheetSetId::X32 => 32,
        }
    }

    /// The size for a zoom exponent: none below zero, then 8, 16, and 32 from two on.
    pub fn from_zoom_exp(zoom_exp: i32) -> (r: Option<NodeIconSheetSetId>)
        ensures
            zoom_exp < 0 ==> r is None,
            zoom_exp == 0 ==> r == Some(NodeIconSheetSetId::X8),
            zoom_exp == 1 ==> r == Some(NodeIconSheetSetId::X16),
            zoom_exp >= 2 ==> r == Some(NodeIconSheetSetId::X32),
    {
        if zoom_exp < 0 {
            None
        } else if zoom_exp == 0 {
            Some(NodeIconSheetSetId::X8)
        } else if zoom_exp == 1 {
            Some(NodeIconSheetSetId::X16)
        } else {
            Some(NodeIconSheetSetId::X32)
        }
    }
}

/// The sizes button icons come in.
#[derive(Debug, Clone, Copy, PartialEq, Eq, Structural, Hash)]
pub enum ButtonIconSheetId {
    X16,
    X32,
}

impl ButtonIconSheetId {
    /// The default size is 16.
    pub fn default() -> (r: ButtonIconSheetId)
        ensures
            r == ButtonIconSheetId::X16,
    {
        ButtonIconSheetId::X16
    }

    /// The width of an icon of this size.
    pub fn icon_width(self) -> (r: i32)
        ensures
            r == match self {
                ButtonIconSheetId::X16 => 16i32,
                ButtonIconSheetId::X32 => 32i32,
            },
    {
        match self {
            ButtonIconSheetId::X16 => 16,
            ButtonIconSheetId::X32 => 32,
        }
    }
}

/// The icons of the buttons.
#[derive(Debug, Clone, Copy, PartialEq, Eq, Structural, Hash)]
pub enum ButtonIconId {
    Pen,
    Erase,
    Edit,
    Interact,
    Or,
    And,
    Nor,
    Xor,
    Resistor,
    Capacitor,
    Led,
    Delay,
    Battery,
    BlueprintSelect,
    Clipboard,
    Settings,
}

/// The cell of a gate's icon on a node icon sheet.
pub open spec fn gate_icon_cell(id: GateId) -> IVec2 {
    match id {
        GateId::Or => ivec(0, 0),
        GateId::Nor => ivec(1, 0),
        GateId::And => ivec(2, 0),
        GateId::Xor => ivec(3, 0),
        GateId::Resistor => ivec(0, 1),
        GateId::Capacitor => ivec(1, 1),
        GateId::Led => ivec(2, 1),
        GateId::Delay => ivec(3, 1),
        GateId::Battery => ivec(0, 2),
    }
}

/// The cell of a button's icon on a button icon sheet.
pub open spec fn button_icon_cell(id: ButtonIconId) -> IVec2 {
    match id {
        ButtonIconId::Pen => ivec(2, 0),
        ButtonIconId::Erase => ivec(2, 1),
        ButtonIconId::Edit => ivec(3, 0),
        ButtonIconId::Interact => ivec(3, 1),
        ButtonIconId::Or => ivec(0, 0),
        ButtonIconId::And => ivec(1, 0),
        ButtonIconId::Nor => ivec(0, 1),
        ButtonIconId::Xor => ivec(1, 1),
        ButtonIconId::Resistor => ivec(0, 2),
        ButtonIconId::Capacitor => ivec(1, 2),
        ButtonIconId::Led => ivec(0, 3),
        ButtonIconId::Delay => ivec(1, 3),
        ButtonIconId::Battery => ivec(0, 4),
        ButtonIconId::BlueprintSelect => ivec(2, 2),
        ButtonIconId::Clipboard => ivec(3, 2),
        ButtonIconId::Settings => ivec(2, 3),
    }
}

/// The square of side `w` at cell `c` of a sheet of such squares.
pub open spec fn cell_rect(c: IVec2, w: int) -> IRect {
    IRect { x: (c.x * w) as i32, y: (c.y * w) as i32, w: w as i32, h: w as i32 }
}

/// The rectangle of cell `c` for icons of width `w`; the corner must fit in `i32`.
fn cell_rect_of(c: IVec2, w: i32) -> (r: IRect)
    requires
        i32::MIN <= c.x * w <= i32::MAX,
        i32::MIN <= c.y * w <= i32::MAX,
    ensures
        r == cell_rect(c, w as int),
{
    IRect::new(c.x * w, c.y * w, w, w)
}

impl GateId {
    /// The cell of this gate's icon on a node icon sheet.
    pub fn icon_cell(self) -> (r: IVec2)
        ensures
            r == gate_icon_cell(self),
    {
        match self {
            GateId::Or => IVec2::new(0, 0),
            GateId::Nor => IVec2::new(1, 0),
            GateId::And => IVec2::new(2, 0),
            GateId::Xor => IVec2::new(3, 0),
            GateId::Resistor => IVec2::new(0, 1),
            GateId::Capacitor => IVec2::new(1, 1),
            GateId::Led => IVec2::new(2, 1),
            GateId::Delay => IVec2::new(3, 1),
            GateId::Battery => IVec2::new(0, 2),
        }
    }

    /// The rectangle of this gate's icon for icons of width `icon_width`.
    pub fn icon_cell_irec(self, icon_width: i32) -> (r: IRect)
        requires
            i32::MIN <= gate_icon_cell(self).x * icon_width <= i32::MAX,
            i32::MIN <= gate_icon_cell(self).y * icon_width <= i32::MAX,
        ensures
            r == cell_rect(gate_icon_cell(self), icon_width as int),
    {
        cell_rect_of(self.icon_cell(), icon_width)
    }
}

impl ButtonIconId {
    /// The cell of the button's icon on a button icon sheet.
    pub fn icon_cell(self) -> (r: IVec2)
        ensures
            r == button_icon_cell(self),
    {
        match self {
            ButtonIconId::Pen => IVec2::new(2, 0),
            ButtonIconId::Erase => IVec2::new(2, 1),
            ButtonIconId::Edit => IVec2::new(3, 0),
            ButtonIconId::Interact => IVec2::new(3, 1),
            ButtonIconId::Or => IVec2::new(0, 0),
            ButtonIconId::And => IVec2::new(1, 0),
            ButtonIconId::Nor => IVec2::new(0, 1),
            ButtonIconId::Xor => IVec2::new(1, 1),
            ButtonIconId::Resistor => IVec2::new(0, 2),
            ButtonIconId::Capacitor => IVec2::new(1, 2),
            ButtonIconId::Led => IVec2::new(0, 3),
            ButtonIconId::Delay => IVec2::new(1, 3),
            ButtonIconId::Battery => IVec2::new(0, 4),
            ButtonIconId::BlueprintSelect => IVec2::new(2, 2),
            ButtonIconId::Clipboard => IVec2::new(3, 2),
            ButtonIconId::Settings => IVec2::new(2, 3),
        }
    }

    /// The rectangle of the button's icon for icons of width `icon_width`.
    pub fn icon_cell_irec(self, icon_width: i32) -> (r: IRect)
        requires
            i32::MIN <= button_icon_cell(self).x * icon_width <= i32::MAX,
            i32::MIN <= button_icon_cell(self).y * icon_width <= i32::MAX,
        ensures
            r == cell_rect(button_icon_cell(self), icon_width as int),
    {
        cell_rect_of(self.icon_cell(), icon_width)
    }
}

} // verus!
