//! The colours of a theme, and what colour a colour reference stands for.
use crate::rich_text::{ColorId, ColorRef};
use crate::term::Color;
use vstd::prelude::*;

verus! {

/// The colours of a theme, one per theme colour name; the fonts, paddings and icon
/// sheets that go with them are kept by the caller.
#[derive(Debug, Clone, Copy, PartialEq, Eq)]
pub struct Theme {
    pub background: Color,
    pub background1: Color,
    pub background2: Color,
    pub background3: Color,
    pub foreground3: Color,
    pub foreground2: Color,
    pub foreground1: Color,
    pub foreground: Color,
    pub input: Color,
    pub output: Color,
    pub available: Color,
    pub interact: Color,
    pub active: Color,
    pub error: Color,
    pub destructive: Color,
    pub special: Color,
    pub hyperref: Color,
    pub dead_link: Color,
    pub caution: Color,
    pub blueprints_background: Color,
    pub resistance: [Color; 10],
}

/// The colour `theme` gives the name `id`.
pub open spec fn theme_color(theme: Theme, id: ColorId) -> Color {
    match id {
        ColorId::Background => theme.background,
        ColorId::Background1 => theme.background1,
        ColorId::Background2 => theme.background2,
        ColorId::Background3 => theme.background3,
        ColorId::Foreground3 => theme.foreground3,
        ColorId::Foreground2 => theme.foreground2,
        ColorId::Foreground1 => theme.foreground1,
        ColorId::Foreground => theme.foreground,
        ColorId::Input => theme.input,
        ColorId::Output => theme.output,
        ColorId::Available => theme.available,
        ColorId::Interact => theme.interact,
        ColorId::Active => theme.active,
        ColorId::Error => theme.error,
        ColorId::Destructive => theme.destructive,
        ColorId::Special => theme.special,
        ColorId::HyperRef => theme.hyperref,
        ColorId::DeadLink => theme.dead_link,
        ColorId::Caution => theme.caution,
        ColorId::BlueprintsBackground => theme.blueprints_background,
        ColorId::Resistance0 => theme.resistance@[0],
        ColorId::Resistance1 => theme.resistance@[1],
        ColorId::Resistance2 => theme.resistance@[2],
        ColorId::Resistance3 => theme.resistance@[3],
        ColorId::Resistance4 => theme.resistance@[4],
        ColorId::Resistance5 => theme.resistance@[5],
        ColorId::Resistance6 => theme.resistance@[6],
        ColorId::Resistance7 => theme.resistance@[7],
        ColorId::Resistance8 => theme.resistance@[8],
        ColorId::Resistance9 => theme.resistance@[9],
    }
}

/// The colour `r` stands for under `theme`.
pub open spec fn resolved(r: ColorRef, theme: Theme) -> Color {
    match r {
        ColorRef::Theme(id) => theme_color(theme, id),
        ColorRef::Exact(c) => c,
    }
}

/// The resistor colour code, zero to nine.
pub open spec fn resistance_colors() -> Seq<Color> {
    seq![
        Color { r: 0, g: 0, b: 0, a: 255 },
        Color { r: 165, g: 42, b: 42, a: 255 },
        Color { r: 255, g: 0, b: 0, a: 255 },
        Color { r: 255, g: 165, b: 0, a: 255 },
        Color { r: 255, g: 255, b: 0, a: 255 },
        Color { r: 0, g: 128, b: 0, a: 255 },
        Color { r: 0, g: 0, b: 255, a: 255 },
        Color { r: 128, g: 0, b: 128, a: 255 },
        Color { r: 128, g: 128, b: 128, a: 255 },
        Color { r: 255, g: 255, b: 255, a: 255 },
    ]
}

/// The colours of the dark theme.
pub open spec fn is_dark_theme(t: Theme) -> bool {
    &&& t.background == Color { r: 0, g: 0, b: 0, a: 255 }
    &&& t.background1 == Color { r: 28, g: 26, b: 41, a: 255 }
    &&& t.background2 == Color { r: 75, g: 78, b: 94, a: 255 }
    &&& t.background3 == Color { r: 116, g: 125, b: 237, a: 255 }
    &&& t.foreground3 == Color { r: 122, g: 118, b: 118, a: 255 }
    &&& t.foreground2 == Color { r: 148, g: 150, b: 166, a: 255 }
    &&& t.foreground1 == Color { r: 232, g: 234, b: 255, a: 255 }
    &&& t.foreground == Color { r: 255, g: 255, b: 255, a: 255 }
    &&& t.input == Color { r: 128, g: 106, b: 217, a: 255 }
    &&& t.output == Color { r: 207, g: 107, b: 35, a: 255 }
    &&& t.available == Color { r: 26, g: 68, b: 161, a: 255 }
    &&& t.interact == Color { r: 255, g: 255, b: 0, a: 255 }
    &&& t.active == Color { r: 212, g: 25, b: 25, a: 255 }
    &&& t.error == Color { r: 255, g: 0, b: 255, a: 255 }
    &&& t.destructive == Color { r: 219, g: 18, b: 18, a: 255 }
    &&& t.special == Color { r: 238, g: 130, b: 238, a: 255 }
    &&& t.hyperref == Color { r: 116, g: 125, b: 237, a: 255 }
    &&& t.dead_link == Color { r: 148, g: 150, b: 166, a: 255 }
    &&& t.caution == Color { r: 250, g: 222, b: 37, a: 255 }
    &&& t.blueprints_background == Color { r: 10, g: 15, b: 30, a: 255 }
    &&& t.resistance@ == resistance_colors()
}

/// The colours of the light theme: the resistor colours are the dark theme's.
pub open spec fn is_light_theme(t: Theme) -> bool {
    &&& t.background == Color { r: 255, g: 255, b: 255, a: 255 }
    &&& t.background1 == Color { r: 226, g: 227, b: 227, a: 255 }
    &&& t.background2 == Color { r: 188, g: 188, b: 188, a: 255 }
    &&& t.background3 == Color { r: 128, g: 128, b: 128, a: 255 }
    &&& t.foreground3 == Color { r: 122, g: 118, b: 118, a: 255 }
    &&& t.foreground2 == Color { r: 100, g: 100, b: 100, a: 255 }
    &&& t.foreground1 == Color { r: 75, g: 75, b: 75, a: 255 }
    &&& t.foreground == Color { r: 40, g: 40, b: 40, a: 255 }
    &&& t.input == Color { r: 128, g: 106, b: 217, a: 255 }
    &&& t.output == Color { r: 207, g: 107, b: 35, a: 255 }
    &&& t.available == Color { r: 26, g: 115, b: 232, a: 255 }
    &&& t.interact == Color { r: 231, g: 240, b: 253, a: 255 }
    &&& t.active == Color { r: 0, g: 0, b: 255, a: 255 }
    &&& t.error == Color { r: 255, g: 0, b: 255, a: 255 }
    &&& t.destructive == Color { r: 219, g: 18, b: 18, a: 255 }
    &&& t.special == Color { r: 135, g: 60, b: 190, a: 255 }
    &&& t.hyperref == Color { r: 0, g: 0, b: 255, a: 255 }
    &&& t.dead_link == Color { r: 255, g: 228, b: 196, a: 255 }
    &&& t.caution == Color { r: 250, g: 222, b: 37, a: 255 }
    &&& t.blueprints_background == Color { r: 250, g: 250, b: 255, a: 255 }
    &&& t.resistance@ == resistance_colors()
}

/// The resistor colour code as an array.
fn resistance_array() -> (r: [Color; 10])
    ensures
        r@ == resistance_colors(),
{
    let r = [
        Color { r: 0, g: 0, b: 0, a: 255 },
        Color { r: 165, g: 42, b: 42, a: 255 },
        Color { r: 255, g: 0, b: 0, a: 255 },
        Color { r: 255, g: 165, b: 0, a: 255 },
        Color { r: 255, g: 255, b: 0, a: 255 },
        Color { r: 0, g: 128, b: 0, a: 255 },
        Color { r: 0, g: 0, b: 255, a: 255 },
        Color { r: 128, g: 0, b: 128, a: 255 },
        Color { r: 128, g: 128, b: 128, a: 255 },
        Color { r: 255, g: 255, b: 255, a: 255 },
    ];
    assert(r@ =~= resistance_colors());
    r
}

impl Theme {
    /// The dark theme.
    pub fn dark_theme() -> (r: Theme)
        ensures
            is_dark_theme(r),
    {
        Theme {
            background: Color { r: 0, g: 0, b: 0, a: 255 },
            background1: Color { r: 28, g: 26, b: 41, a: 255 },
            background2: Color { r: 75, g: 78, b: 94, a: 255 },
            background3: Color { r: 116, g: 125, b: 237, a: 255 },
            foreground3: Color { r: 122, g: 118, b: 118, a: 255 },
            foreground2: Color { r: 148, g: 150, b: 166, a: 255 },
            foreground1: Color { r: 232, g: 234, b: 255, a: 255 },
            foreground: Color { r: 255, g: 255, b: 255, a: 255 },
            input: Color { r: 128, g: 106, b: 217, a: 255 },
            output: Color { r: 207, g: 107, b: 35, a: 255 },
            available: Color { r: 26, g: 68, b: 161, a: 255 },
            interact: Color { r: 255, g: 255, b: 0, a: 255 },
            active: Color { r: 212, g: 25, b: 25, a: 255 },
            error: Color { r: 255, g: 0, b: 255, a: 255 },
            destructive: Color { r: 219, g: 18, b: 18, a: 255 },
            special: Color { r: 238, g: 130, b: 238, a: 255 },
            hyperref: Color { r: 116, g: 125, b: 237, a: 255 },
            dead_link: Color { r: 148, g: 150, b: 166, a: 255 },
            caution: Color { r: 250, g: 222, b: 37, a: 255 },
            blueprints_background: Color { r: 10, g: 15, b: 30, a: 255 },
            resistance: resistance_array(),
        }
    }

    /// The light theme.
    pub fn light_theme() -> (r: Theme)
        ensures
            is_light_theme(r),
    {
        Theme {
            background: Color { r: 255, g: 255, b: 255, a: 255 },
            background1: Color { r: 226, g: 227, b: 227, a: 255 },
            background2: Color { r: 188, g: 188, b: 188, a: 255 },
            background3: Color { r: 128, g: 128, b: 128, a: 255 },
            foreground3: Color { r: 122, g: 118, b: 118, a: 255 },
            foreground2: Color { r: 100, g: 100, b: 100, a: 255 },
            foreground1: Color { r: 75, g: 75, b: 75, a: 255 },
            foreground: Color { r: 40, g: 40, b: 40, a: 255 },
            input: Color { r: 128, g: 106, b: 217, a: 255 },
            output: Color { r: 207, g: 107, b: 35, a: 255 },
            available: Color { r: 26, g: 115, b: 232, a: 255 },
            interact: Color { r: 231, g: 240, b: 253, a: 255 },
            active: Color { r: 0, g: 0, b: 255, a: 255 },
            error: Color { r: 255, g: 0, b: 255, a: 255 },
            destructive: Color { r: 219, g: 18, b: 18, a: 255 },
            special: Color { r: 135, g: 60, b: 190, a: 255 },
            hyperref: Color { r: 0, g: 0, b: 255, a: 255 },
            dead_link: Color { r: 255, g: 228, b: 196, a: 255 },
            caution: Color { r: 250, g: 222, b: 37, a: 255 },
            blueprints_background: Color { r: 250, g: 250, b: 255, a: 255 },
            resistance: resistance_array(),
        }
    }

    /// The default theme is the dark one.
    pub fn default() -> (r: Theme)
        ensures
            is_dark_theme(r),
    {
        Theme::dark_theme()
    }

    /// The colour of the name `id`.
    pub fn get(&self, id: ColorId) -> (r: Color)
        ensures
            r == theme_color(*self, id),
    {
        match id {
            ColorId::Background => self.background,
            ColorId::Background1 => self.background1,
            ColorId::Background2 => self.background2,
            ColorId::Background3 => self.background3,
            ColorId::Foreground3 => self.foreground3,
            ColorId::Foreground2 => self.foreground2,
            ColorId::Foreground1 => self.foreground1,
            ColorId::Foreground => self.foreground,
            ColorId::Input => self.input,
            ColorId::Output => self.output,
            ColorId::Available => self.available,
            ColorId::Interact => self.interact,
            ColorId::Active => self.active,
            ColorId::Error => self.error,
            ColorId::Destructive => self.destructive,
            ColorId::Special => self.special,
            ColorId::HyperRef => self.hyperref,
            ColorId::DeadLink => self.dead_link,
            ColorId::Caution => self.caution,
            ColorId::BlueprintsBackground => self.blueprints_background,
            ColorId::Resistance0 => self.resistance[0],
            ColorId::Resistance1 => self.resistance[1],
            ColorId::Resistance2 => self.resistance[2],
            ColorId::Resistance3 => self.resistance[3],
            ColorId::Resistance4 => self.resistance[4],
            ColorId::Resistance5 => self.resistance[5],
            ColorId::Resistance6 => self.resistance[6],
            ColorId::Resistance7 => self.resistance[7],
            ColorId::Resistance8 => self.resistance[8],
            ColorId::Resistance9 => self.resistance[9],
        }
    }

    /// Gives the name `id` the colour `color`; every other name keeps its colour.
    pub fn set(&mut self, id: ColorId, color: Color)
        ensures
            theme_color(*final(self), id) == color,
            forall|other: ColorId| other != id ==> theme_color(*final(self), other) == theme_color(
                *old(self),
                other,
            ),
    {
        match id {
            ColorId::Background => {
                self.background = color;
            },
            ColorId::Background1 => {
                self.background1 = color;
            },
            ColorId::Background2 => {
                self.background2 = color;
            },
            ColorId::Background3 => {
                self.background3 = color;
            },
            ColorId::Foreground3 => {
                self.foreground3 = color;
            },
            ColorId::Foreground2 => {
                self.foreground2 = color;
            },
            ColorId::Foreground1 => {
                self.foreground1 = color;
            },
            ColorId::Foreground => {
                self.foreground = color;
            },
            ColorId::Input => {
                self.input = color;
            },
            ColorId::Output => {
                self.output = color;
            },
            ColorId::Available => {
                self.available = color;
            },
            ColorId::Interact => {
                self.interact = color;
            },
            ColorId::Active => {
                self.active = color;
            },
            ColorId::Error => {
                self.error = color;
            },
            ColorId::Destructive => {
                self.destructive = color;
            },
            ColorId::Special => {
                self.special = color;
            },
            ColorId::HyperRef => {
                self.hyperref = color;
            },
            ColorId::DeadLink => {
                self.dead_link = color;
            },
            ColorId::Caution => {
                self.caution = color;
            },
            ColorId::BlueprintsBackground => {
                self.blueprints_background = color;
            },
            ColorId::Resistance0 => {
                self.resistance[0] = color;
            },
            ColorId::Resistance1 => {
                self.resistance[1] = color;
            },
            ColorId::Resistance2 => {
                self.resistance[2] = color;
            },
            ColorId::Resistance3 => {
                self.resistance[3] = color;
            },
            ColorId::Resistance4 => {
                self.resistance[4] = color;
            },
            ColorId::Resistance5 => {
                self.resistance[5] = color;
            },
            ColorId::Resistance6 => {
                self.resistance[6] = color;
            },
            ColorId::Resistance7 => {
                self.resistance[7] = color;
            },
            ColorId::Resistance8 => {
                self.resistance[8] = color;
            },
            ColorId::Resistance9 => {
                self.resistance[9] = color;
            },
        }
    }
}

impl ColorRef {
    /// The colour this reference stands for under `theme`.
    pub fn get(self, theme: &Theme) -> (r: Color)
        ensures
            r == resolved(self, *theme),
    {
        match self {
            ColorRef::Theme(id) => theme.get(id),
            ColorRef::Exact(c) => c,
        }
    }
}

} // verus!
