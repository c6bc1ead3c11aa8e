//! Styled terminal text: the escape sequences `ESC [ n ; n ... m` that set colours and
//! weight, read from the bytes of a line, and the style they add up to.
use crate::console::{log_type_name, LogType};
use vstd::prelude::*;

verus! {

/// A colour with red, green, blue and alpha parts.
#[derive(Debug, Clone, Copy, PartialEq, Eq, Structural, Hash)]
pub struct Color {
    pub r: u8,
    pub g: u8,
    pub b: u8,
    pub a: u8,
}

/// The opaque colour with parts `r`, `g`, `b`.
pub open spec fn rgb(r: u8, g: u8, b: u8) -> Color {
    Color { r, g, b, a: 255 }
}

/// The colour a colour name stands for (`Black`, `Red`, ... in the order of the codes),
/// as the windowing library's colour constants give them.
pub open spec fn named_color(i: int) -> Color {
    if i == 0 {
        rgb(0, 0, 0)
    } else if i == 1 {
        rgb(255, 0, 0)
    } else if i == 2 {
        rgb(0, 128, 0)
    } else if i == 3 {
        rgb(255, 255, 0)
    } else if i == 4 {
        rgb(0, 0, 255)
    } else if i == 5 {
        rgb(255, 0, 255)
    } else if i == 6 {
        rgb(0, 255, 255)
    } else {
        rgb(255, 255, 255)
    }
}

/// One item of a style escape sequence.
#[derive(Debug, Clone, Copy, PartialEq, Eq, Structural, Hash)]
pub enum ColorItem {
    Reset,
    Bold,
    Dim,
    Underline,
    ResetBoldDim,
    ResetUnderline,
    ForegroundBlack,
    ForegroundRed,
    ForegroundGreen,
    ForegroundYellow,
    ForegroundBlue,
    ForegroundMagenta,
    ForegroundCyan,
    ForegroundWhite,
    TruecolorForeground(u8, u8, u8),
    ResetForeground,
    BackgroundBlack,
    BackgroundRed,
    BackgroundGreen,
    BackgroundYellow,
    BackgroundBlue,
    BackgroundMagenta,
    BackgroundCyan,
    BackgroundWhite,
    TruecolorBackground(u8, u8, u8),
    ResetBackground,
    ForegroundBrightBlack,
    ForegroundBrightRed,
    ForegroundBrightGreen,
    ForegroundBrightYellow,
    ForegroundBrightBlue,
    ForegroundBrightMagenta,
    ForegroundBrightCyan,
    ForegroundBrightWhite,
    BackgroundBrightBlack,
    BackgroundBrightRed,
    BackgroundBrightGreen,
    BackgroundBrightYellow,
    BackgroundBrightBlue,
    BackgroundBrightMagenta,
    BackgroundBrightCyan,
    BackgroundBrightWhite,
}

/// The item a code names, for every code but the two true-colour ones.
pub open spec fn simple_item(code: u8) -> Option<ColorItem> {
    if code == 0 {
        Some(ColorItem::Reset)
    } else if code == 1 {
        Some(ColorItem::Bold)
    } else if code == 2 {
        Some(ColorItem::Dim)
    } else if code == 4 {
        Some(ColorItem::Underline)
    } else if code == 22 {
        Some(ColorItem::ResetBoldDim)
    } else if code == 24 {
        Some(ColorItem::ResetUnderline)
    } else if code == 30 {
        Some(ColorItem::ForegroundBlack)
    } else if code == 31 {
        Some(ColorItem::ForegroundRed)
    } else if code == 32 {
        Some(ColorItem::ForegroundGreen)
    } else if code == 33 {
        Some(ColorItem::ForegroundYellow)
    } else if code == 34 {
        Some(ColorItem::ForegroundBlue)
    } else if code == 35 {
        Some(ColorItem::ForegroundMagenta)
    } else if code == 36 {
        Some(ColorItem::ForegroundCyan)
    } else if code == 37 {
        Some(ColorItem::ForegroundWhite)
    } else if code == 39 {
        Some(ColorItem::ResetForeground)
    } else if code == 40 {
        Some(ColorItem::BackgroundBlack)
    } else if code == 41 {
        Some(ColorItem::BackgroundRed)
    } else if code == 42 {
        Some(ColorItem::BackgroundGreen)
    } else if code == 43 {
        Some(ColorItem::BackgroundYellow)
    } else if code == 44 {
        Some(ColorItem::BackgroundBlue)
    } else if code == 45 {
        Some(ColorItem::BackgroundMagenta)
    } else if code == 46 {
        Some(ColorItem::BackgroundCyan)
    } else if code == 47 {
        Some(ColorItem::BackgroundWhite)
    } else if code == 49 {
        Some(ColorItem::ResetBackground)
    } else if code == 90 {
        Some(ColorItem::ForegroundBrightBlack)
    } else if code == 91 {
        Some(ColorItem::ForegroundBrightRed)
    } else if code == 92 {
        Some(ColorItem::ForegroundBrightGreen)
    } else if code == 93 {
        Some(ColorItem::ForegroundBrightYellow)
    } else if code == 94 {
        Some(ColorItem::ForegroundBrightBlue)
    } else if code == 95 {
        Some(ColorItem::ForegroundBrightMagenta)
    } else if code == 96 {
        Some(ColorItem::ForegroundBrightCyan)
    } else if code == 97 {
        Some(ColorItem::ForegroundBrightWhite)
    } else if code == 100 {
        Some(ColorItem::BackgroundBrightBlack)
    } else if code == 101 {
        Some(ColorItem::BackgroundBrightRed)
    } else if code == 102 {
        Some(ColorItem::BackgroundBrightGreen)
    } else if code == 103 {
        Some(ColorItem::BackgroundBrightYellow)
    } else if code == 104 {
        Some(ColorItem::BackgroundBrightBlue)
    } else if code == 105 {
        Some(ColorItem::BackgroundBrightMagenta)
    } else if code == 106 {
        Some(ColorItem::BackgroundBrightCyan)
    } else if code == 107 {
        Some(ColorItem::BackgroundBrightWhite)
    } else {
        None
    }
}

/// The style so far after one more item.
pub open spec fn apply_item(s: Style, item: ColorItem) -> Style {
    match item {
        ColorItem::Reset => Style::spec_default(),
        ColorItem::Bold => Style { bold: true, ..s },
        ColorItem::Dim => s,
        ColorItem::Underline => Style { underline: true, ..s },
        ColorItem::ResetBoldDim => Style { bold: false, ..s },
        ColorItem::ResetUnderline => Style { underline: false, ..s },
        ColorItem::ForegroundBlack | ColorItem::ForegroundBrightBlack => Style { foreground: Some(named_color(0)), ..s },
        ColorItem::BackgroundBlack | ColorItem::BackgroundBrightBlack => Style { background: Some(named_color(0)), ..s },
        ColorItem::ForegroundRed | ColorItem::ForegroundBrightRed => Style { foreground: Some(named_color(1)), ..s },
        ColorItem::BackgroundRed | ColorItem::BackgroundBrightRed => Style { background: Some(named_color(1)), ..s },
        ColorItem::ForegroundGreen | ColorItem::ForegroundBrightGreen => Style { foreground: Some(named_color(2)), ..s },
        ColorItem::BackgroundGreen | ColorItem::BackgroundBrightGreen => Style { background: Some(named_color(2)), ..s },
        ColorItem::ForegroundYellow | ColorItem::ForegroundBrightYellow => Style { foreground: Some(named_color(3)), ..s },
        ColorItem::BackgroundYellow | ColorItem::BackgroundBrightYellow => Style { background: Some(named_color(3)), ..s },
        ColorItem::ForegroundBlue | ColorItem::ForegroundBrightBlue => Style { foreground: Some(named_color(4)), ..s },
        ColorItem::BackgroundBlue | ColorItem::BackgroundBrightBlue => Style { background: Some(named_color(4)), ..s },
        ColorItem::ForegroundMagenta | ColorItem::ForegroundBrightMagenta => Style { foreground: Some(named_color(5)), ..s },
        ColorItem::BackgroundMagenta | ColorItem::BackgroundBrightMagenta => Style { background: Some(named_color(5)), ..s },
        ColorItem::ForegroundCyan | ColorItem::ForegroundBrightCyan => Style { foreground: Some(named_color(6)), ..s },
        ColorItem::BackgroundCyan | ColorItem::BackgroundBrightCyan => Style { background: Some(named_color(6)), ..s },
        ColorItem::ForegroundWhite | ColorItem::ForegroundBrightWhite => Style { foreground: Some(named_color(7)), ..s },
        ColorItem::BackgroundWhite | ColorItem::BackgroundBrightWhite => Style { background: Some(named_color(7)), ..s },
        ColorItem::TruecolorForeground(r, g, b) => Style { foreground: Some(rgb(r, g, b)), ..s },
        ColorItem::ResetForeground => Style { foreground: None, ..s },
        ColorItem::TruecolorBackground(r, g, b) => Style { background: Some(rgb(r, g, b)), ..s },
        ColorItem::ResetBackground => Style { background: None, ..s },
    }
}

/// The style a list of items adds up to, starting from the default.
pub open spec fn style_of(items: Seq<ColorItem>) -> Style
    decreases items.len(),
{
    if items.len() == 0 {
        Style::spec_default()
    } else {
        apply_item(style_of(items.drop_last()), items.last())
    }
}

/// An item at the end of a list weighs last: the style of the list is the style of the
/// rest with that item applied.
proof fn lemma_style_of_push(items: Seq<ColorItem>, x: ColorItem)
    ensures
        style_of(items.push(x)) == apply_item(style_of(items), x),
{
    assert(items.push(x).drop_last() =~= items);
}

/// Each colour name code, plain or bright, sets the colour of its own name, whatever
/// came before it: black, red, green, yellow, blue, magenta, cyan and white, as the
/// windowing library defines them; a foreground code changes nothing but the
/// foreground, and a background code nothing but the background.
pub proof fn lemma_named_colours(items: Seq<ColorItem>)
    ensures
        style_of(items.push(ColorItem::ForegroundBlack)) == (Style { foreground: Some(rgb(0, 0, 0)), ..style_of(items) }),
        style_of(items.push(ColorItem::BackgroundBlack)) == (Style { background: Some(rgb(0, 0, 0)), ..style_of(items) }),
        style_of(items.push(ColorItem::ForegroundBrightBlack)) == (Style { foreground: Some(rgb(0, 0, 0)), ..style_of(items) }),
        style_of(items.push(ColorItem::BackgroundBrightBlack)) == (Style { background: Some(rgb(0, 0, 0)), ..style_of(items) }),
        style_of(items.push(ColorItem::ForegroundRed)) == (Style { foreground: Some(rgb(255, 0, 0)), ..style_of(items) }),
        style_of(items.push(ColorItem::BackgroundRed)) == (Style { background: Some(rgb(255, 0, 0)), ..style_of(items) }),
        style_of(items.push(ColorItem::ForegroundBrightRed)) == (Style { foreground: Some(rgb(255, 0, 0)), ..style_of(items) }),
        style_of(items.push(ColorItem::BackgroundBrightRed)) == (Style { background: Some(rgb(255, 0, 0)), ..style_of(items) }),
        style_of(items.push(ColorItem::ForegroundGreen)) == (Style { foreground: Some(rgb(0, 128, 0)), ..style_of(items) }),
        style_of(items.push(ColorItem::BackgroundGreen)) == (Style { background: Some(rgb(0, 128, 0)), ..style_of(items) }),
        style_of(items.push(ColorItem::ForegroundBrightGreen)) == (Style { foreground: Some(rgb(0, 128, 0)), ..style_of(items) }),
        style_of(items.push(ColorItem::BackgroundBrightGreen)) == (Style { background: Some(rgb(0, 128, 0)), ..style_of(items) }),
        style_of(items.push(ColorItem::ForegroundYellow)) == (Style { foreground: Some(rgb(255, 255, 0)), ..style_of(items) }),
        style_of(items.push(ColorItem::BackgroundYellow)) == (Style { background: Some(rgb(255, 255, 0)), ..style_of(items) }),
        style_of(items.push(ColorItem::ForegroundBrightYellow)) == (Style { foreground: Some(rgb(255, 255, 0)), ..style_of(items) }),
        style_of(items.push(ColorItem::BackgroundBrightYellow)) == (Style { background: Some(rgb(255, 255, 0)), ..style_of(items) }),
        style_of(items.push(ColorItem::ForegroundBlue)) == (Style { foreground: Some(rgb(0, 0, 255)), ..style_of(items) }),
        style_of(items.push(ColorItem::BackgroundBlue)) == (Style { background: Some(rgb(0, 0, 255)), ..style_of(items) }),
        style_of(items.push(ColorItem::ForegroundBrightBlue)) == (Style { foreground: Some(rgb(0, 0, 255)), ..style_of(items) }),
        style_of(items.push(ColorItem::BackgroundBrightBlue)) == (Style { background: Some(rgb(0, 0, 255)), ..style_of(items) }),
        style_of(items.push(ColorItem::ForegroundMagenta)) == (Style { foreground: Some(rgb(255, 0, 255)), ..style_of(items) }),
        style_of(items.push(ColorItem::BackgroundMagenta)) == (Style { background: Some(rgb(255, 0, 255)), ..style_of(items) }),
        style_of(items.push(ColorItem::ForegroundBrightMagenta)) == (Style { foreground: Some(rgb(255, 0, 255)), ..style_of(items) }),
        style_of(items.push(ColorItem::BackgroundBrightMagenta)) == (Style { background: Some(rgb(255, 0, 255)), ..style_of(items) }),
        style_of(items.push(ColorItem::ForegroundCyan)) == (Style { foreground: Some(rgb(0, 255, 255)), ..style_of(items) }),
        style_of(items.push(ColorItem::BackgroundCyan)) == (Style { background: Some(rgb(0, 255, 255)), ..style_of(items) }),
        style_of(items.push(ColorItem::ForegroundBrightCyan)) == (Style { foreground: Some(rgb(0, 255, 255)), ..style_of(items) }),
        style_of(items.push(ColorItem::BackgroundBrightCyan)) == (Style { background: Some(rgb(0, 255, 255)), ..style_of(items) }),
        style_of(items.push(ColorItem::ForegroundWhite)) == (Style { foreground: Some(rgb(255, 255, 255)), ..style_of(items) }),
        style_of(items.push(ColorItem::BackgroundWhite)) == (Style { background: Some(rgb(255, 255, 255)), ..style_of(items) }),
        style_of(items.push(ColorItem::ForegroundBrightWhite)) == (Style { foreground: Some(rgb(255, 255, 255)), ..style_of(items) }),
        style_of(items.push(ColorItem::BackgroundBrightWhite)) == (Style { background: Some(rgb(255, 255, 255)), ..style_of(items) }),
{
    assert forall|x: ColorItem| #[trigger] style_of(items.push(x)) == apply_item(style_of(items), x) by {
        lemma_style_of_push(items, x);
    }
}

/// What each plain code of an escape sequence does to the style so far: 0 resets it,
/// 1 and 4 turn on bold and underline, 22 and 24 turn them off, 39 and 49 go back to the
/// default foreground and background; 30 to 37 (and the bright 90 to 97) set the
/// foreground to black, red, green, yellow, blue, magenta, cyan and white in turn, and
/// 40 to 47 (and 100 to 107) the background.
pub proof fn lemma_colour_codes(s: Style)
    ensures
        simple_item(0) is Some && apply_item(s, simple_item(0)->Some_0) == Style::spec_default(),
        simple_item(1) is Some && apply_item(s, simple_item(1)->Some_0) == (Style { bold: true, ..s }),
        simple_item(4) is Some && apply_item(s, simple_item(4)->Some_0) == (Style { underline: true, ..s }),
        simple_item(22) is Some && apply_item(s, simple_item(22)->Some_0) == (Style { bold: false, ..s }),
        simple_item(24) is Some && apply_item(s, simple_item(24)->Some_0) == (Style { underline: false, ..s }),
        simple_item(39) is Some && apply_item(s, simple_item(39)->Some_0) == (Style { foreground: None, ..s }),
        simple_item(49) is Some && apply_item(s, simple_item(49)->Some_0) == (Style { background: None, ..s }),
        simple_item(30) is Some && apply_item(s, simple_item(30)->Some_0) == (Style { foreground: Some(rgb(0, 0, 0)), ..s }),
        simple_item(31) is Some && apply_item(s, simple_item(31)->Some_0) == (Style { foreground: Some(rgb(255, 0, 0)), ..s }),
        simple_item(32) is Some && apply_item(s, simple_item(32)->Some_0) == (Style { foreground: Some(rgb(0, 128, 0)), ..s }),
        simple_item(33) is Some && apply_item(s, simple_item(33)->Some_0) == (Style { foreground: Some(rgb(255, 255, 0)), ..s }),
        simple_item(34) is Some && apply_item(s, simple_item(34)->Some_0) == (Style { foreground: Some(rgb(0, 0, 255)), ..s }),
        simple_item(35) is Some && apply_item(s, simple_item(35)->Some_0) == (Style { foreground: Some(rgb(255, 0, 255)), ..s }),
        simple_item(36) is Some && apply_item(s, simple_item(36)->Some_0) == (Style { foreground: Some(rgb(0, 255, 255)), ..s }),
        simple_item(37) is Some && apply_item(s, simple_item(37)->Some_0) == (Style { foreground: Some(rgb(255, 255, 255)), ..s }),
        simple_item(40) is Some && apply_item(s, simple_item(40)->Some_0) == (Style { background: Some(rgb(0, 0, 0)), ..s }),
        simple_item(41) is Some && apply_item(s, simple_item(41)->Some_0) == (Style { background: Some(rgb(255, 0, 0)), ..s }),
        simple_item(42) is Some && apply_item(s, simple_item(42)->Some_0) == (Style { background: Some(rgb(0, 128, 0)), ..s }),
        simple_item(43) is Some && apply_item(s, simple_item(43)->Some_0) == (Style { background: Some(rgb(255, 255, 0)), ..s }),
        simple_item(44) is Some && apply_item(s, simple_item(44)->Some_0) == (Style { background: Some(rgb(0, 0, 255)), ..s }),
        simple_item(45) is Some && apply_item(s, simple_item(45)->Some_0) == (Style { background: Some(rgb(255, 0, 255)), ..s }),
        simple_item(46) is Some && apply_item(s, simple_item(46)->Some_0) == (Style { background: Some(rgb(0, 255, 255)), ..s }),
        simple_item(47) is Some && apply_item(s, simple_item(47)->Some_0) == (Style { background: Some(rgb(255, 255, 255)), ..s }),
        simple_item(90) is Some && apply_item(s, simple_item(90)->Some_0) == (Style { foreground: Some(rgb(0, 0, 0)), ..s }),
        simple_item(91) is Some && apply_item(s, simple_item(91)->Some_0) == (Style { foreground: Some(rgb(255, 0, 0)), ..s }),
        simple_item(92) is Some && apply_item(s, simple_item(92)->Some_0) == (Style { foreground: Some(rgb(0, 128, 0)), ..s }),
        simple_item(93) is Some && apply_item(s, simple_item(93)->Some_0) == (Style { foreground: Some(rgb(255, 255, 0)), ..s }),
        simple_item(94) is Some && apply_item(s, simple_item(94)->Some_0) == (Style { foreground: Some(rgb(0, 0, 255)), ..s }),
        simple_item(95) is Some && apply_item(s, simple_item(95)->Some_0) == (Style { foreground: Some(rgb(255, 0, 255)), ..s }),
        simple_item(96) is Some && apply_item(s, simple_item(96)->Some_0) == (Style { foreground: Some(rgb(0, 255, 255)), ..s }),
        simple_item(97) is Some && apply_item(s, simple_item(97)->Some_0) == (Style { foreground: Some(rgb(255, 255, 255)), ..s }),
        simple_item(100) is Some && apply_item(s, simple_item(100)->Some_0) == (Style { background: Some(rgb(0, 0, 0)), ..s }),
        simple_item(101) is Some && apply_item(s, simple_item(101)->Some_0) == (Style { background: Some(rgb(255, 0, 0)), ..s }),
        simple_item(102) is Some && apply_item(s, simple_item(102)->Some_0) == (Style { background: Some(rgb(0, 128, 0)), ..s }),
        simple_item(103) is Some && apply_item(s, simple_item(103)->Some_0) == (Style { background: Some(rgb(255, 255, 0)), ..s }),
        simple_item(104) is Some && apply_item(s, simple_item(104)->Some_0) == (Style { background: Some(rgb(0, 0, 255)), ..s }),
        simple_item(105) is Some && apply_item(s, simple_item(105)->Some_0) == (Style { background: Some(rgb(255, 0, 255)), ..s }),
        simple_item(106) is Some && apply_item(s, simple_item(106)->Some_0) == (Style { background: Some(rgb(0, 255, 255)), ..s }),
        simple_item(107) is Some && apply_item(s, simple_item(107)->Some_0) == (Style { background: Some(rgb(255, 255, 255)), ..s }),
{
}

/// How a span of text is drawn.
#[derive(Debug, Clone, Copy, PartialEq, Eq, Structural)]
pub struct Style {
    pub bold: bool,
    pub underline: bool,
    pub background: Option<Color>,
    pub foreground: Option<Color>,
}

impl Style {
    /// Plain text: not bold, not underlined, default colours.
    pub open spec fn spec_default() -> Style {
        Style { bold: false, underline: false, background: None, foreground: None }
    }

    /// Plain text: not bold, not underlined, default colours.
    pub fn default() -> (r: Style)
        ensures
            r == Style::spec_default(),
    {
        Style { bold: false, underline: false, background: None, foreground: None }
    }

    /// The style `items` add up to, applied in order from the default. `Dim` is not
    /// supported and must not occur.
    pub fn from_items(items: &[ColorItem]) -> (r: Style)
        requires
            forall|i: int| 0 <= i < items@.len() ==> items@[i] != ColorItem::Dim,
        ensures
            r == style_of(items@),
    {
        let mut s = Style::default();
        let mut i: usize = 0;
        while i < items.len()
            invariant
                i <= items@.len(),
                s == style_of(items@.take(i as int)),
                forall|k: int| 0 <= k < items@.len() ==> items@[k] != ColorItem::Dim,
            decreases items@.len() - i,
        {
            assert(items@.take(i + 1).drop_last() =~= items@.take(i as int));
            s = next_style(s, items[i]);
            i = i + 1;
        }
        assert(items@.take(items@.len() as int) =~= items@);
        s
    }
}

/// The colour of a colour name, by its place in the order of the codes.
fn color_named(i: u8) -> (c: Color)
    requires
        i < 8,
    ensures
        c == named_color(i as int),
{
    if i == 0 {
        Color { r: 0, g: 0, b: 0, a: 255 }
    } else if i == 1 {
        Color { r: 255, g: 0, b: 0, a: 255 }
    } else if i == 2 {
        Color { r: 0, g: 128, b: 0, a: 255 }
    } else if i == 3 {
        Color { r: 255, g: 255, b: 0, a: 255 }
    } else if i == 4 {
        Color { r: 0, g: 0, b: 255, a: 255 }
    } else if i == 5 {
        Color { r: 255, g: 0, b: 255, a: 255 }
    } else if i == 6 {
        Color { r: 0, g: 255, b: 255, a: 255 }
    } else {
        Color { r: 255, g: 255, b: 255, a: 255 }
    }
}

/// The style after one more item.
fn next_style(s: Style, item: ColorItem) -> (r: Style)
    requires
        item != ColorItem::Dim,
    ensures
        r == apply_item(s, item),
{
    match item {
        ColorItem::Reset => Style::default(),
        ColorItem::Bold => Style { bold: true, ..s },
        ColorItem::Dim => s,
        ColorItem::Underline => Style { underline: true, ..s },
        ColorItem::ResetBoldDim => Style { bold: false, ..s },
        ColorItem::ResetUnderline => Style { underline: false, ..s },
        ColorItem::ForegroundBlack | ColorItem::ForegroundBrightBlack => Style { foreground: Some(color_named(0)), ..s },
        ColorItem::BackgroundBlack | ColorItem::BackgroundBrightBlack => Style { background: Some(color_named(0)), ..s },
        ColorItem::ForegroundRed | ColorItem::ForegroundBrightRed => Style { foreground: Some(color_named(1)), ..s },
        ColorItem::BackgroundRed | ColorItem::BackgroundBrightRed => Style { background: Some(color_named(1)), ..s },
        ColorItem::ForegroundGreen | ColorItem::ForegroundBrightGreen => Style { foreground: Some(color_named(2)), ..s },
        ColorItem::BackgroundGreen | ColorItem::BackgroundBrightGreen => Style { background: Some(color_named(2)), ..s },
        ColorItem::ForegroundYellow | ColorItem::ForegroundBrightYellow => Style { foreground: Some(color_named(3)), ..s },
        ColorItem::BackgroundYellow | ColorItem::BackgroundBrightYellow => Style { background: Some(color_named(3)), ..s },
        ColorItem::ForegroundBlue | ColorItem::ForegroundBrightBlue => Style { foreground: Some(color_named(4)), ..s },
        ColorItem::BackgroundBlue | ColorItem::BackgroundBrightBlue => Style { background: Some(color_named(4)), ..s },
        ColorItem::ForegroundMagenta | ColorItem::ForegroundBrightMagenta => Style { foreground: Some(color_named(5)), ..s },
        ColorItem::BackgroundMagenta | ColorItem::BackgroundBrightMagenta => Style { background: Some(color_named(5)), ..s },
        ColorItem::ForegroundCyan | ColorItem::ForegroundBrightCyan => Style { foreground: Some(color_named(6)), ..s },
        ColorItem::BackgroundCyan | ColorItem::BackgroundBrightCyan => Style { background: Some(color_named(6)), ..s },
        ColorItem::ForegroundWhite | ColorItem::ForegroundBrightWhite => Style { foreground: Some(color_named(7)), ..s },
        ColorItem::BackgroundWhite | ColorItem::BackgroundBrightWhite => Style { background: Some(color_named(7)), ..s },
        ColorItem::TruecolorForeground(r, g, b) => Style {
            foreground: Some(Color { r, g, b, a: 255 }),
            ..s
        },
        ColorItem::ResetForeground => Style { foreground: None, ..s },
        ColorItem::TruecolorBackground(r, g, b) => Style {
            background: Some(Color { r, g, b, a: 255 }),
            ..s
        },
        ColorItem::ResetBackground => Style { background: None, ..s },
    }
}

/// The item of a code other than the two true-colour ones, if the code names one.
fn item_of_code(code: u8) -> (r: Option<ColorItem>)
    ensures
        r == simple_item(code),
{
    match code {
        0 => Some(ColorItem::Reset),
        1 => Some(ColorItem::Bold),
        2 => Some(ColorItem::Dim),
        4 => Some(ColorItem::Underline),
        22 => Some(ColorItem::ResetBoldDim),
        24 => Some(ColorItem::ResetUnderline),
        30 => Some(ColorItem::ForegroundBlack),
        31 => Some(ColorItem::ForegroundRed),
        32 => Some(ColorItem::ForegroundGreen),
        33 => Some(ColorItem::ForegroundYellow),
        34 => Some(ColorItem::ForegroundBlue),
        35 => Some(ColorItem::ForegroundMagenta),
        36 => Some(ColorItem::ForegroundCyan),
        37 => Some(ColorItem::ForegroundWhite),
        39 => Some(ColorItem::ResetForeground),
        40 => Some(ColorItem::BackgroundBlack),
        41 => Some(ColorItem::BackgroundRed),
        42 => Some(ColorItem::BackgroundGreen),
        43 => Some(ColorItem::BackgroundYellow),
        44 => Some(ColorItem::BackgroundBlue),
        45 => Some(ColorItem::BackgroundMagenta),
        46 => Some(ColorItem::BackgroundCyan),
        47 => Some(ColorItem::BackgroundWhite),
        49 => Some(ColorItem::ResetBackground),
        90 => Some(ColorItem::ForegroundBrightBlack),
        91 => Some(ColorItem::ForegroundBrightRed),
        92 => Some(ColorItem::ForegroundBrightGreen),
        93 => Some(ColorItem::ForegroundBrightYellow),
        94 => Some(ColorItem::ForegroundBrightBlue),
        95 => Some(ColorItem::ForegroundBrightMagenta),
        96 => Some(ColorItem::ForegroundBrightCyan),
        97 => Some(ColorItem::ForegroundBrightWhite),
        100 => Some(ColorItem::BackgroundBrightBlack),
        101 => Some(ColorItem::BackgroundBrightRed),
        102 => Some(ColorItem::BackgroundBrightGreen),
        103 => Some(ColorItem::BackgroundBrightYellow),
        104 => Some(ColorItem::BackgroundBrightBlue),
        105 => Some(ColorItem::BackgroundBrightMagenta),
        106 => Some(ColorItem::BackgroundBrightCyan),
        107 => Some(ColorItem::BackgroundBrightWhite),
        _ => None,
    }
}

/// The byte `c` is an ASCII digit.
pub open spec fn is_digit(c: u8) -> bool {
    48 <= c <= 57
}

/// Where the run of digits that starts at `i` ends.
pub open spec fn digits_end(s: Seq<u8>, i: int) -> int
    decreases s.len() - i,
{
    if 0 <= i < s.len() && is_digit(s[i]) {
        digits_end(s, i + 1)
    } else {
        i
    }
}

/// The number the digits `s[i..j]` write.
pub open spec fn digits_value(s: Seq<u8>, i: int, j: int) -> nat
    decreases j - i,
{
    if j <= i {
        0
    } else {
        digits_value(s, i, j - 1) * 10 + (s[j - 1] - 48) as nat
    }
}

/// A number read at `i`: the whole run of digits there, at least one, worth at most 255.
pub open spec fn number_at(s: Seq<u8>, i: int) -> Option<(u8, int)> {
    let j = digits_end(s, i);
    if j > i && digits_value(s, i, j) <= 255 {
        Some((digits_value(s, i, j) as u8, j))
    } else {
        None
    }
}

/// A `;` at `j` followed by a number.
pub open spec fn part_at(s: Seq<u8>, j: int) -> Option<(u8, int)> {
    if 0 <= j < s.len() && s[j] == 59 {
        number_at(s, j + 1)
    } else {
        None
    }
}

/// The three `;`-led numbers of a true colour, read at `j`.
pub open spec fn truecolor_at(s: Seq<u8>, j: int) -> Option<(u8, u8, u8, int)> {
    match part_at(s, j) {
        Some((r, j1)) => match part_at(s, j1) {
            Some((g, j2)) => match part_at(s, j2) {
                Some((b, j3)) => Some((r, g, b, j3)),
                None => None,
            },
            None => None,
        },
        None => None,
    }
}

/// The item read at `i`: a code, and for the true-colour codes 38 and 48 the three
/// parts of the colour.
pub open spec fn item_at(s: Seq<u8>, i: int) -> Option<(ColorItem, int)> {
    match number_at(s, i) {
        None => None,
        Some((code, j)) => if code == 38 || code == 48 {
            match truecolor_at(s, j) {
                Some((r, g, b, k)) => Some(
                    (
                        if code == 38 {
                            ColorItem::TruecolorForeground(r, g, b)
                        } else {
                            ColorItem::TruecolorBackground(r, g, b)
                        },
                        k,
                    ),
                ),
                None => None,
            }
        } else {
            match simple_item(code) {
                Some(it) => Some((it, j)),
                None => None,
            }
        },
    }
}

/// The items that follow at `j`, each led by `;`, as many as can be read; and where
/// they end.
pub open spec fn more_items(s: Seq<u8>, j: int) -> (Seq<ColorItem>, int)
    decreases s.len() - j,
{
    if 0 <= j < s.len() && s[j] == 59 {
        match item_at(s, j + 1) {
            Some((it, k)) => if j < k <= s.len() {
                let (rest, e) = more_items(s, k);
                (seq![it] + rest, e)
            } else {
                (Seq::empty(), j)
            },
            None => (Seq::empty(), j),
        }
    } else {
        (Seq::empty(), j)
    }
}

/// A list of items separated by `;` read at `i`, and where it ends.
pub open spec fn items_at(s: Seq<u8>, i: int) -> Option<(Seq<ColorItem>, int)> {
    match item_at(s, i) {
        Some((it, k)) => {
            let (rest, e) = more_items(s, k);
            Some((seq![it] + rest, e))
        },
        None => None,
    }
}

/// An escape sequence `ESC [ items m` read at `i`, and where it ends.
pub open spec fn escape_at(s: Seq<u8>, i: int) -> Option<(Seq<ColorItem>, int)> {
    if 0 <= i && i + 1 < s.len() && s[i] == 27 && s[i + 1] == 91 {
        match items_at(s, i + 2) {
            Some((items, e)) => if 0 <= e < s.len() && s[e] == 109 {
                Some((items, e + 1))
            } else {
                None
            },
            None => None,
        }
    } else {
        None
    }
}

/// Where the run of bytes other than `ESC` that starts at `i` ends.
pub open spec fn text_end(s: Seq<u8>, i: int) -> int
    decreases s.len() - i,
{
    if 0 <= i < s.len() && s[i] != 27 {
        text_end(s, i + 1)
    } else {
        i
    }
}

/// The styled spans of `s` from `i` on: each an escape sequence followed by some text,
/// given as its items and the bounds of its text; reading stops at the first place
/// where no such span begins.
pub open spec fn spans_from(s: Seq<u8>, i: int) -> Seq<(Seq<ColorItem>, int, int)>
    decreases s.len() - i,
{
    match escape_at(s, i) {
        Some((items, j)) => {
            let t = text_end(s, j);
            if j < t && i < t <= s.len() {
                seq![(items, j, t)] + spans_from(s, t)
            } else {
                Seq::empty()
            }
        },
        None => Seq::empty(),
    }
}

/// An escape sequence that holds one code of one digit, `ESC [ n m`, reads as that
/// code's item, and ends just after its `m`.
pub proof fn lemma_one_digit_escape(s: Seq<u8>, i: int, a: u8)
    requires
        0 <= i,
        i + 4 <= s.len(),
        a < 10,
        s[i] == 27,
        s[i + 1] == 91,
        s[i + 2] == 48 + a,
        s[i + 3] == 109,
        simple_item(a) is Some,
    ensures
        escape_at(s, i) == Some((seq![simple_item(a)->Some_0], i + 4)),
{
    assert(digits_end(s, i + 3) == i + 3);
    assert(digits_end(s, i + 2) == i + 3);
    assert(digits_value(s, i + 2, i + 2) == 0);
    assert(digits_value(s, i + 2, i + 3) == a);
    assert(more_items(s, i + 3).0 =~= Seq::<ColorItem>::empty());
    assert(seq![simple_item(a)->Some_0] + more_items(s, i + 3).0 =~= seq![simple_item(a)->Some_0]);
}

/// An escape sequence that holds one code of two digits, `ESC [ n m`, reads as that
/// code's item (the true-colour codes 38 and 48 need their parts), and ends just after
/// its `m`.
pub proof fn lemma_two_digit_escape(s: Seq<u8>, i: int, a: u8, b: u8)
    requires
        0 <= i,
        i + 5 <= s.len(),
        a < 10,
        b < 10,
        s[i] == 27,
        s[i + 1] == 91,
        s[i + 2] == 48 + a,
        s[i + 3] == 48 + b,
        s[i + 4] == 109,
        simple_item((10 * a + b) as u8) is Some,
    ensures
        escape_at(s, i) == Some((seq![simple_item((10 * a + b) as u8)->Some_0], i + 5)),
{
    assert(digits_end(s, i + 4) == i + 4);
    assert(digits_end(s, i + 3) == i + 4);
    assert(digits_end(s, i + 2) == i + 4);
    assert(digits_value(s, i + 2, i + 2) == 0);
    assert(digits_value(s, i + 2, i + 3) == a);
    assert(digits_value(s, i + 2, i + 4) == 10 * a + b);
    assert(more_items(s, i + 4).0 =~= Seq::<ColorItem>::empty());
    let it = simple_item((10 * a + b) as u8)->Some_0;
    assert(seq![it] + more_items(s, i + 4).0 =~= seq![it]);
}

/// Runs of digits and of text end within the bytes, after where they start.
proof fn lemma_runs_end(s: Seq<u8>, i: int)
    requires
        0 <= i <= s.len(),
    ensures
        i <= digits_end(s, i) <= s.len(),
        forall|k: int| i <= k < digits_end(s, i) ==> is_digit(#[trigger] s[k]),
        digits_end(s, i) < s.len() ==> !is_digit(s[digits_end(s, i)]),
        i <= text_end(s, i) <= s.len(),
        forall|k: int| i <= k < text_end(s, i) ==> #[trigger] s[k] != 27,
        text_end(s, i) < s.len() ==> s[text_end(s, i)] == 27,
    decreases s.len() - i,
{
    if i < s.len() {
        lemma_runs_end(s, i + 1);
    }
}

/// Reads the number at `i`.
fn read_number(s: &[u8], i: usize) -> (r: Option<(u8, usize)>)
    requires
        i <= s@.len(),
    ensures
        match number_at(s@, i as int) {
            Some((v, j)) => r == Some((v, j as usize)) && i < j <= s@.len(),
            None => r is None,
        },
{
    assert(s@.len() == s.len());
    proof {
        lemma_runs_end(s@, i as int);
    }
    let mut j = i;
    let mut value: u32 = 0;
    while j < s.len() && s[j] >= 48 && s[j] <= 57
        invariant
            i <= j <= s@.len(),
            digits_end(s@, j as int) == digits_end(s@, i as int),
            value == if digits_value(s@, i as int, j as int) < 1000 {
                digits_value(s@, i as int, j as int)
            } else {
                1000
            },
        decreases s@.len() - j,
    {
        let d = (s[j] - 48) as u32;
        value = if value * 10 + d < 1000 {
            value * 10 + d
        } else {
            1000
        };
        j = j + 1;
    }
    if j > i && value <= 255 {
        Some((value as u8, j))
    } else {
        None
    }
}

/// Reads a `;` at `j` followed by a number.
fn read_part(s: &[u8], j: usize) -> (r: Option<(u8, usize)>)
    requires
        j <= s@.len(),
    ensures
        match part_at(s@, j as int) {
            Some((v, k)) => r == Some((v, k as usize)) && j < k <= s@.len(),
            None => r is None,
        },
{
    assert(s@.len() == s.len());
    if j < s.len() && s[j] == 59 {
        read_number(s, j + 1)
    } else {
        None
    }
}

/// Reads the item at `i`.
fn read_item(s: &[u8], i: usize) -> (r: Option<(ColorItem, usize)>)
    requires
        i <= s@.len(),
    ensures
        match item_at(s@, i as int) {
            Some((it, k)) => r == Some((it, k as usize)) && i < k <= s@.len(),
            None => r is None,
        },
{
    assert(s@.len() == s.len());
    match read_number(s, i) {
        None => None,
        Some((code, j)) => {
            if code == 38 || code == 48 {
                match read_part(s, j) {
                    Some((r, j1)) => match read_part(s, j1) {
                        Some((g, j2)) => match read_part(s, j2) {
                            Some((b, j3)) => {
                                let it = if code == 38 {
                                    ColorItem::TruecolorForeground(r, g, b)
                                } else {
                                    ColorItem::TruecolorBackground(r, g, b)
                                };
                                Some((it, j3))
                            },
                            None => None,
                        },
                        None => None,
                    },
                    None => None,
                }
            } else {
                match item_of_code(code) {
                    Some(it) => Some((it, j)),
                    None => None,
                }
            }
        },
    }
}

/// Reads the list of items at `i`.
fn read_items(s: &[u8], i: usize) -> (r: Option<(Vec<ColorItem>, usize)>)
    requires
        i <= s@.len(),
    ensures
        match items_at(s@, i as int) {
            Some((items, e)) => r is Some && r.unwrap().0@ == items && r.unwrap().1 == e,
            None => r is None,
        },
        r is Some ==> i < r.unwrap().1 <= s@.len(),
{
    assert(s@.len() == s.len());
    match read_item(s, i) {
        None => None,
        Some((first, k)) => {
            let mut items: Vec<ColorItem> = Vec::new();
            items.push(first);
            let mut j = k;
            let mut go = true;
            while go && j < s.len() && s[j] == 59
                invariant
                    i < k <= j <= s@.len(),
                    !go ==> more_items(s@, j as int).0 == Seq::<ColorItem>::empty(),
                    s@.len() <= usize::MAX,
                    items@ + more_items(s@, j as int).0 == seq![first] + more_items(s@, k as int).0,
                    more_items(s@, j as int).1 == more_items(s@, k as int).1,
                decreases s@.len() - j + if go {
                    1int
                } else {
                    0int
                },
            {
                match read_item(s, j + 1) {
                    Some((it, k2)) => {
                        proof {
                            let (rest, e) = more_items(s@, k2 as int);
                            assert(more_items(s@, j as int) == (seq![it] + rest, e));
                            assert(items@.push(it) + rest =~= items@ + (seq![it] + rest));
                        }
                        items.push(it);
                        j = k2;
                    },
                    None => {
                        go = false;
                    },
                }
            }
            proof {
                assert(more_items(s@, j as int).0 =~= Seq::<ColorItem>::empty());
                assert(items@ =~= items@ + more_items(s@, j as int).0);
            }
            Some((items, j))
        },
    }
}

/// Reads an escape sequence at `i`.
fn read_escape(s: &[u8], i: usize) -> (r: Option<(Vec<ColorItem>, usize)>)
    requires
        i <= s@.len(),
    ensures
        match escape_at(s@, i as int) {
            Some((items, e)) => r is Some && r.unwrap().0@ == items && r.unwrap().1 == e,
            None => r is None,
        },
        r is Some ==> i < r.unwrap().1 <= s@.len(),
{
    assert(s@.len() == s.len());
    if i < s.len() && i + 1 < s.len() && s[i] == 27 && s[i + 1] == 91 {
        match read_items(s, i + 2) {
            Some((items, e)) => if e < s.len() && s[e] == 109 {
                Some((items, e + 1))
            } else {
                None
            },
            None => None,
        }
    } else {
        None
    }
}

/// A styled span of a line: the items of its escape sequence and where its text lies.
#[derive(Debug)]
pub struct Span {
    pub items: Vec<ColorItem>,
    pub start: usize,
    pub end: usize,
}

/// The styled spans of a line, read from its start: each an escape sequence and the
/// text up to the next `ESC`. Reading stops where no span begins; what follows is left.
pub fn line_spans(line: &[u8]) -> (r: Vec<Span>)
    ensures
        r@.len() == spans_from(line@, 0).len(),
        forall|k: int|
            0 <= k < r@.len() ==> (#[trigger] r@[k]).items@ == spans_from(line@, 0)[k].0
                && r@[k].start == spans_from(line@, 0)[k].1 && r@[k].end == spans_from(line@, 0)[k].2,
{
    let mut r: Vec<Span> = Vec::new();
    let ghost mut done: Seq<(Seq<ColorItem>, int, int)> = Seq::empty();
    let mut i: usize = 0;
    loop
        invariant
            i <= line@.len(),
            done + spans_from(line@, i as int) == spans_from(line@, 0),
            r@.len() == done.len(),
            forall|k: int|
                0 <= k < r@.len() ==> (#[trigger] r@[k]).items@ == done[k].0 && r@[k].start == done[k].1
                    && r@[k].end == done[k].2,
        ensures
            done == spans_from(line@, 0),
            r@.len() == done.len(),
            forall|k: int|
                0 <= k < r@.len() ==> (#[trigger] r@[k]).items@ == done[k].0 && r@[k].start == done[k].1
                    && r@[k].end == done[k].2,
        decreases line@.len() - i,
    {
        match read_escape(line, i) {
            None => {
                assert(done =~= done + spans_from(line@, i as int));
                break ;
            },
            Some((items, j)) => {
                let mut t = j;
                proof {
                    lemma_runs_end(line@, j as int);
                }
                while t < line.len() && line[t] != 27
                    invariant
                        j <= t <= line@.len(),
                        text_end(line@, t as int) == text_end(line@, j as int),
                    decreases line@.len() - t,
                {
                    t = t + 1;
                }
                if t == j {
                    assert(done =~= done + spans_from(line@, i as int));
                    break ;
                }
                proof {
                    let seg = (items@, j as int, t as int);
                    assert(spans_from(line@, i as int) == seq![seg] + spans_from(line@, t as int));
                    assert(done.push(seg) + spans_from(line@, t as int) =~= done + spans_from(
                        line@,
                        i as int,
                    ));
                    done = done.push(seg);
                }
                r.push(Span { items, start: j, end: t });
                i = t;
            },
        }
    }
    r
}

/// No span of the line asks for `Dim`.
pub open spec fn spans_without_dim(line: Seq<u8>) -> bool {
    forall|k: int, m: int|
        0 <= k < spans_from(line, 0).len() && 0 <= m < spans_from(line, 0)[k].0.len()
            ==> spans_from(line, 0)[k].0[m] != ColorItem::Dim
}

/// The styled spans of a line as the style each sets up and the bounds of its text.
/// No span may ask for `Dim`, which is not supported.
pub fn line_styles(line: &[u8]) -> (r: Vec<(Style, usize, usize)>)
    requires
        spans_without_dim(line@),
    ensures
        r@.len() == spans_from(line@, 0).len(),
        forall|k: int|
            0 <= k < r@.len() ==> #[trigger] r@[k] == (
                style_of(spans_from(line@, 0)[k].0),
                spans_from(line@, 0)[k].1 as usize,
                spans_from(line@, 0)[k].2 as usize,
            ),
{
    let spans = line_spans(line);
    let mut r: Vec<(Style, usize, usize)> = Vec::new();
    let mut k: usize = 0;
    while k < spans.len()
        invariant
            k <= spans@.len(),
            spans_without_dim(line@),
            spans@.len() == spans_from(line@, 0).len(),
            forall|a: int|
                0 <= a < spans@.len() ==> (#[trigger] spans@[a]).items@ == spans_from(line@, 0)[a].0
                    && spans@[a].start == spans_from(line@, 0)[a].1 && spans@[a].end == spans_from(
                    line@,
                    0,
                )[a].2,
            r@.len() == k,
            forall|a: int|
                0 <= a < k ==> #[trigger] r@[a] == (
                    style_of(spans_from(line@, 0)[a].0),
                    spans_from(line@, 0)[a].1 as usize,
                    spans_from(line@, 0)[a].2 as usize,
                ),
        decreases spans@.len() - k,
    {
        let span = &spans[k];
        proof {
            assert(spans@[k as int].items@ == spans_from(line@, 0)[k as int].0);
            assert forall|m: int| 0 <= m < span.items@.len() implies span.items@[m] != ColorItem::Dim by {
                assert(spans_from(line@, 0)[k as int].0[m] != ColorItem::Dim);
            }
        }
        let style = Style::from_items(span.items.as_slice());
        r.push((style, span.start, span.end));
        k = k + 1;
    }
    r
}

/// How important a line written to the terminal is.
#[derive(Debug, Clone, Copy, PartialEq, Eq, Structural, Hash)]
pub enum LogLevel {
    Info,
    Debug,
    Attempt,
    Success,
    /// Failed, but was optional or can resort to a default.
    Warning,
    /// Failed, the action must be cancelled.
    Error,
    /// Failed, the application cannot continue.
    Fatal,
}

/// The console's kind of log message with the same name as `level`.
pub open spec fn level_kind(level: LogLevel) -> LogType {
    match level {
        LogLevel::Info => LogType::Info,
        LogLevel::Debug => LogType::Debug,
        LogLevel::Attempt => LogType::Attempt,
        LogLevel::Success => LogType::Success,
        LogLevel::Warning => LogType::Warning,
        LogLevel::Error => LogType::Error,
        LogLevel::Fatal => LogType::Fatal,
    }
}

impl LogLevel {
    /// The default level is `Info`.
    pub fn default() -> (r: LogLevel)
        ensures
            r == LogLevel::Info,
    {
        LogLevel::Info
    }

    /// The level's name, such as `warning`: the same as the log message kind's.
    pub fn to_string(self) -> (s: String)
        ensures
            s@ == log_type_name(level_kind(self)),
    {
        let kind = match self {
            LogLevel::Info => LogType::Info,
            LogLevel::Debug => LogType::Debug,
            LogLevel::Attempt => LogType::Attempt,
            LogLevel::Success => LogType::Success,
            LogLevel::Warning => LogType::Warning,
            LogLevel::Error => LogType::Error,
            LogLevel::Fatal => LogType::Fatal,
        };
        kind.to_string()
    }
}

} // verus!
