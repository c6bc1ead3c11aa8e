//! Rich text: text with embedded colour changes `ESC {...}`, which push, replace or pop
//! a colour on a stack; the colours they name, by theme name or as `rgba(r,g,b,a)`;
//! and reading such text piece by piece.
use crate::term::Color;
use crate::text::{
    chars_of, digit_of, digits_of, find_char, lemma_digits_roundtrip, parse_unsigned, push_digits,
    read_unsigned, slice_eq, string_from_chars, sub_chars, unsigned_digits,
};
use vstd::prelude::*;

verus! {

/// The colours a theme names.
#[derive(Debug, Clone, Copy, PartialEq, Eq, Structural, Hash)]
pub enum ColorId {
    Background,
    Background1,
    Background2,
    Background3,
    Foreground3,
    Foreground2,
    Foreground1,
    Foreground,
    Input,
    Output,
    Available,
    Interact,
    Active,
    Error,
    Destructive,
    Special,
    HyperRef,
    DeadLink,
    Caution,
    BlueprintsBackground,
    Resistance0,
    Resistance1,
    Resistance2,
    Resistance3,
    Resistance4,
    Resistance5,
    Resistance6,
    Resistance7,
    Resistance8,
    Resistance9,
}

/// The name of a theme colour.
pub open spec fn color_id_name(id: ColorId) -> Seq<char> {
    match id {
        ColorId::Background => seq!['b', 'a', 'c', 'k', 'g', 'r', 'o', 'u', 'n', 'd'],
        ColorId::Background1 => seq!['b', 'a', 'c', 'k', 'g', 'r', 'o', 'u', 'n', 'd', '1'],
        ColorId::Background2 => seq!['b', 'a', 'c', 'k', 'g', 'r', 'o', 'u', 'n', 'd', '2'],
        ColorId::Background3 => seq!['b', 'a', 'c', 'k', 'g', 'r', 'o', 'u', 'n', 'd', '3'],
        ColorId::Foreground3 => seq!['f', 'o', 'r', 'e', 'g', 'r', 'o', 'u', 'n', 'd', '3'],
        ColorId::Foreground2 => seq!['f', 'o', 'r', 'e', 'g', 'r', 'o', 'u', 'n', 'd', '2'],
        ColorId::Foreground1 => seq!['f', 'o', 'r', 'e', 'g', 'r', 'o', 'u', 'n', 'd', '1'],
        ColorId::Foreground => seq!['f', 'o', 'r', 'e', 'g', 'r', 'o', 'u', 'n', 'd'],
        ColorId::Input => seq!['i', 'n', 'p', 'u', 't'],
        ColorId::Output => seq!['o', 'u', 't', 'p', 'u', 't'],
        ColorId::Available => seq!['a', 'v', 'a', 'i', 'l', 'a', 'b', 'l', 'e'],
        ColorId::Interact => seq!['i', 'n', 't', 'e', 'r', 'a', 'c', 't'],
        ColorId::Active => seq!['a', 'c', 't', 'i', 'v', 'e'],
        ColorId::Error => seq!['e', 'r', 'r', 'o', 'r'],
        ColorId::Destructive => seq!['d', 'e', 's', 't', 'r', 'u', 'c', 't', 'i', 'v', 'e'],
        ColorId::Special => seq!['s', 'p', 'e', 'c', 'i', 'a', 'l'],
        ColorId::HyperRef => seq!['h', 'y', 'p', 'e', 'r', '_', 'r', 'e', 'f'],
        ColorId::DeadLink => seq!['d', 'e', 'a', 'd', '_', 'l', 'i', 'n', 'k'],
        ColorId::Caution => seq!['c', 'a', 'u', 't', 'i', 'o', 'n'],
        ColorId::BlueprintsBackground => seq!['b', 'l', 'u', 'e', 'p', 'r', 'i', 'n', 't', 's', '_', 'b', 'a', 'c', 'k', 'g', 'r', 'o', 'u', 'n', 'd'],
        ColorId::Resistance0 => seq!['r', 'e', 's', 'i', 's', 't', 'a', 'n', 'c', 'e', '0'],
        ColorId::Resistance1 => seq!['r', 'e', 's', 'i', 's', 't', 'a', 'n', 'c', 'e', '1'],
        ColorId::Resistance2 => seq!['r', 'e', 's', 'i', 's', 't', 'a', 'n', 'c', 'e', '2'],
        ColorId::Resistance3 => seq!['r', 'e', 's', 'i', 's', 't', 'a', 'n', 'c', 'e', '3'],
        ColorId::Resistance4 => seq!['r', 'e', 's', 'i', 's', 't', 'a', 'n', 'c', 'e', '4'],
        ColorId::Resistance5 => seq!['r', 'e', 's', 'i', 's', 't', 'a', 'n', 'c', 'e', '5'],
        ColorId::Resistance6 => seq!['r', 'e', 's', 'i', 's', 't', 'a', 'n', 'c', 'e', '6'],
        ColorId::Resistance7 => seq!['r', 'e', 's', 'i', 's', 't', 'a', 'n', 'c', 'e', '7'],
        ColorId::Resistance8 => seq!['r', 'e', 's', 'i', 's', 't', 'a', 'n', 'c', 'e', '8'],
        ColorId::Resistance9 => seq!['r', 'e', 's', 'i', 's', 't', 'a', 'n', 'c', 'e', '9'],
    }
}

/// The theme colour a name stands for.
pub open spec fn color_id_from_name(s: Seq<char>) -> Option<ColorId> {
    if s == color_id_name(ColorId::Background) {
        Some(ColorId::Background)
    } else if s == color_id_name(ColorId::Background1) {
        Some(ColorId::Background1)
    } else if s == color_id_name(ColorId::Background2) {
        Some(ColorId::Background2)
    } else if s == color_id_name(ColorId::Background3) {
        Some(ColorId::Background3)
    } else if s == color_id_name(ColorId::Foreground3) {
        Some(ColorId::Foreground3)
    } else if s == color_id_name(ColorId::Foreground2) {
        Some(ColorId::Foreground2)
    } else if s == color_id_name(ColorId::Foreground1) {
        Some(ColorId::Foreground1)
    } else if s == color_id_name(ColorId::Foreground) {
        Some(ColorId::Foreground)
    } else if s == color_id_name(ColorId::Input) {
        Some(ColorId::Input)
    } else if s == color_id_name(ColorId::Output) {
        Some(ColorId::Output)
    } else if s == color_id_name(ColorId::Available) {
        Some(ColorId::Available)
    } else if s == color_id_name(ColorId::Interact) {
        Some(ColorId::Interact)
    } else if s == color_id_name(ColorId::Active) {
        Some(ColorId::Active)
    } else if s == color_id_name(ColorId::Error) {
        Some(ColorId::Error)
    } else if s == color_id_name(ColorId::Destructive) {
        Some(ColorId::Destructive)
    } else if s == color_id_name(ColorId::Special) {
        Some(ColorId::Special)
    } else if s == color_id_name(ColorId::HyperRef) {
        Some(ColorId::HyperRef)
    } else if s == color_id_name(ColorId::DeadLink) {
        Some(ColorId::DeadLink)
    } else if s == color_id_name(ColorId::Caution) {
        Some(ColorId::Caution)
    } else if s == color_id_name(ColorId::BlueprintsBackground) {
        Some(ColorId::BlueprintsBackground)
    } else if s == color_id_name(ColorId::Resistance0) {
        Some(ColorId::Resistance0)
    } else if s == color_id_name(ColorId::Resistance1) {
        Some(ColorId::Resistance1)
    } else if s == color_id_name(ColorId::Resistance2) {
        Some(ColorId::Resistance2)
    } else if s == color_id_name(ColorId::Resistance3) {
        Some(ColorId::Resistance3)
    } else if s == color_id_name(ColorId::Resistance4) {
        Some(ColorId::Resistance4)
    } else if s == color_id_name(ColorId::Resistance5) {
        Some(ColorId::Resistance5)
    } else if s == color_id_name(ColorId::Resistance6) {
        Some(ColorId::Resistance6)
    } else if s == color_id_name(ColorId::Resistance7) {
        Some(ColorId::Resistance7)
    } else if s == color_id_name(ColorId::Resistance8) {
        Some(ColorId::Resistance8)
    } else if s == color_id_name(ColorId::Resistance9) {
        Some(ColorId::Resistance9)
    } else {
        None
    }
}

fn color_id_chars(id: ColorId) -> (r: Vec<char>)
    ensures
        r@ == color_id_name(id),
{
    let r = match id {
        ColorId::Background => vec!['b', 'a', 'c', 'k', 'g', 'r', 'o', 'u', 'n', 'd'],
        ColorId::Background1 => vec!['b', 'a', 'c', 'k', 'g', 'r', 'o', 'u', 'n', 'd', '1'],
        ColorId::Background2 => vec!['b', 'a', 'c', 'k', 'g', 'r', 'o', 'u', 'n', 'd', '2'],
        ColorId::Background3 => vec!['b', 'a', 'c', 'k', 'g', 'r', 'o', 'u', 'n', 'd', '3'],
        ColorId::Foreground3 => vec!['f', 'o', 'r', 'e', 'g', 'r', 'o', 'u', 'n', 'd', '3'],
        ColorId::Foreground2 => vec!['f', 'o', 'r', 'e', 'g', 'r', 'o', 'u', 'n', 'd', '2'],
        ColorId::Foreground1 => vec!['f', 'o', 'r', 'e', 'g', 'r', 'o', 'u', 'n', 'd', '1'],
        ColorId::Foreground => vec!['f', 'o', 'r', 'e', 'g', 'r', 'o', 'u', 'n', 'd'],
        ColorId::Input => vec!['i', 'n', 'p', 'u', 't'],
        ColorId::Output => vec!['o', 'u', 't', 'p', 'u', 't'],
        ColorId::Available => vec!['a', 'v', 'a', 'i', 'l', 'a', 'b', 'l', 'e'],
        ColorId::Interact => vec!['i', 'n', 't', 'e', 'r', 'a', 'c', 't'],
        ColorId::Active => vec!['a', 'c', 't', 'i', 'v', 'e'],
        ColorId::Error => vec!['e', 'r', 'r', 'o', 'r'],
        ColorId::Destructive => vec!['d', 'e', 's', 't', 'r', 'u', 'c', 't', 'i', 'v', 'e'],
        ColorId::Special => vec!['s', 'p', 'e', 'c', 'i', 'a', 'l'],
        ColorId::HyperRef => vec!['h', 'y', 'p', 'e', 'r', '_', 'r', 'e', 'f'],
        ColorId::DeadLink => vec!['d', 'e', 'a', 'd', '_', 'l', 'i', 'n', 'k'],
        ColorId::Caution => vec!['c', 'a', 'u', 't', 'i', 'o', 'n'],
        ColorId::BlueprintsBackground => vec!['b', 'l', 'u', 'e', 'p', 'r', 'i', 'n', 't', 's', '_', 'b', 'a', 'c', 'k', 'g', 'r', 'o', 'u', 'n', 'd'],
        ColorId::Resistance0 => vec!['r', 'e', 's', 'i', 's', 't', 'a', 'n', 'c', 'e', '0'],
        ColorId::Resistance1 => vec!['r', 'e', 's', 'i', 's', 't', 'a', 'n', 'c', 'e', '1'],
        ColorId::Resistance2 => vec!['r', 'e', 's', 'i', 's', 't', 'a', 'n', 'c', 'e', '2'],
        ColorId::Resistance3 => vec!['r', 'e', 's', 'i', 's', 't', 'a', 'n', 'c', 'e', '3'],
        ColorId::Resistance4 => vec!['r', 'e', 's', 'i', 's', 't', 'a', 'n', 'c', 'e', '4'],
        ColorId::Resistance5 => vec!['r', 'e', 's', 'i', 's', 't', 'a', 'n', 'c', 'e', '5'],
        ColorId::Resistance6 => vec!['r', 'e', 's', 'i', 's', 't', 'a', 'n', 'c', 'e', '6'],
        ColorId::Resistance7 => vec!['r', 'e', 's', 'i', 's', 't', 'a', 'n', 'c', 'e', '7'],
        ColorId::Resistance8 => vec!['r', 'e', 's', 'i', 's', 't', 'a', 'n', 'c', 'e', '8'],
        ColorId::Resistance9 => vec!['r', 'e', 's', 'i', 's', 't', 'a', 'n', 'c', 'e', '9'],
    };
    assert(r@ =~= color_id_name(id));
    r
}

/// Reads `cs[start..end]` as the name of a theme colour.
fn color_id_from_chars(cs: &Vec<char>, start: usize, end: usize) -> (r: Option<ColorId>)
    requires
        start <= end <= cs@.len(),
    ensures
        r == color_id_from_name(cs@.subrange(start as int, end as int)),
{
    if slice_eq(cs, start, end, &color_id_chars(ColorId::Background)) {
        Some(ColorId::Background)
    } else if slice_eq(cs, start, end, &color_id_chars(ColorId::Background1)) {
        Some(ColorId::Background1)
    } else if slice_eq(cs, start, end, &color_id_chars(ColorId::Background2)) {
        Some(ColorId::Background2)
    } else if slice_eq(cs, start, end, &color_id_chars(ColorId::Background3)) {
        Some(ColorId::Background3)
    } else if slice_eq(cs, start, end, &color_id_chars(ColorId::Foreground3)) {
        Some(ColorId::Foreground3)
    } else if slice_eq(cs, start, end, &color_id_chars(ColorId::Foreground2)) {
        Some(ColorId::Foreground2)
    } else if slice_eq(cs, start, end, &color_id_chars(ColorId::Foreground1)) {
        Some(ColorId::Foreground1)
    } else if slice_eq(cs, start, end, &color_id_chars(ColorId::Foreground)) {
        Some(ColorId::Foreground)
    } else if slice_eq(cs, start, end, &color_id_chars(ColorId::Input)) {
        Some(ColorId::Input)
    } else if slice_eq(cs, start, end, &color_id_chars(ColorId::Output)) {
        Some(ColorId::Output)
    } else if slice_eq(cs, start, end, &color_id_chars(ColorId::Available)) {
        Some(ColorId::Available)
    } else if slice_eq(cs, start, end, &color_id_chars(ColorId::Interact)) {
        Some(ColorId::Interact)
    } else if slice_eq(cs, start, end, &color_id_chars(ColorId::Active)) {
        Some(ColorId::Active)
    } else if slice_eq(cs, start, end, &color_id_chars(ColorId::Error)) {
        Some(ColorId::Error)
    } else if slice_eq(cs, start, end, &color_id_chars(ColorId::Destructive)) {
        Some(ColorId::Destructive)
    } else if slice_eq(cs, start, end, &color_id_chars(ColorId::Special)) {
        Some(ColorId::Special)
    } else if slice_eq(cs, start, end, &color_id_chars(ColorId::HyperRef)) {
        Some(ColorId::HyperRef)
    } else if slice_eq(cs, start, end, &color_id_chars(ColorId::DeadLink)) {
        Some(ColorId::DeadLink)
    } else if slice_eq(cs, start, end, &color_id_chars(ColorId::Caution)) {
        Some(ColorId::Caution)
    } else if slice_eq(cs, start, end, &color_id_chars(ColorId::BlueprintsBackground)) {
        Some(ColorId::BlueprintsBackground)
    } else if slice_eq(cs, start, end, &color_id_chars(ColorId::Resistance0)) {
        Some(ColorId::Resistance0)
    } else if slice_eq(cs, start, end, &color_id_chars(ColorId::Resistance1)) {
        Some(ColorId::Resistance1)
    } else if slice_eq(cs, start, end, &color_id_chars(ColorId::Resistance2)) {
        Some(ColorId::Resistance2)
    } else if slice_eq(cs, start, end, &color_id_chars(ColorId::Resistance3)) {
        Some(ColorId::Resistance3)
    } else if slice_eq(cs, start, end, &color_id_chars(ColorId::Resistance4)) {
        Some(ColorId::Resistance4)
    } else if slice_eq(cs, start, end, &color_id_chars(ColorId::Resistance5)) {
        Some(ColorId::Resistance5)
    } else if slice_eq(cs, start, end, &color_id_chars(ColorId::Resistance6)) {
        Some(ColorId::Resistance6)
    } else if slice_eq(cs, start, end, &color_id_chars(ColorId::Resistance7)) {
        Some(ColorId::Resistance7)
    } else if slice_eq(cs, start, end, &color_id_chars(ColorId::Resistance8)) {
        Some(ColorId::Resistance8)
    } else if slice_eq(cs, start, end, &color_id_chars(ColorId::Resistance9)) {
        Some(ColorId::Resistance9)
    } else {
        None
    }
}

impl ColorId {
    /// The colour's name, such as `hyper_ref`.
    pub fn to_string(self) -> (s: String)
        ensures
            s@ == color_id_name(self),
    {
        string_from_chars(&color_id_chars(self))
    }

    /// Reads the name of a theme colour; any other text is an error.
    pub fn from_str(s: &str) -> (r: Result<ColorId, ()>)
        ensures
            r == (match color_id_from_name(s@) {
                Some(id) => Ok::<ColorId, ()>(id),
                None => Err(()),
            }),
    {
        let cs = chars_of(s);
        assert(cs@.subrange(0, cs@.len() as int) =~= cs@);
        match color_id_from_chars(&cs, 0, cs.len()) {
            Some(id) => Ok(id),
            None => Err(()),
        }
    }
}

/// The error of reading a colour change that does not have the form
/// `ESC{rgba(r,g,b,a)}` or `ESC{name}`.
#[derive(Debug, Clone, Copy, PartialEq, Eq, Structural)]
pub enum RichStrError {
    InvalidEscapeCode,
}

/// A colour: one the theme names, or an exact one.
#[derive(Debug, Clone, Copy, PartialEq, Eq, Structural)]
pub enum ColorRef {
    Theme(ColorId),
    Exact(Color),
}

/// What a colour change does to the stack of colours.
#[derive(Debug, Clone, Copy, PartialEq, Eq, Structural)]
pub enum ColorAct {
    Pop,
    Repl(ColorRef),
    Push(ColorRef),
}

/// `p` is a prefix of `s`.
pub open spec fn starts_with(s: Seq<char>, p: Seq<char>) -> bool {
    p.len() <= s.len() && s.take(p.len() as int) == p
}

/// The first `,` of `s` at or after `from`.
pub open spec fn comma_from(s: Seq<char>, from: int) -> Option<int>
    decreases s.len() - from,
{
    if from < 0 || from >= s.len() {
        None
    } else if s[from] == ',' {
        Some(from)
    } else {
        comma_from(s, from + 1)
    }
}

/// A number from 0 to 255 as the standard library reads one.
pub open spec fn byte_of(s: Seq<char>) -> Option<u8> {
    match parse_unsigned(s, 10, 255) {
        Some(v) => Some(v as u8),
        None => None,
    }
}

/// The four numbers of `r,g,b,a`: the first three end at a comma, the last takes the rest.
pub open spec fn rgba_parts(s: Seq<char>) -> Option<Color> {
    match comma_from(s, 0) {
        Some(c1) => match comma_from(s, c1 + 1) {
            Some(c2) => match comma_from(s, c2 + 1) {
                Some(c3) => match (
                    byte_of(s.subrange(0, c1)),
                    byte_of(s.subrange(c1 + 1, c2)),
                    byte_of(s.subrange(c2 + 1, c3)),
                    byte_of(s.subrange(c3 + 1, s.len() as int)),
                ) {
                    (Some(r), Some(g), Some(b), Some(a)) => Some(Color { r, g, b, a }),
                    _ => None,
                },
                None => None,
            },
            None => None,
        },
        None => None,
    }
}

/// The text `rgba(`.
pub open spec fn rgba_open() -> Seq<char> {
    seq!['r', 'g', 'b', 'a', '(']
}

/// The name of a theme colour reads back as that colour.
pub proof fn lemma_color_id_roundtrip(id: ColorId)
    ensures
        color_id_from_name(color_id_name(id)) == Some(id),
{
    match id {
        ColorId::Background => {
            assert(color_id_name(id).len() == 10);
        },
        ColorId::Background1 => {
            assert(color_id_name(id).len() == 11);
            assert(color_id_name(ColorId::Background).len() == 10);
        },
        ColorId::Background2 => {
            assert(color_id_name(id).len() == 11);
            assert(color_id_name(ColorId::Background).len() == 10);
            assert(color_id_name(id)[10] != color_id_name(ColorId::Background1)[10]);
        },
        ColorId::Background3 => {
            assert(color_id_name(id).len() == 11);
            assert(color_id_name(ColorId::Background).len() == 10);
            assert(color_id_name(id)[10] != color_id_name(ColorId::Background1)[10]);
            assert(color_id_name(id)[10] != color_id_name(ColorId::Background2)[10]);
        },
        ColorId::Foreground3 => {
            assert(color_id_name(id).len() == 11);
            assert(color_id_name(ColorId::Background).len() == 10);
            assert(color_id_name(id)[0] != color_id_name(ColorId::Background1)[0]);
            assert(color_id_name(id)[0] != color_id_name(ColorId::Background2)[0]);
            assert(color_id_name(id)[0] != color_id_name(ColorId::Background3)[0]);
        },
        ColorId::Foreground2 => {
            assert(color_id_name(id).len() == 11);
            assert(color_id_name(ColorId::Background).len() == 10);
            assert(color_id_name(id)[0] != color_id_name(ColorId::Background1)[0]);
            assert(color_id_name(id)[0] != color_id_name(ColorId::Background2)[0]);
            assert(color_id_name(id)[0] != color_id_name(ColorId::Background3)[0]);
            assert(color_id_name(id)[10] != color_id_name(ColorId::Foreground3)[10]);
        },
        ColorId::Foreground1 => {
            assert(color_id_name(id).len() == 11);
            assert(color_id_name(ColorId::Background).len() == 10);
            assert(color_id_name(id)[0] != color_id_name(ColorId::Background1)[0]);
            assert(color_id_name(id)[0] != color_id_name(ColorId::Background2)[0]);
            assert(color_id_name(id)[0] != color_id_name(ColorId::Background3)[0]);
            assert(color_id_name(id)[10] != color_id_name(ColorId::Foreground3)[10]);
            assert(color_id_name(id)[10] != color_id_name(ColorId::Foreground2)[10]);
        },
        ColorId::Foreground => {
            assert(color_id_name(id).len() == 10);
            assert(color_id_name(id)[0] != color_id_name(ColorId::Background)[0]);
            assert(color_id_name(ColorId::Background1).len() == 11);
            assert(color_id_name(ColorId::Background2).len() == 11);
            assert(color_id_name(ColorId::Background3).len() == 11);
            assert(color_id_name(ColorId::Foreground3).len() == 11);
            assert(color_id_name(ColorId::Foreground2).len() == 11);
            assert(color_id_name(ColorId::Foreground1).len() == 11);
        },
        ColorId::Input => {
            assert(color_id_name(id).len() == 5);
            assert(color_id_name(ColorId::Background).len() == 10);
            assert(color_id_name(ColorId::Background1).len() == 11);
            assert(color_id_name(ColorId::Background2).len() == 11);
            assert(color_id_name(ColorId::Background3).len() == 11);
            assert(color_id_name(ColorId::Foreground3).len() == 11);
            assert(color_id_name(ColorId::Foreground2).len() == 11);
            assert(color_id_name(ColorId::Foreground1).len() == 11);
            assert(color_id_name(ColorId::Foreground).len() == 10);
        },
        ColorId::Output => {
            assert(color_id_name(id).len() == 6);
            assert(color_id_name(ColorId::Background).len() == 10);
            assert(color_id_name(ColorId::Background1).len() == 11);
            assert(color_id_name(ColorId::Background2).len() == 11);
            assert(color_id_name(ColorId::Background3).len() == 11);
            assert(color_id_name(ColorId::Foreground3).len() == 11);
            assert(color_id_name(ColorId::Foreground2).len() == 11);
            assert(color_id_name(ColorId::Foreground1).len() == 11);
            assert(color_id_name(ColorId::Foreground).len() == 10);
            assert(color_id_name(ColorId::Input).len() == 5);
        },
        ColorId::Available => {
            assert(color_id_name(id).len() == 9);
            assert(color_id_name(ColorId::Background).len() == 10);
            assert(color_id_name(ColorId::Background1).len() == 11);
            assert(color_id_name(ColorId::Background2).len() == 11);
            assert(color_id_name(ColorId::Background3).len() == 11);
            assert(color_id_name(ColorId::Foreground3).len() == 11);
            assert(color_id_name(ColorId::Foreground2).len() == 11);
            assert(color_id_name(ColorId::Foreground1).len() == 11);
            assert(color_id_name(ColorId::Foreground).len() == 10);
            assert(color_id_name(ColorId::Input).len() == 5);
            assert(color_id_name(ColorId::Output).len() == 6);
        },
        ColorId::Interact => {
            assert(color_id_name(id).len() == 8);
            assert(color_id_name(ColorId::Background).len() == 10);
            assert(color_id_name(ColorId::Background1).len() == 11);
            assert(color_id_name(ColorId::Background2).len() == 11);
            assert(color_id_name(ColorId::Background3).len() == 11);
            assert(color_id_name(ColorId::Foreground3).len() == 11);
            assert(color_id_name(ColorId::Foreground2).len() == 11);
            assert(color_id_name(ColorId::Foreground1).len() == 11);
            assert(color_id_name(ColorId::Foreground).len() == 10);
            assert(color_id_name(ColorId::Input).len() == 5);
            assert(color_id_name(ColorId::Output).len() == 6);
            assert(color_id_name(ColorId::Available).len() == 9);
        },
        ColorId::Active => {
            assert(color_id_name(id).len() == 6);
            assert(color_id_name(ColorId::Background).len() == 10);
            assert(color_id_name(ColorId::Background1).len() == 11);
            assert(color_id_name(ColorId::Background2).len() == 11);
            assert(color_id_name(ColorId::Background3).len() == 11);
            assert(color_id_name(ColorId::Foreground3).len() == 11);
            assert(color_id_name(ColorId::Foreground2).len() == 11);
            assert(color_id_name(ColorId::Foreground1).len() == 11);
            assert(color_id_name(ColorId::Foreground).len() == 10);
            assert(color_id_name(ColorId::Input).len() == 5);
            assert(color_id_name(id)[0] != color_id_name(ColorId::Output)[0]);
            assert(color_id_name(ColorId::Available).len() == 9);
            assert(color_id_name(ColorId::Interact).len() == 8);
        },
        ColorId::Error => {
            assert(color_id_name(id).len() == 5);
            assert(color_id_name(ColorId::Background).len() == 10);
            assert(color_id_name(ColorId::Background1).len() == 11);
            assert(color_id_name(ColorId::Background2).len() == 11);
            assert(color_id_name(ColorId::Background3).len() == 11);
            assert(color_id_name(ColorId::Foreground3).len() == 11);
            assert(color_id_name(ColorId::Foreground2).len() == 11);
            assert(color_id_name(ColorId::Foreground1).len() == 11);
            assert(color_id_name(ColorId::Foreground).len() == 10);
            assert(color_id_name(id)[0] != color_id_name(ColorId::Input)[0]);
            assert(color_id_name(ColorId::Output).len() == 6);
            assert(color_id_name(ColorId::Available).len() == 9);
            assert(color_id_name(ColorId::Interact).len() == 8);
            assert(color_id_name(ColorId::Active).len() == 6);
        },
        ColorId::Destructive => {
            assert(color_id_name(id).len() == 11);
            assert(color_id_name(ColorId::Background).len() == 10);
            assert(color_id_name(id)[0] != color_id_name(ColorId::Background1)[0]);
            assert(color_id_name(id)[0] != color_id_name(ColorId::Background2)[0]);
            assert(color_id_name(id)[0] != color_id_name(ColorId::Background3)[0]);
            assert(color_id_name(id)[0] != color_id_name(ColorId::Foreground3)[0]);
            assert(color_id_name(id)[0] != color_id_name(ColorId::Foreground2)[0]);
            assert(color_id_name(id)[0] != color_id_name(ColorId::Foreground1)[0]);
            assert(color_id_name(ColorId::Foreground).len() == 10);
            assert(color_id_name(ColorId::Input).len() == 5);
            assert(color_id_name(ColorId::Output).len() == 6);
            assert(color_id_name(ColorId::Available).len() == 9);
            assert(color_id_name(ColorId::Interact).len() == 8);
            assert(color_id_name(ColorId::Active).len() == 6);
            assert(color_id_name(ColorId::Error).len() == 5);
        },
        ColorId::Special => {
            assert(color_id_name(id).len() == 7);
            assert(color_id_name(ColorId::Background).len() == 10);
            assert(color_id_name(ColorId::Background1).len() == 11);
            assert(color_id_name(ColorId::Background2).len() == 11);
            assert(color_id_name(ColorId::Background3).len() == 11);
            assert(color_id_name(ColorId::Foreground3).len() == 11);
            assert(color_id_name(ColorId::Foreground2).len() == 11);
            assert(color_id_name(ColorId::Foreground1).len() == 11);
            assert(color_id_name(ColorId::Foreground).len() == 10);
            assert(color_id_name(ColorId::Input).len() == 5);
            assert(color_id_name(ColorId::Output).len() == 6);
            assert(color_id_name(ColorId::Available).len() == 9);
            assert(color_id_name(ColorId::Interact).len() == 8);
            assert(color_id_name(ColorId::Active).len() == 6);
            assert(color_id_name(ColorId::Error).len() == 5);
            assert(color_id_name(ColorId::Destructive).len() == 11);
        },
        ColorId::HyperRef => {
            assert(color_id_name(id).len() == 9);
            assert(color_id_name(ColorId::Background).len() == 10);
            assert(color_id_name(ColorId::Background1).len() == 11);
            assert(color_id_name(ColorId::Background2).len() == 11);
            assert(color_id_name(ColorId::Background3).len() == 11);
            assert(color_id_name(ColorId::Foreground3).len() == 11);
            assert(color_id_name(ColorId::Foreground2).len() == 11);
            assert(color_id_name(ColorId::Foreground1).len() == 11);
            assert(color_id_name(ColorId::Foreground).len() == 10);
            assert(color_id_name(ColorId::Input).len() == 5);
            assert(color_id_name(ColorId::Output).len() == 6);
            assert(color_id_name(id)[0] != color_id_name(ColorId::Available)[0]);
            assert(color_id_name(ColorId::Interact).len() == 8);
            assert(color_id_name(ColorId::Active).len() == 6);
            assert(color_id_name(ColorId::Error).len() == 5);
            assert(color_id_name(ColorId::Destructive).len() == 11);
            assert(color_id_name(ColorId::Special).len() == 7);
        },
        ColorId::DeadLink => {
            assert(color_id_name(id).len() == 9);
            assert(color_id_name(ColorId::Background).len() == 10);
            assert(color_id_name(ColorId::Background1).len() == 11);
            assert(color_id_name(ColorId::Background2).len() == 11);
            assert(color_id_name(ColorId::Background3).len() == 11);
            assert(color_id_name(ColorId::Foreground3).len() == 11);
            assert(color_id_name(ColorId::Foreground2).len() == 11);
            assert(color_id_name(ColorId::Foreground1).len() == 11);
            assert(color_id_name(ColorId::Foreground).len() == 10);
            assert(color_id_name(ColorId::Input).len() == 5);
            assert(color_id_name(ColorId::Output).len() == 6);
            assert(color_id_name(id)[0] != color_id_name(ColorId::Available)[0]);
            assert(color_id_name(ColorId::Interact).len() == 8);
            assert(color_id_name(ColorId::Active).len() == 6);
            assert(color_id_name(ColorId::Error).len() == 5);
            assert(color_id_name(ColorId::Destructive).len() == 11);
            assert(color_id_name(ColorId::Special).len() == 7);
            assert(color_id_name(id)[0] != color_id_name(ColorId::HyperRef)[0]);
        },
        ColorId::Caution => {
            assert(color_id_name(id).len() == 7);
            assert(color_id_name(ColorId::Background).len() == 10);
            assert(color_id_name(ColorId::Background1).len() == 11);
            assert(color_id_name(ColorId::Background2).len() == 11);
            assert(color_id_name(ColorId::Background3).len() == 11);
            assert(color_id_name(ColorId::Foreground3).len() == 11);
            assert(color_id_name(ColorId::Foreground2).len() == 11);
            assert(color_id_name(ColorId::Foreground1).len() == 11);
            assert(color_id_name(ColorId::Foreground).len() == 10);
            assert(color_id_name(ColorId::Input).len() == 5);
            assert(color_id_name(ColorId::Output).len() == 6);
            assert(color_id_name(ColorId::Available).len() == 9);
            assert(color_id_name(ColorId::Interact).len() == 8);
            assert(color_id_name(ColorId::Active).len() == 6);
            assert(color_id_name(ColorId::Error).len() == 5);
            assert(color_id_name(ColorId::Destructive).len() == 11);
            assert(color_id_name(id)[0] != color_id_name(ColorId::Special)[0]);
            assert(color_id_name(ColorId::HyperRef).len() == 9);
            assert(color_id_name(ColorId::DeadLink).len() == 9);
        },
        ColorId::BlueprintsBackground => {
            assert(color_id_name(id).len() == 21);
            assert(color_id_name(ColorId::Background).len() == 10);
            assert(color_id_name(ColorId::Background1).len() == 11);
            assert(color_id_name(ColorId::Background2).len() == 11);
            assert(color_id_name(ColorId::Background3).len() == 11);
            assert(color_id_name(ColorId::Foreground3).len() == 11);
            assert(color_id_name(ColorId::Foreground2).len() == 11);
            assert(color_id_name(ColorId::Foreground1).len() == 11);
            assert(color_id_name(ColorId::Foreground).len() == 10);
            assert(color_id_name(ColorId::Input).len() == 5);
            assert(color_id_name(ColorId::Output).len() == 6);
            assert(color_id_name(ColorId::Available).len() == 9);
            assert(color_id_name(ColorId::Interact).len() == 8);
            assert(color_id_name(ColorId::Active).len() == 6);
            assert(color_id_name(ColorId::Error).len() == 5);
            assert(color_id_name(ColorId::Destructive).len() == 11);
            assert(color_id_name(ColorId::Special).len() == 7);
            assert(color_id_name(ColorId::HyperRef).len() == 9);
            assert(color_id_name(ColorId::DeadLink).len() == 9);
            assert(color_id_name(ColorId::Caution).len() == 7);
        },
        ColorId::Resistance0 => {
            assert(color_id_name(id).len() == 11);
            assert(color_id_name(ColorId::Background).len() == 10);
            assert(color_id_name(id)[0] != color_id_name(ColorId::Background1)[0]);
            assert(color_id_name(id)[0] != color_id_name(ColorId::Background2)[0]);
            assert(color_id_name(id)[0] != color_id_name(ColorId::Background3)[0]);
            assert(color_id_name(id)[0] != color_id_name(ColorId::Foreground3)[0]);
            assert(color_id_name(id)[0] != color_id_name(ColorId::Foreground2)[0]);
            assert(color_id_name(id)[0] != color_id_name(ColorId::Foreground1)[0]);
            assert(color_id_name(ColorId::Foreground).len() == 10);
            assert(color_id_name(ColorId::Input).len() == 5);
            assert(color_id_name(ColorId::Output).len() == 6);
            assert(color_id_name(ColorId::Available).len() == 9);
            assert(color_id_name(ColorId::Interact).len() == 8);
            assert(color_id_name(ColorId::Active).len() == 6);
            assert(color_id_name(ColorId::Error).len() == 5);
            assert(color_id_name(id)[0] != color_id_name(ColorId::Destructive)[0]);
            assert(color_id_name(ColorId::Special).len() == 7);
            assert(color_id_name(ColorId::HyperRef).len() == 9);
            assert(color_id_name(ColorId::DeadLink).len() == 9);
            assert(color_id_name(ColorId::Caution).len() == 7);
            assert(color_id_name(ColorId::BlueprintsBackground).len() == 21);
        },
        ColorId::Resistance1 => {
            assert(color_id_name(id).len() == 11);
            assert(color_id_name(ColorId::Background).len() == 10);
            assert(color_id_name(id)[0] != color_id_name(ColorId::Background1)[0]);
            assert(color_id_name(id)[0] != color_id_name(ColorId::Background2)[0]);
            assert(color_id_name(id)[0] != color_id_name(ColorId::Background3)[0]);
            assert(color_id_name(id)[0] != color_id_name(ColorId::Foreground3)[0]);
            assert(color_id_name(id)[0] != color_id_name(ColorId::Foreground2)[0]);
            assert(color_id_name(id)[0] != color_id_name(ColorId::Foreground1)[0]);
            assert(color_id_name(ColorId::Foreground).len() == 10);
            assert(color_id_name(ColorId::Input).len() == 5);
            assert(color_id_name(ColorId::Output).len() == 6);
            assert(color_id_name(ColorId::Available).len() == 9);
            assert(color_id_name(ColorId::Interact).len() == 8);
            assert(color_id_name(ColorId::Active).len() == 6);
            assert(color_id_name(ColorId::Error).len() == 5);
            assert(color_id_name(id)[0] != color_id_name(ColorId::Destructive)[0]);
            assert(color_id_name(ColorId::Special).len() == 7);
            assert(color_id_name(ColorId::HyperRef).len() == 9);
            assert(color_id_name(ColorId::DeadLink).len() == 9);
            assert(color_id_name(ColorId::Caution).len() == 7);
            assert(color_id_name(ColorId::BlueprintsBackground).len() == 21);
            assert(color_id_name(id)[10] != color_id_name(ColorId::Resistance0)[10]);
        },
        ColorId::Resistance2 => {
            assert(color_id_name(id).len() == 11);
            assert(color_id_name(ColorId::Background).len() == 10);
            assert(color_id_name(id)[0] != color_id_name(ColorId::Background1)[0]);
            assert(color_id_name(id)[0] != color_id_name(ColorId::Background2)[0]);
            assert(color_id_name(id)[0] != color_id_name(ColorId::Background3)[0]);
            assert(color_id_name(id)[0] != color_id_name(ColorId::Foreground3)[0]);
            assert(color_id_name(id)[0] != color_id_name(ColorId::Foreground2)[0]);
            assert(color_id_name(id)[0] != color_id_name(ColorId::Foreground1)[0]);
            assert(color_id_name(ColorId::Foreground).len() == 10);
            assert(color_id_name(ColorId::Input).len() == 5);
            assert(color_id_name(ColorId::Output).len() == 6);
            assert(color_id_name(ColorId::Available).len() == 9);
            assert(color_id_name(ColorId::Interact).len() == 8);
            assert(color_id_name(ColorId::Active).len() == 6);
            assert(color_id_name(ColorId::Error).len() == 5);
            assert(color_id_name(id)[0] != color_id_name(ColorId::Destructive)[0]);
            assert(color_id_name(ColorId::Special).len() == 7);
            assert(color_id_name(ColorId::HyperRef).len() == 9);
            assert(color_id_name(ColorId::DeadLink).len() == 9);
            assert(color_id_name(ColorId::Caution).len() == 7);
            assert(color_id_name(ColorId::BlueprintsBackground).len() == 21);
            assert(color_id_name(id)[10] != color_id_name(ColorId::Resistance0)[10]);
            assert(color_id_name(id)[10] != color_id_name(ColorId::Resistance1)[10]);
        },
        ColorId::Resistance3 => {
            assert(color_id_name(id).len() == 11);
            assert(color_id_name(ColorId::Background).len() == 10);
            assert(color_id_name(id)[0] != color_id_name(ColorId::Background1)[0]);
            assert(color_id_name(id)[0] != color_id_name(ColorId::Background2)[0]);
            assert(color_id_name(id)[0] != color_id_name(ColorId::Background3)[0]);
            assert(color_id_name(id)[0] != color_id_name(ColorId::Foreground3)[0]);
            assert(color_id_name(id)[0] != color_id_name(ColorId::Foreground2)[0]);
            assert(color_id_name(id)[0] != color_id_name(ColorId::Foreground1)[0]);
            assert(color_id_name(ColorId::Foreground).len() == 10);
            assert(color_id_name(ColorId::Input).len() == 5);
            assert(color_id_name(ColorId::Output).len() == 6);
            assert(color_id_name(ColorId::Available).len() == 9);
            assert(color_id_name(ColorId::Interact).len() == 8);
            assert(color_id_name(ColorId::Active).len() == 6);
            assert(color_id_name(ColorId::Error).len() == 5);
            assert(color_id_name(id)[0] != color_id_name(ColorId::Destructive)[0]);
            assert(color_id_name(ColorId::Special).len() == 7);
            assert(color_id_name(ColorId::HyperRef).len() == 9);
            assert(color_id_name(ColorId::DeadLink).len() == 9);
            assert(color_id_name(ColorId::Caution).len() == 7);
            assert(color_id_name(ColorId::BlueprintsBackground).len() == 21);
            assert(color_id_name(id)[10] != color_id_name(ColorId::Resistance0)[10]);
            assert(color_id_name(id)[10] != color_id_name(ColorId::Resistance1)[10]);
            assert(color_id_name(id)[10] != color_id_name(ColorId::Resistance2)[10]);
        },
        ColorId::Resistance4 => {
            assert(color_id_name(id).len() == 11);
            assert(color_id_name(ColorId::Background).len() == 10);
            assert(color_id_name(id)[0] != color_id_name(ColorId::Background1)[0]);
            assert(color_id_name(id)[0] != color_id_name(ColorId::Background2)[0]);
            assert(color_id_name(id)[0] != color_id_name(ColorId::Background3)[0]);
            assert(color_id_name(id)[0] != color_id_name(ColorId::Foreground3)[0]);
            assert(color_id_name(id)[0] != color_id_name(ColorId::Foreground2)[0]);
            assert(color_id_name(id)[0] != color_id_name(ColorId::Foreground1)[0]);
            assert(color_id_name(ColorId::Foreground).len() == 10);
            assert(color_id_name(ColorId::Input).len() == 5);
            assert(color_id_name(ColorId::Output).len() == 6);
            assert(color_id_name(ColorId::Available).len() == 9);
            assert(color_id_name(ColorId::Interact).len() == 8);
            assert(color_id_name(ColorId::Active).len() == 6);
            assert(color_id_name(ColorId::Error).len() == 5);
            assert(color_id_name(id)[0] != color_id_name(ColorId::Destructive)[0]);
            assert(color_id_name(ColorId::Special).len() == 7);
            assert(color_id_name(ColorId::HyperRef).len() == 9);
            assert(color_id_name(ColorId::DeadLink).len() == 9);
            assert(color_id_name(ColorId::Caution).len() == 7);
            assert(color_id_name(ColorId::BlueprintsBackground).len() == 21);
            assert(color_id_name(id)[10] != color_id_name(ColorId::Resistance0)[10]);
            assert(color_id_name(id)[10] != color_id_name(ColorId::Resistance1)[10]);
            assert(color_id_name(id)[10] != color_id_name(ColorId::Resistance2)[10]);
            assert(color_id_name(id)[10] != color_id_name(ColorId::Resistance3)[10]);
        },
        ColorId::Resistance5 => {
            assert(color_id_name(id).len() == 11);
            assert(color_id_name(ColorId::Background).len() == 10);
            assert(color_id_name(id)[0] != color_id_name(ColorId::Background1)[0]);
            assert(color_id_name(id)[0] != color_id_name(ColorId::Background2)[0]);
            assert(color_id_name(id)[0] != color_id_name(ColorId::Background3)[0]);
            assert(color_id_name(id)[0] != color_id_name(ColorId::Foreground3)[0]);
            assert(color_id_name(id)[0] != color_id_name(ColorId::Foreground2)[0]);
            assert(color_id_name(id)[0] != color_id_name(ColorId::Foreground1)[0]);
            assert(color_id_name(ColorId::Foreground).len() == 10);
            assert(color_id_name(ColorId::Input).len() == 5);
            assert(color_id_name(ColorId::Output).len() == 6);
            assert(color_id_name(ColorId::Available).len() == 9);
            assert(color_id_name(ColorId::Interact).len() == 8);
            assert(color_id_name(ColorId::Active).len() == 6);
            assert(color_id_name(ColorId::Error).len() == 5);
            assert(color_id_name(id)[0] != color_id_name(ColorId::Destructive)[0]);
            assert(color_id_name(ColorId::Special).len() == 7);
            assert(color_id_name(ColorId::HyperRef).len() == 9);
            assert(color_id_name(ColorId::DeadLink).len() == 9);
            assert(color_id_name(ColorId::Caution).len() == 7);
            assert(color_id_name(ColorId::BlueprintsBackground).len() == 21);
            assert(color_id_name(id)[10] != color_id_name(ColorId::Resistance0)[10]);
            assert(color_id_name(id)[10] != color_id_name(ColorId::Resistance1)[10]);
            assert(color_id_name(id)[10] != color_id_name(ColorId::Resistance2)[10]);
            assert(color_id_name(id)[10] != color_id_name(ColorId::Resistance3)[10]);
            assert(color_id_name(id)[10] != color_id_name(ColorId::Resistance4)[10]);
        },
        ColorId::Resistance6 => {
            assert(color_id_name(id).len() == 11);
            assert(color_id_name(ColorId::Background).len() == 10);
            assert(color_id_name(id)[0] != color_id_name(ColorId::Background1)[0]);
            assert(color_id_name(id)[0] != color_id_name(ColorId::Background2)[0]);
            assert(color_id_name(id)[0] != color_id_name(ColorId::Background3)[0]);
            assert(color_id_name(id)[0] != color_id_name(ColorId::Foreground3)[0]);
            assert(color_id_name(id)[0] != color_id_name(ColorId::Foreground2)[0]);
            assert(color_id_name(id)[0] != color_id_name(ColorId::Foreground1)[0]);
            assert(color_id_name(ColorId::Foreground).len() == 10);
            assert(color_id_name(ColorId::Input).len() == 5);
            assert(color_id_name(ColorId::Output).len() == 6);
            assert(color_id_name(ColorId::Available).len() == 9);
            assert(color_id_name(ColorId::Interact).len() == 8);
            assert(color_id_name(ColorId::Active).len() == 6);
            assert(color_id_name(ColorId::Error).len() == 5);
            assert(color_id_name(id)[0] != color_id_name(ColorId::Destructive)[0]);
            assert(color_id_name(ColorId::Special).len() == 7);
            assert(color_id_name(ColorId::HyperRef).len() == 9);
            assert(color_id_name(ColorId::DeadLink).len() == 9);
            assert(color_id_name(ColorId::Caution).len() == 7);
            assert(color_id_name(ColorId::BlueprintsBackground).len() == 21);
            assert(color_id_name(id)[10] != color_id_name(ColorId::Resistance0)[10]);
            assert(color_id_name(id)[10] != color_id_name(ColorId::Resistance1)[10]);
            assert(color_id_name(id)[10] != color_id_name(ColorId::Resistance2)[10]);
            assert(color_id_name(id)[10] != color_id_name(ColorId::Resistance3)[10]);
            assert(color_id_name(id)[10] != color_id_name(ColorId::Resistance4)[10]);
            assert(color_id_name(id)[10] != color_id_name(ColorId::Resistance5)[10]);
        },
        ColorId::Resistance7 => {
            assert(color_id_name(id).len() == 11);
            assert(color_id_name(ColorId::Background).len() == 10);
            assert(color_id_name(id)[0] != color_id_name(ColorId::Background1)[0]);
            assert(color_id_name(id)[0] != color_id_name(ColorId::Background2)[0]);
            assert(color_id_name(id)[0] != color_id_name(ColorId::Background3)[0]);
            assert(color_id_name(id)[0] != color_id_name(ColorId::Foreground3)[0]);
            assert(color_id_name(id)[0] != color_id_name(ColorId::Foreground2)[0]);
            assert(color_id_name(id)[0] != color_id_name(ColorId::Foreground1)[0]);
            assert(color_id_name(ColorId::Foreground).len() == 10);
            assert(color_id_name(ColorId::Input).len() == 5);
            assert(color_id_name(ColorId::Output).len() == 6);
            assert(color_id_name(ColorId::Available).len() == 9);
            assert(color_id_name(ColorId::Interact).len() == 8);
            assert(color_id_name(ColorId::Active).len() == 6);
            assert(color_id_name(ColorId::Error).len() == 5);
            assert(color_id_name(id)[0] != color_id_name(ColorId::Destructive)[0]);
            assert(color_id_name(ColorId::Special).len() == 7);
            assert(color_id_name(ColorId::HyperRef).len() == 9);
            assert(color_id_name(ColorId::DeadLink).len() == 9);
            assert(color_id_name(ColorId::Caution).len() == 7);
            assert(color_id_name(ColorId::BlueprintsBackground).len() == 21);
            assert(color_id_name(id)[10] != color_id_name(ColorId::Resistance0)[10]);
            assert(color_id_name(id)[10] != color_id_name(ColorId::Resistance1)[10]);
            assert(color_id_name(id)[10] != color_id_name(ColorId::Resistance2)[10]);
            assert(color_id_name(id)[10] != color_id_name(ColorId::Resistance3)[10]);
            assert(color_id_name(id)[10] != color_id_name(ColorId::Resistance4)[10]);
            assert(color_id_name(id)[10] != color_id_name(ColorId::Resistance5)[10]);
            assert(color_id_name(id)[10] != color_id_name(ColorId::Resistance6)[10]);
        },
        ColorId::Resistance8 => {
            assert(color_id_name(id).len() == 11);
            assert(color_id_name(ColorId::Background).len() == 10);
            assert(color_id_name(id)[0] != color_id_name(ColorId::Background1)[0]);
            assert(color_id_name(id)[0] != color_id_name(ColorId::Background2)[0]);
            assert(color_id_name(id)[0] != color_id_name(ColorId::Background3)[0]);
            assert(color_id_name(id)[0] != color_id_name(ColorId::Foreground3)[0]);
            assert(color_id_name(id)[0] != color_id_name(ColorId::Foreground2)[0]);
            assert(color_id_name(id)[0] != color_id_name(ColorId::Foreground1)[0]);
            assert(color_id_name(ColorId::Foreground).len() == 10);
            assert(color_id_name(ColorId::Input).len() == 5);
            assert(color_id_name(ColorId::Output).len() == 6);
            assert(color_id_name(ColorId::Available).len() == 9);
            assert(color_id_name(ColorId::Interact).len() == 8);
            assert(color_id_name(ColorId::Active).len() == 6);
            assert(color_id_name(ColorId::Error).len() == 5);
            assert(color_id_name(id)[0] != color_id_name(ColorId::Destructive)[0]);
            assert(color_id_name(ColorId::Special).len() == 7);
            assert(color_id_name(ColorId::HyperRef).len() == 9);
            assert(color_id_name(ColorId::DeadLink).len() == 9);
            assert(color_id_name(ColorId::Caution).len() == 7);
            assert(color_id_name(ColorId::BlueprintsBackground).len() == 21);
            assert(color_id_name(id)[10] != color_id_name(ColorId::Resistance0)[10]);
            assert(color_id_name(id)[10] != color_id_name(ColorId::Resistance1)[10]);
            assert(color_id_name(id)[10] != color_id_name(ColorId::Resistance2)[10]);
            assert(color_id_name(id)[10] != color_id_name(ColorId::Resistance3)[10]);
            assert(color_id_name(id)[10] != color_id_name(ColorId::Resistance4)[10]);
            assert(color_id_name(id)[10] != color_id_name(ColorId::Resistance5)[10]);
            assert(color_id_name(id)[10] != color_id_name(ColorId::Resistance6)[10]);
            assert(color_id_name(id)[10] != color_id_name(ColorId::Resistance7)[10]);
        },
        ColorId::Resistance9 => {
            assert(color_id_name(id).len() == 11);
            assert(color_id_name(ColorId::Background).len() == 10);
            assert(color_id_name(id)[0] != color_id_name(ColorId::Background1)[0]);
            assert(color_id_name(id)[0] != color_id_name(ColorId::Background2)[0]);
            assert(color_id_name(id)[0] != color_id_name(ColorId::Background3)[0]);
            assert(color_id_name(id)[0] != color_id_name(ColorId::Foreground3)[0]);
            assert(color_id_name(id)[0] != color_id_name(ColorId::Foreground2)[0]);
            assert(color_id_name(id)[0] != color_id_name(ColorId::Foreground1)[0]);
            assert(color_id_name(ColorId::Foreground).len() == 10);
            assert(color_id_name(ColorId::Input).len() == 5);
            assert(color_id_name(ColorId::Output).len() == 6);
            assert(color_id_name(ColorId::Available).len() == 9);
            assert(color_id_name(ColorId::Interact).len() == 8);
            assert(color_id_name(ColorId::Active).len() == 6);
            assert(color_id_name(ColorId::Error).len() == 5);
            assert(color_id_name(id)[0] != color_id_name(ColorId::Destructive)[0]);
            assert(color_id_name(ColorId::Special).len() == 7);
            assert(color_id_name(ColorId::HyperRef).len() == 9);
            assert(color_id_name(ColorId::DeadLink).len() == 9);
            assert(color_id_name(ColorId::Caution).len() == 7);
            assert(color_id_name(ColorId::BlueprintsBackground).len() == 21);
            assert(color_id_name(id)[10] != color_id_name(ColorId::Resistance0)[10]);
            assert(color_id_name(id)[10] != color_id_name(ColorId::Resistance1)[10]);
            assert(color_id_name(id)[10] != color_id_name(ColorId::Resistance2)[10]);
            assert(color_id_name(id)[10] != color_id_name(ColorId::Resistance3)[10]);
            assert(color_id_name(id)[10] != color_id_name(ColorId::Resistance4)[10]);
            assert(color_id_name(id)[10] != color_id_name(ColorId::Resistance5)[10]);
            assert(color_id_name(id)[10] != color_id_name(ColorId::Resistance6)[10]);
            assert(color_id_name(id)[10] != color_id_name(ColorId::Resistance7)[10]);
            assert(color_id_name(id)[10] != color_id_name(ColorId::Resistance8)[10]);
        },
    }
}

/// The colour a text names: `rgba(r,g,b,a)` with four numbers from 0 to 255, or the
/// name of a theme colour.
pub open spec fn color_ref_from_text(s: Seq<char>) -> Result<ColorRef, RichStrError> {
    if starts_with(s, rgba_open()) {
        let rest = s.skip(5);
        if rest.len() > 0 && rest.last() == ')' {
            match rgba_parts(rest.drop_last()) {
                Some(c) => Ok(ColorRef::Exact(c)),
                None => Err(RichStrError::InvalidEscapeCode),
            }
        } else {
            Err(RichStrError::InvalidEscapeCode)
        }
    } else {
        match color_id_from_name(s) {
            Some(id) => Ok(ColorRef::Theme(id)),
            None => Err(RichStrError::InvalidEscapeCode),
        }
    }
}

/// The text of a colour: the theme name, or `rgba(r,g,b,a)` in decimal.
pub open spec fn color_ref_text(c: ColorRef) -> Seq<char> {
    match c {
        ColorRef::Theme(id) => color_id_name(id),
        ColorRef::Exact(col) => rgba_open() + digits_of(col.r as nat, 10) + seq![','] + digits_of(
            col.g as nat,
            10,
        ) + seq![','] + digits_of(col.b as nat, 10) + seq![','] + digits_of(col.a as nat, 10)
            + seq![')'],
    }
}


/// `comma_from` finds the comma at `k` when none lies between `from` and `k`.
proof fn lemma_comma_at(s: Seq<char>, from: int, k: int)
    requires
        0 <= from <= k < s.len(),
        s[k] == ',',
        forall|i: int| from <= i < k ==> s[i] != ',',
    ensures
        comma_from(s, from) == Some(k),
    decreases k - from,
{
    if from < k {
        lemma_comma_at(s, from + 1, k);
    }
}

/// A byte written in decimal reads back as that byte, and its digits hold no comma.
proof fn lemma_byte_roundtrip(v: u8)
    ensures
        byte_of(digits_of(v as nat, 10)) == Some(v),
        forall|i: int| 0 <= i < digits_of(v as nat, 10).len() ==> digits_of(v as nat, 10)[i] != ',',
{
    lemma_digits_roundtrip(v as nat, 10);
    let d = digits_of(v as nat, 10);
    assert(unsigned_digits(d) == d);
    assert forall|i: int| 0 <= i < d.len() implies d[i] != ',' by {
        assert(digit_of(d[i], 10) is Some);
    }
}

/// The four bytes written as `r,g,b,a` read back as the colour.
proof fn lemma_rgba_parts_roundtrip(c: Color)
    ensures
        rgba_parts(
            digits_of(c.r as nat, 10) + seq![','] + digits_of(c.g as nat, 10) + seq![',']
                + digits_of(c.b as nat, 10) + seq![','] + digits_of(c.a as nat, 10),
        ) == Some(c),
{
    let dr = digits_of(c.r as nat, 10);
    let dg = digits_of(c.g as nat, 10);
    let db = digits_of(c.b as nat, 10);
    let da = digits_of(c.a as nat, 10);
    lemma_byte_roundtrip(c.r);
    lemma_byte_roundtrip(c.g);
    lemma_byte_roundtrip(c.b);
    lemma_byte_roundtrip(c.a);
    let s = dr + seq![','] + dg + seq![','] + db + seq![','] + da;
    let c1 = dr.len() as int;
    let c2 = c1 + 1 + dg.len();
    let c3 = c2 + 1 + db.len();
    assert(s.len() == c3 + 1 + da.len());
    assert forall|i: int| 0 <= i < c1 implies s[i] == dr[i] by {}
    assert forall|i: int| c1 < i < c2 implies s[i] == dg[i - c1 - 1] by {}
    assert forall|i: int| c2 < i < c3 implies s[i] == db[i - c2 - 1] by {}
    assert forall|i: int| c3 < i < s.len() implies s[i] == da[i - c3 - 1] by {}
    assert(s[c1] == ',' && s[c2] == ',' && s[c3] == ',');
    lemma_comma_at(s, 0, c1);
    lemma_comma_at(s, c1 + 1, c2);
    lemma_comma_at(s, c2 + 1, c3);
    assert(s.subrange(0, c1) =~= dr);
    assert(s.subrange(c1 + 1, c2) =~= dg);
    assert(s.subrange(c2 + 1, c3) =~= db);
    assert(s.subrange(c3 + 1, s.len() as int) =~= da);
}

/// No name of a theme colour begins with `rgba(`.
proof fn lemma_names_are_not_rgba(id: ColorId)
    ensures
        !starts_with(color_id_name(id), rgba_open()),
{
    let n = color_id_name(id);
    if starts_with(n, rgba_open()) {
        assert(n.take(5)[0] == n[0] && n.take(5)[1] == n[1]);
        assert(n[0] == 'r' && n[1] == 'g');
        assert(false);
    }
}

/// A colour written as text reads back as the same colour.
#[verifier::spinoff_prover]
pub proof fn lemma_color_ref_roundtrip(c: ColorRef)
    ensures
        color_ref_from_text(color_ref_text(c)) == Ok::<ColorRef, RichStrError>(c),
{
    match c {
        ColorRef::Theme(id) => {
            lemma_names_are_not_rgba(id);
            lemma_color_id_roundtrip(id);
        },
        ColorRef::Exact(col) => {
            let t = color_ref_text(c);
            let inner = digits_of(col.r as nat, 10) + seq![','] + digits_of(col.g as nat, 10)
                + seq![','] + digits_of(col.b as nat, 10) + seq![','] + digits_of(col.a as nat, 10);
            assert(t =~= rgba_open() + inner + seq![')']);
            assert(t.take(5) =~= rgba_open());
            assert(t.skip(5) =~= inner + seq![')']);
            assert((inner + seq![')']).drop_last() =~= inner);
            lemma_rgba_parts_roundtrip(col);
        },
    }
}

/// The text `push:`.
pub open spec fn push_prefix() -> Seq<char> {
    seq!['p', 'u', 's', 'h', ':']
}

/// The colour change a code names: `pop`, `push:` and a colour, or a colour to replace
/// the top one with.
pub open spec fn color_act_from_text(s: Seq<char>) -> Result<ColorAct, RichStrError> {
    if s == seq!['p', 'o', 'p'] {
        Ok(ColorAct::Pop)
    } else if starts_with(s, push_prefix()) {
        match color_ref_from_text(s.skip(5)) {
            Ok(c) => Ok(ColorAct::Push(c)),
            Err(e) => Err(e),
        }
    } else {
        match color_ref_from_text(s) {
            Ok(c) => Ok(ColorAct::Repl(c)),
            Err(e) => Err(e),
        }
    }
}

/// The code of a colour change, as written between the braces.
pub open spec fn color_act_code(a: ColorAct) -> Seq<char> {
    match a {
        ColorAct::Pop => seq!['p', 'o', 'p'],
        ColorAct::Repl(c) => color_ref_text(c),
        ColorAct::Push(c) => push_prefix() + color_ref_text(c),
    }
}

/// The text of a colour is not empty and does not begin with `p`.
proof fn lemma_text_starts_without_p(c: ColorRef)
    ensures
        color_ref_text(c).len() > 0,
        color_ref_text(c)[0] != 'p',
{
    match c {
        ColorRef::Theme(id) => {
            assert(color_id_name(id).len() > 0);
        },
        ColorRef::Exact(_) => {
            assert(color_ref_text(c)[0] == 'r');
        },
    }
}

/// A colour change written as its code reads back as the same change.
#[verifier::spinoff_prover]
pub proof fn lemma_color_act_roundtrip(a: ColorAct)
    ensures
        color_act_from_text(color_act_code(a)) == Ok::<ColorAct, RichStrError>(a),
{
    match a {
        ColorAct::Pop => {},
        ColorAct::Repl(c) => {
            lemma_color_ref_roundtrip(c);
            let t = color_ref_text(c);
            lemma_text_starts_without_p(c);
            assert(t != seq!['p', 'o', 'p']);
            if starts_with(t, push_prefix()) {
                assert(t.take(5)[0] == t[0]);
            }
        },
        ColorAct::Push(c) => {
            lemma_color_ref_roundtrip(c);
            let t = push_prefix() + color_ref_text(c);
            assert(t.take(5) =~= push_prefix());
            assert(t.skip(5) =~= color_ref_text(c));
            assert(t.len() > 3);
        },
    }
}

/// A colour change as written in text: `ESC{`, its code and `}`.
pub open spec fn color_act_text(a: ColorAct) -> Seq<char> {
    seq!['\u{1b}', '{'] + color_act_code(a) + seq!['}']
}

/// The first `,` of `cs[from..end]`.
fn comma_in(cs: &Vec<char>, from: usize, end: usize) -> (r: Option<usize>)
    requires
        from <= end <= cs@.len(),
    ensures
        match comma_from(cs@.subrange(0, end as int), from as int) {
            Some(k) => r == Some(k as usize) && from <= k < end,
            None => r is None,
        },
    decreases end - from,
{
    if from >= end {
        None
    } else if cs[from] == ',' {
        Some(from)
    } else {
        comma_in(cs, from + 1, end)
    }
}

/// Reads `cs[start..end]` as a number from 0 to 255.
fn read_byte(cs: &Vec<char>, start: usize, end: usize) -> (r: Option<u8>)
    requires
        start <= end <= cs@.len(),
    ensures
        r == byte_of(cs@.subrange(start as int, end as int)),
{
    match read_unsigned(cs, start, end, 10, 255) {
        Some(v) => Some(v as u8),
        None => None,
    }
}

/// Reads `cs[start..end]` as `r,g,b,a`.
fn read_rgba(cs: &Vec<char>, start: usize, end: usize) -> (r: Option<Color>)
    requires
        start <= end <= cs@.len(),
    ensures
        r == rgba_parts(cs@.subrange(start as int, end as int)),
{
    let ghost s = cs@.subrange(start as int, end as int);
    let inner = sub_chars(cs, start, end);
    let n = inner.len();
    assert(inner@.subrange(0, n as int) =~= inner@);
    match comma_in(&inner, 0, n) {
        None => None,
        Some(c1) => match comma_in(&inner, c1 + 1, n) {
            None => None,
            Some(c2) => match comma_in(&inner, c2 + 1, n) {
                None => None,
                Some(c3) => {
                    let r = read_byte(&inner, 0, c1);
                    let g = read_byte(&inner, c1 + 1, c2);
                    let b = read_byte(&inner, c2 + 1, c3);
                    let a = read_byte(&inner, c3 + 1, n);
                    match (r, g, b, a) {
                        (Some(r), Some(g), Some(b), Some(a)) => Some(Color { r, g, b, a }),
                        _ => None,
                    }
                },
            },
        },
    }
}

/// Reads `cs[start..end]` as a colour.
#[verifier::spinoff_prover]
fn read_color_ref(cs: &Vec<char>, start: usize, end: usize) -> (r: Result<ColorRef, RichStrError>)
    requires
        start <= end <= cs@.len(),
    ensures
        r == color_ref_from_text(cs@.subrange(start as int, end as int)),
{
    let ghost s = cs@.subrange(start as int, end as int);
    let open = vec!['r', 'g', 'b', 'a', '('];
    assert(open@ =~= rgba_open());
    if end - start >= 5 && slice_eq(cs, start, start + 5, &open) {
        assert(s.take(5) =~= cs@.subrange(start as int, start + 5));
        let rest_start = start + 5;
        assert(s.skip(5) =~= cs@.subrange(rest_start as int, end as int));
        if end > rest_start && cs[end - 1] == ')' {
            assert(s.skip(5).drop_last() =~= cs@.subrange(rest_start as int, end - 1));
            match read_rgba(cs, rest_start, end - 1) {
                Some(c) => Ok(ColorRef::Exact(c)),
                None => Err(RichStrError::InvalidEscapeCode),
            }
        } else {
            Err(RichStrError::InvalidEscapeCode)
        }
    } else {
        proof {
            if starts_with(s, rgba_open()) {
                assert(s.take(5) =~= cs@.subrange(start as int, start + 5));
            }
        }
        match color_id_from_chars(cs, start, end) {
            Some(id) => Ok(ColorRef::Theme(id)),
            None => Err(RichStrError::InvalidEscapeCode),
        }
    }
}

/// Reads `cs[start..end]` as the code of a colour change.
fn read_color_act(cs: &Vec<char>, start: usize, end: usize) -> (r: Result<ColorAct, RichStrError>)
    requires
        start <= end <= cs@.len(),
    ensures
        r == color_act_from_text(cs@.subrange(start as int, end as int)),
{
    let ghost s = cs@.subrange(start as int, end as int);
    let pop = vec!['p', 'o', 'p'];
    let push = vec!['p', 'u', 's', 'h', ':'];
    assert(push@ =~= push_prefix());
    if slice_eq(cs, start, end, &pop) {
        assert(pop@ =~= seq!['p', 'o', 'p']);
        Ok(ColorAct::Pop)
    } else {
        assert(pop@ =~= seq!['p', 'o', 'p']);
        if end - start >= 5 && slice_eq(cs, start, start + 5, &push) {
            assert(s.take(5) =~= cs@.subrange(start as int, start + 5));
            assert(s.skip(5) =~= cs@.subrange(start + 5, end as int));
            match read_color_ref(cs, start + 5, end) {
                Ok(c) => Ok(ColorAct::Push(c)),
                Err(e) => Err(e),
            }
        } else {
            proof {
                if starts_with(s, push_prefix()) {
                    assert(s.take(5) =~= cs@.subrange(start as int, start + 5));
                }
            }
            match read_color_ref(cs, start, end) {
                Ok(c) => Ok(ColorAct::Repl(c)),
                Err(e) => Err(e),
            }
        }
    }
}

/// Appends the text of colour `c` to `out`.
fn push_color_ref(out: &mut Vec<char>, c: ColorRef)
    ensures
        final(out)@ == old(out)@ + color_ref_text(c),
{
    match c {
        ColorRef::Theme(id) => {
            let name = color_id_chars(id);
            let mut i: usize = 0;
            while i < name.len()
                invariant
                    i <= name@.len(),
                    name@ == color_id_name(id),
                    out@ == old(out)@ + name@.take(i as int),
                decreases name@.len() - i,
            {
                out.push(name[i]);
                i = i + 1;
                assert(out@ =~= old(out)@ + name@.take(i as int));
            }
            assert(name@.take(name@.len() as int) =~= name@);
        },
        ColorRef::Exact(col) => {
            out.push('r');
            out.push('g');
            out.push('b');
            out.push('a');
            out.push('(');
            push_digits(out, col.r as u128, 10);
            out.push(',');
            push_digits(out, col.g as u128, 10);
            out.push(',');
            push_digits(out, col.b as u128, 10);
            out.push(',');
            push_digits(out, col.a as u128, 10);
            out.push(')');
            assert(out@ =~= old(out)@ + color_ref_text(c));
        },
    }
}

impl ColorRef {
    /// The colour as text: its theme name, or `rgba(r,g,b,a)`.
    pub fn to_string(&self) -> (s: String)
        ensures
            s@ == color_ref_text(*self),
    {
        let mut v: Vec<char> = Vec::new();
        push_color_ref(&mut v, *self);
        assert(v@ =~= color_ref_text(*self));
        string_from_chars(&v)
    }

    /// Reads a colour: `rgba(r,g,b,a)` or a theme colour's name.
    pub fn from_str(s: &str) -> (r: Result<ColorRef, RichStrError>)
        ensures
            r == color_ref_from_text(s@),
    {
        let cs = chars_of(s);
        assert(cs@.subrange(0, cs@.len() as int) =~= cs@);
        read_color_ref(&cs, 0, cs.len())
    }
}

impl ColorAct {
    /// The default change is `Pop`.
    pub fn default() -> (r: ColorAct)
        ensures
            r == ColorAct::Pop,
    {
        ColorAct::Pop
    }

    /// The change as written in text: `ESC{pop}`, `ESC{colour}` or `ESC{push:colour}`.
    pub fn to_string(&self) -> (s: String)
        ensures
            s@ == color_act_text(*self),
    {
        let mut v: Vec<char> = Vec::new();
        v.push('\u{1b}');
        v.push('{');
        match *self {
            ColorAct::Pop => {
                v.push('p');
                v.push('o');
                v.push('p');
            },
            ColorAct::Repl(c) => {
                push_color_ref(&mut v, c);
            },
            ColorAct::Push(c) => {
                v.push('p');
                v.push('u');
                v.push('s');
                v.push('h');
                v.push(':');
                push_color_ref(&mut v, c);
            },
        }
        v.push('}');
        assert(v@ =~= color_act_text(*self));
        string_from_chars(&v)
    }

    /// Reads the code of a colour change (what stands between the braces).
    pub fn from_str(s: &str) -> (r: Result<ColorAct, RichStrError>)
        ensures
            r == color_act_from_text(s@),
    {
        let cs = chars_of(s);
        assert(cs@.subrange(0, cs@.len() as int) =~= cs@);
        read_color_act(&cs, 0, cs.len())
    }
}

/// A colour change begins at `i`: `ESC` followed by `{`.
pub open spec fn escape_opens(s: Seq<char>, i: int) -> bool {
    0 <= i && i + 1 < s.len() && s[i] == '\u{1b}' && s[i + 1] == '{'
}

/// Where the next colour change at or after `i` begins, or the end of `s`.
pub open spec fn next_escape(s: Seq<char>, i: int) -> int
    decreases s.len() - i,
{
    if i < 0 || i >= s.len() {
        s.len() as int
    } else if escape_opens(s, i) {
        i
    } else {
        next_escape(s, i + 1)
    }
}

/// The first `}` of `s` at or after `i`.
pub open spec fn brace_from(s: Seq<char>, i: int) -> Option<int>
    decreases s.len() - i,
{
    if i < 0 || i >= s.len() {
        None
    } else if s[i] == '}' {
        Some(i)
    } else {
        brace_from(s, i + 1)
    }
}

/// The stack of colours after a change.
pub open spec fn apply_act(stack: Seq<ColorRef>, a: ColorAct) -> Seq<ColorRef> {
    match a {
        ColorAct::Pop => if stack.len() > 0 {
            stack.drop_last()
        } else {
            stack
        },
        ColorAct::Repl(c) => if stack.len() > 0 {
            stack.update(stack.len() - 1, c)
        } else {
            stack.push(c)
        },
        ColorAct::Push(c) => stack.push(c),
    }
}

/// How the colour changes act on the stack of colours: a push puts its colour on top of
/// what was there, and a pop undoes exactly one push; a replacement changes the top
/// colour only (or pushes onto an empty stack); a pop takes off the top colour only,
/// and leaves an empty stack empty.
pub proof fn lemma_color_stack(stack: Seq<ColorRef>, c: ColorRef)
    ensures
        apply_act(stack, ColorAct::Push(c)) == stack.push(c),
        top(apply_act(stack, ColorAct::Push(c))) == Some(c),
        apply_act(apply_act(stack, ColorAct::Push(c)), ColorAct::Pop) == stack,
        top(apply_act(stack, ColorAct::Repl(c))) == Some(c),
        stack.len() > 0 ==> apply_act(stack, ColorAct::Repl(c)) == stack.drop_last().push(c),
        stack.len() == 0 ==> apply_act(stack, ColorAct::Repl(c)) == seq![c],
        stack.len() > 0 ==> apply_act(stack, ColorAct::Pop).push(stack.last()) == stack,
        stack.len() == 0 ==> apply_act(stack, ColorAct::Pop) == stack,
{
    assert(stack.push(c).drop_last() =~= stack);
    if stack.len() > 0 {
        assert(stack.drop_last().push(stack.last()) =~= stack);
        assert(stack.update(stack.len() - 1, c) =~= stack.drop_last().push(c));
    } else {
        assert(stack.push(c) =~= seq![c]);
    }
}

/// The top of the stack, if any.
pub open spec fn top(stack: Seq<ColorRef>) -> Option<ColorRef> {
    if stack.len() > 0 {
        Some(stack.last())
    } else {
        None
    }
}

/// One piece of rich text read from `s[i..]` with the stack `stack`: the colour change
/// that opens it, if any, and its text up to the next change. Gives what the piece
/// reads as (its colour and text, or an error for a change that cannot be read), the
/// stack after it, and where the rest begins; nothing once `i` is at the end.
pub open spec fn rich_step(stack: Seq<ColorRef>, s: Seq<char>, i: int) -> Option<
    (Result<(Option<ColorRef>, Seq<char>), RichStrError>, Seq<ColorRef>, int),
> {
    if i >= s.len() {
        None
    } else {
        let (act, j): (Option<Result<ColorAct, RichStrError>>, int) = if escape_opens(s, i) {
            match brace_from(s, i + 2) {
                Some(p) => (Some(color_act_from_text(s.subrange(i + 2, p))), p + 1),
                None => (Some(Err(RichStrError::InvalidEscapeCode)), i + 2),
            }
        } else {
            (None, i)
        };
        let t = next_escape(s, j);
        let text = s.subrange(j, t);
        match act {
            Some(Ok(a)) => Some((Ok((top(apply_act(stack, a)), text)), apply_act(stack, a), t)),
            Some(Err(e)) => Some((Err(e), stack, t)),
            None => Some((Ok((None, text)), stack, t)),
        }
    }
}

/// Where the next colour change at or after `i` begins, or the end.
fn find_escape(cs: &Vec<char>, i: usize) -> (r: usize)
    requires
        i <= cs@.len(),
    ensures
        r == next_escape(cs@, i as int),
        i <= r <= cs@.len(),
    decreases cs@.len() - i,
{
    if i >= cs.len() {
        cs.len()
    } else if i + 1 < cs.len() && cs[i] == '\u{1b}' && cs[i + 1] == '{' {
        i
    } else {
        find_escape(cs, i + 1)
    }
}

/// The first `}` at or after `i`.
fn find_brace(cs: &Vec<char>, i: usize) -> (r: Option<usize>)
    requires
        i <= cs@.len(),
    ensures
        match brace_from(cs@, i as int) {
            Some(p) => r == Some(p as usize) && i <= p < cs@.len(),
            None => r is None,
        },
    decreases cs@.len() - i,
{
    if i >= cs.len() {
        None
    } else if cs[i] == '}' {
        Some(i)
    } else {
        find_brace(cs, i + 1)
    }
}

/// The last place at or after `lo` and at or before `i` where a colour change begins.
pub open spec fn last_escape(s: Seq<char>, lo: int, i: int) -> Option<int>
    decreases i - lo + 1,
{
    if i < lo {
        None
    } else if escape_opens(s, i) {
        Some(i)
    } else {
        last_escape(s, lo, i - 1)
    }
}

/// One piece of rich text read from the back of `s[pos..]`: the text after the last
/// colour change, with that change read as a colour (not as a change), and how much of
/// `s` is left unread (the text before that change). When no change is left, the whole
/// rest is the piece and all of it is used up; when the last change has no `}`, it is
/// an error and the change and what follows it are used up. Nothing once `pos` is at
/// the end.
pub open spec fn rich_step_back(s: Seq<char>, pos: int) -> Option<
    (Result<(Option<ColorRef>, Seq<char>), RichStrError>, int),
> {
    if pos >= s.len() {
        None
    } else {
        match last_escape(s, pos, s.len() - 2) {
            Some(k) => match brace_from(s, k + 2) {
                Some(p) => Some(
                    (
                        match color_ref_from_text(s.subrange(k + 2, p)) {
                            Ok(c) => Ok((Some(c), s.subrange(p + 1, s.len() as int))),
                            Err(e) => Err(e),
                        },
                        k,
                    ),
                ),
                None => Some((Err(RichStrError::InvalidEscapeCode), k)),
            },
            None => Some((Ok((None, s.subrange(pos, s.len() as int))), pos)),
        }
    }
}

/// Where the piece of rich text that starts at `i` ends: past its colour change, if it
/// opens with one, at the next colour change or the end.
pub open spec fn piece_end(s: Seq<char>, i: int) -> int {
    let j = if escape_opens(s, i) {
        match brace_from(s, i + 2) {
            Some(p) => p + 1,
            None => i + 2,
        }
    } else {
        i
    };
    next_escape(s, j)
}

/// How many pieces reading forwards gives from `i` on.
pub open spec fn pieces(s: Seq<char>, i: int) -> nat
    decreases s.len() - i,
{
    if i < 0 || i >= s.len() {
        0
    } else if i < piece_end(s, i) <= s.len() {
        1 + pieces(s, piece_end(s, i))
    } else {
        1
    }
}

/// The next colour change at or after `j` lies between `j` and the end.
proof fn lemma_next_escape_bounds(s: Seq<char>, j: int)
    requires
        0 <= j <= s.len(),
    ensures
        j <= next_escape(s, j) <= s.len(),
    decreases s.len() - j,
{
    if j < s.len() && !escape_opens(s, j) {
        lemma_next_escape_bounds(s, j + 1);
    }
}

/// A `}` found from `i` lies between `i` and the end.
proof fn lemma_brace_bounds(s: Seq<char>, i: int)
    requires
        0 <= i,
    ensures
        brace_from(s, i) matches Some(p) ==> i <= p < s.len(),
    decreases s.len() - i,
{
    if 0 <= i < s.len() && s[i] != '}' {
        lemma_brace_bounds(s, i + 1);
    }
}

/// A piece that starts within the text ends after its start, within the text.
proof fn lemma_piece_end(s: Seq<char>, i: int)
    requires
        0 <= i < s.len(),
    ensures
        i < piece_end(s, i) <= s.len(),
{
    if escape_opens(s, i) {
        lemma_brace_bounds(s, i + 2);
        match brace_from(s, i + 2) {
            Some(p) => lemma_next_escape_bounds(s, p + 1),
            None => lemma_next_escape_bounds(s, i + 2),
        }
    } else {
        lemma_next_escape_bounds(s, i + 1);
    }
}

/// The items reading forwards gives from `i` on, starting with the stack `stack`.
pub open spec fn forward_items(stack: Seq<ColorRef>, s: Seq<char>, i: int) -> Seq<
    Result<(Option<ColorRef>, Seq<char>), RichStrError>,
>
    decreases s.len() - i,
{
    match rich_step(stack, s, i) {
        None => Seq::empty(),
        Some((item, st, t)) => if i < t <= s.len() {
            seq![item] + forward_items(st, s, t)
        } else {
            seq![item]
        },
    }
}

/// The count of pieces is the number of items reading forwards still gives, whatever
/// the stack: what `len` says is what `next` then gives.
pub proof fn lemma_pieces_count_items(stack: Seq<ColorRef>, s: Seq<char>, i: int)
    requires
        0 <= i <= s.len(),
    ensures
        forward_items(stack, s, i).len() == pieces(s, i),
    decreases s.len() - i,
{
    if i < s.len() {
        lemma_piece_end(s, i);
        let (item, st, t) = rich_step(stack, s, i).unwrap();
        assert(t == piece_end(s, i));
        lemma_pieces_count_items(st, s, t);
    }
}

/// There are no more pieces from `i` on than characters.
proof fn lemma_pieces_bound(s: Seq<char>, i: int)
    requires
        0 <= i <= s.len(),
    ensures
        pieces(s, i) <= s.len() - i,
    decreases s.len() - i,
{
    if i < s.len() {
        lemma_piece_end(s, i);
        lemma_pieces_bound(s, piece_end(s, i));
    }
}

/// Where the last colour change at or after `lo` begins, looking back from `i`.
fn find_last_escape(cs: &Vec<char>, lo: usize, i: usize) -> (r: Option<usize>)
    requires
        i < cs@.len(),
    ensures
        match last_escape(cs@, lo as int, i as int) {
            Some(k) => r == Some(k as usize) && lo <= k <= i,
            None => r is None,
        },
    decreases i - lo + 1,
{
    let n = cs.len();
    if i < lo {
        None
    } else if i + 1 < n && cs[i] == '\u{1b}' && cs[i + 1] == '{' {
        Some(i)
    } else if i == 0 {
        assert(last_escape(cs@, lo as int, -1) is None);
        None
    } else {
        find_last_escape(cs, lo, i - 1)
    }
}

/// Reads rich text piece by piece, keeping the stack of colours its changes build.
#[derive(Debug)]
pub struct RichStrIter {
    color_stack: Vec<ColorRef>,
    string: Vec<char>,
    pos: usize,
}

impl RichStrIter {
    /// The colours pushed so far, bottom first.
    pub closed spec fn stack(&self) -> Seq<ColorRef> {
        self.color_stack@
    }

    /// The whole text.
    pub closed spec fn text(&self) -> Seq<char> {
        self.string@
    }

    /// Where the unread rest of the text begins.
    pub closed spec fn position(&self) -> int {
        self.pos as int
    }

    /// The reader stays within the text.
    pub open spec fn wf(&self) -> bool {
        0 <= self.position() <= self.text().len()
    }

    /// A reader at the start of `s`, with no colours pushed.
    pub fn new(s: &str) -> (r: RichStrIter)
        ensures
            r.wf(),
            r.stack() == Seq::<ColorRef>::empty(),
            r.text() == s@,
            r.position() == 0,
    {
        RichStrIter { color_stack: Vec::new(), string: chars_of(s), pos: 0 }
    }

    /// The next piece: its colour (the top of the stack after its colour change, or
    /// none when it opens with no change) and its text, or an error for a colour change
    /// that cannot be read; nothing at the end of the text.
    #[verifier::spinoff_prover]
    pub fn next(&mut self) -> (r: Option<Result<(Option<ColorRef>, String), RichStrError>>)
        requires
            old(self).wf(),
        ensures
            final(self).wf(),
            final(self).text() == old(self).text(),
            r is None <==> pieces(old(self).text(), old(self).position()) == 0,
            r is Some ==> pieces(final(self).text(), final(self).position()) + 1 == pieces(
                old(self).text(),
                old(self).position(),
            ),
            match rich_step(old(self).stack(), old(self).text(), old(self).position()) {
                None => r is None && final(self).stack() == old(self).stack() && final(self).position()
                    == old(self).position(),
                Some((item, st, t)) => r is Some && final(self).stack() == st && final(self).position() == t
                    && match (item, r.unwrap()) {
                    (Ok((c, text)), Ok((c2, text2))) => c == c2 && text == text2@,
                    (Err(e), Err(e2)) => e == e2,
                    _ => false,
                },
            },
    {
        let i = self.pos;
        if i >= self.string.len() {
            return None;
        }
        let n = self.string.len();
        let mut act: Option<Result<ColorAct, RichStrError>> = None;
        let mut j = i;
        if i + 1 < n && self.string[i] == '\u{1b}' && self.string[i + 1] == '{' {
            match find_brace(&self.string, i + 2) {
                Some(p) => {
                    act = Some(read_color_act(&self.string, i + 2, p));
                    j = p + 1;
                },
                None => {
                    act = Some(Err(RichStrError::InvalidEscapeCode));
                    j = i + 2;
                },
            }
        }
        let t = find_escape(&self.string, j);
        proof {
            let s = self.string@;
            lemma_piece_end(s, i as int);
            assert(t == piece_end(s, i as int));
            assert(pieces(s, t as int) + 1 == pieces(s, i as int));
        }
        let text = string_from_chars(&sub_chars(&self.string, j, t));
        self.pos = t;
        match act {
            Some(Ok(a)) => {
                match a {
                    ColorAct::Pop => {
                        let _ = self.color_stack.pop();
                    },
                    ColorAct::Repl(c) => {
                        let len = self.color_stack.len();
                        if len > 0 {
                            self.color_stack.set(len - 1, c);
                        } else {
                            self.color_stack.push(c);
                        }
                    },
                    ColorAct::Push(c) => {
                        self.color_stack.push(c);
                    },
                }
                let len = self.color_stack.len();
                let top = if len > 0 {
                    Some(self.color_stack[len - 1])
                } else {
                    None
                };
                Some(Ok((top, text)))
            },
            Some(Err(e)) => Some(Err(e)),
            None => Some(Ok((None, text))),
        }
    }

    /// The next piece from the back: the text after the last colour change of the
    /// unread rest, with that change read as a colour; the change and that text are
    /// used up. A change with no `}` is an error, and a rest with no change is given
    /// whole and used up. Nothing once the rest is empty; otherwise the rest shrinks.
    pub fn next_back(&mut self) -> (r: Option<Result<(Option<ColorRef>, String), RichStrError>>)
        requires
            old(self).wf(),
        ensures
            final(self).wf(),
            final(self).stack() == old(self).stack(),
            final(self).position() == old(self).position(),
            r is None <==> old(self).position() == old(self).text().len(),
            r is Some ==> final(self).text().len() < old(self).text().len(),
            match rich_step_back(old(self).text(), old(self).position()) {
                None => r is None && final(self).text() == old(self).text(),
                Some((item, len)) => r is Some && final(self).text() == old(self).text().subrange(0, len)
                    && match (item, r.unwrap()) {
                    (Ok((c, text)), Ok((c2, text2))) => c == c2 && text == text2@,
                    (Err(e), Err(e2)) => e == e2,
                    _ => false,
                },
            },
    {
        let n = self.string.len();
        let pos = self.pos;
        if pos >= n {
            return None;
        }
        let last = if n >= 2 {
            find_last_escape(&self.string, pos, n - 2)
        } else {
            assert(last_escape(self.string@, pos as int, n - 2) is None);
            None
        };
        match last {
            Some(k) => match find_brace(&self.string, k + 2) {
                Some(p) => {
                    let code = read_color_ref(&self.string, k + 2, p);
                    let text = string_from_chars(&sub_chars(&self.string, p + 1, n));
                    self.string.truncate(k);
                    match code {
                        Ok(c) => Some(Ok((Some(c), text))),
                        Err(e) => Some(Err(e)),
                    }
                },
                None => {
                    self.string.truncate(k);
                    Some(Err(RichStrError::InvalidEscapeCode))
                },
            },
            None => {
                let text = string_from_chars(&sub_chars(&self.string, pos, n));
                self.string.truncate(pos);
                Some(Ok((None, text)))
            },
        }
    }

    /// The number of pieces reading forwards still gives.
    pub fn len(&self) -> (r: usize)
        requires
            self.wf(),
        ensures
            r == pieces(self.text(), self.position()),
    {
        let n = self.string.len();
        let mut i = self.pos;
        let mut count: usize = 0;
        proof {
            lemma_pieces_bound(self.string@, i as int);
        }
        while i < n
            invariant
                self.wf(),
                n == self.string@.len(),
                self.position() <= i <= n,
                count + pieces(self.string@, i as int) == pieces(self.string@, self.position()),
                pieces(self.string@, i as int) <= n - i,
                count <= i - self.position(),
            decreases n - i,
        {
            let ghost s = self.string@;
            let t = if i + 1 < n && self.string[i] == '\u{1b}' && self.string[i + 1] == '{' {
                let j = match find_brace(&self.string, i + 2) {
                    Some(p) => p + 1,
                    None => i + 2,
                };
                find_escape(&self.string, j)
            } else {
                find_escape(&self.string, i + 1)
            };
            proof {
                lemma_piece_end(s, i as int);
                assert(t == piece_end(s, i as int));
                lemma_pieces_bound(s, t as int);
            }
            count = count + 1;
            i = t;
        }
        count
    }
}

} // verus!
