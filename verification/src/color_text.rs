//! Colours written as text in a theme file: `#rrggbb` or `#rrggbbaa` in hexadecimal,
//! `rgb(r,g,b)` with decimal parts, `rgba(r,g,b,a)` whose alpha is a fraction, or the
//! name of a colour.
use crate::term::Color;
use vstd::prelude::*;

verus! {

/// What a colour written as text reads as.
#[derive(Debug, Clone, Copy, PartialEq, Eq, Structural)]
pub enum ColorText {
    /// A whole colour.
    Color(Color),
    /// `rgba(...)`: the red, green and blue parts, and where the text of the alpha part
    /// (a fraction of one) lies in the input.
    WithAlpha { r: u8, g: u8, b: u8, start: usize, end: usize },
    /// No hexadecimal code and no `rgb(...)` or `rgba(...)`: the text can only name a
    /// colour.
    Name,
}

/// Why a colour written as text cannot be read.
#[derive(Debug, Clone, Copy, PartialEq, Eq, Structural)]
pub enum ColorTextError {
    /// A hexadecimal code of the right length that is no number.
    InvalidNumber,
    /// A hexadecimal code with this many bytes after `#`, neither 6 nor 8.
    InvalidLength(usize),
    /// Fewer comma-separated parts than the colour needs.
    Missing,
    /// A part that is no number from 0 to 255.
    InvalidPart,
}

/// The value of the digit `b` in decimal, or in hexadecimal (either case).
pub open spec fn digit_of(b: u8, hex: bool) -> Option<nat> {
    if 48 <= b <= 57 {
        Some((b - 48) as nat)
    } else if hex && 97 <= b <= 102 {
        Some((b - 87) as nat)
    } else if hex && 65 <= b <= 70 {
        Some((b - 55) as nat)
    } else {
        None
    }
}

/// The number that the digits of `s` from `i` on give when read after the value `acc`;
/// `None` if any of them is no digit.
pub open spec fn read_digits(s: Seq<u8>, i: int, acc: nat, hex: bool) -> Option<nat>
    decreases s.len() - i,
{
    if i < 0 || i >= s.len() {
        Some(acc)
    } else {
        match digit_of(s[i], hex) {
            Some(d) => read_digits(s, i + 1, if hex { acc * 16 + d } else { acc * 10 + d }, hex),
            None => None,
        }
    }
}

/// The unsigned number `s` writes, read the way the standard library reads one: an
/// optional `+`, then at least one digit; `None` when that fails or the number is above
/// `max`.
pub open spec fn unsigned_text(s: Seq<u8>, hex: bool, max: nat) -> Option<nat> {
    let d = if s.len() > 0 && s[0] == 43 {
        s.skip(1)
    } else {
        s
    };
    if d.len() == 0 {
        None
    } else {
        match read_digits(d, 0, 0, hex) {
            Some(v) => if v <= max {
                Some(v)
            } else {
                None
            },
            None => None,
        }
    }
}

/// Where the comma-separated piece of `s` that starts at `i` ends: at the next comma, or
/// at the end of `s`.
pub open spec fn comma_at(s: Seq<u8>, i: int) -> int
    decreases s.len() - i,
{
    if i < 0 || i >= s.len() {
        s.len() as int
    } else if s[i] == 44 {
        i
    } else {
        comma_at(s, i + 1)
    }
}

/// Where the `k`-th comma-separated piece of `s` starts; `None` when `s` has fewer
/// pieces. (Even empty text has one, empty, piece.)
pub open spec fn piece_start(s: Seq<u8>, k: nat) -> Option<int>
    decreases k,
{
    if k == 0 {
        Some(0)
    } else {
        match piece_start(s, (k - 1) as nat) {
            Some(p) => if comma_at(s, p) < s.len() {
                Some(comma_at(s, p) + 1)
            } else {
                None
            },
            None => None,
        }
    }
}

/// The `k`-th comma-separated part of `s`, read as a number from 0 to 255.
pub open spec fn part(s: Seq<u8>, k: nat) -> Result<u8, ColorTextError> {
    match piece_start(s, k) {
        None => Err(ColorTextError::Missing),
        Some(p) => match unsigned_text(s.subrange(p, comma_at(s, p)), false, 255) {
            Some(x) => Ok(x as u8),
            None => Err(ColorTextError::InvalidPart),
        },
    }
}

/// `v` starts with `pre` and, after it, ends with `)`.
pub open spec fn wrapped(v: Seq<u8>, pre: Seq<u8>) -> bool {
    &&& v.len() > pre.len()
    &&& v.subrange(0, pre.len() as int) == pre
    &&& v.last() == 41
}

/// The bytes of `rgb(`.
pub open spec fn rgb_open() -> Seq<u8> {
    seq![114u8, 103u8, 98u8, 40u8]
}

/// The bytes of `rgba(`.
pub open spec fn rgba_open() -> Seq<u8> {
    seq![114u8, 103u8, 98u8, 97u8, 40u8]
}

/// The colour a hexadecimal code gives: `rrggbb` is opaque, `rrggbbaa` has its alpha.
pub open spec fn hex_color(x: nat, eight: bool) -> Color {
    if eight {
        Color {
            r: (x / 16777216 % 256) as u8,
            g: (x / 65536 % 256) as u8,
            b: (x / 256 % 256) as u8,
            a: (x % 256) as u8,
        }
    } else {
        Color { r: (x / 65536 % 256) as u8, g: (x / 256 % 256) as u8, b: (x % 256) as u8, a: 255 }
    }
}

/// What the text `v` of a colour reads as. After `#` come 6 or 8 hexadecimal digits
/// (an error names any other length); inside `rgb(...)` the first three
/// comma-separated parts are the red, green and blue bytes (any more are ignored);
/// inside `rgba(...)` a fourth part, the alpha, follows them; any other text is a name.
pub open spec fn color_text(v: Seq<u8>) -> Result<ColorText, ColorTextError> {
    if v.len() > 0 && v[0] == 35 {
        let h = v.skip(1);
        if h.len() == 6 || h.len() == 8 {
            match unsigned_text(h, true, 0xffff_ffff) {
                Some(x) => Ok(ColorText::Color(hex_color(x, h.len() == 8))),
                None => Err(ColorTextError::InvalidNumber),
            }
        } else {
            Err(ColorTextError::InvalidLength(h.len() as usize))
        }
    } else if wrapped(v, rgb_open()) {
        let inner = v.subrange(4, v.len() - 1);
        match (part(inner, 0), part(inner, 1), part(inner, 2)) {
            (Ok(r), Ok(g), Ok(b)) => Ok(ColorText::Color(Color { r, g, b, a: 255 })),
            (Err(e), _, _) => Err(e),
            (Ok(_), Err(e), _) => Err(e),
            (Ok(_), Ok(_), Err(e)) => Err(e),
        }
    } else if wrapped(v, rgba_open()) {
        let inner = v.subrange(5, v.len() - 1);
        match (part(inner, 0), part(inner, 1), part(inner, 2), piece_start(inner, 3)) {
            (Ok(r), Ok(g), Ok(b), Some(p)) => Ok(
                ColorText::WithAlpha {
                    r,
                    g,
                    b,
                    start: (5 + p) as usize,
                    end: (5 + comma_at(inner, p)) as usize,
                },
            ),
            (Err(e), _, _, _) => Err(e),
            (Ok(_), Err(e), _, _) => Err(e),
            (Ok(_), Ok(_), Err(e), _) => Err(e),
            (Ok(_), Ok(_), Ok(_), None) => Err(ColorTextError::Missing),
        }
    } else {
        Ok(ColorText::Name)
    }
}

/// A number read on from `acc` stays at least `acc`.
proof fn lemma_read_digits_grows(s: Seq<u8>, i: int, acc: nat, hex: bool)
    ensures
        read_digits(s, i, acc, hex) matches Some(v) ==> v >= acc,
    decreases s.len() - i,
{
    if 0 <= i < s.len() {
        if let Some(d) = digit_of(s[i], hex) {
            lemma_read_digits_grows(s, i + 1, if hex { acc * 16 + d } else { acc * 10 + d }, hex);
        }
    }
}

/// The digits `s[from..to]` read as an unsigned number no larger than `max`, as
/// `unsigned_text` says.
fn read_unsigned(s: &[u8], from: usize, to: usize, hex: bool, max: u64) -> (r: Option<u64>)
    requires
        from <= to <= s@.len(),
        max <= 0xffff_ffff,
    ensures
        r == (match unsigned_text(s@.subrange(from as int, to as int), hex, max as nat) {
            Some(v) => Some(v as u64),
            None => None::<u64>,
        }),
{
    let ghost t = s@.subrange(from as int, to as int);
    let mut i = from;
    if i < to && s[i] == 43 {
        i = i + 1;
    }
    let ghost d = s@.subrange(i as int, to as int);
    assert(d =~= (if t.len() > 0 && t[0] == 43 { t.skip(1) } else { t }));
    if i == to {
        return None;
    }
    let start = i;
    let mut val: u64 = 0;
    while i < to
        invariant
            from <= start <= i <= to <= s@.len(),
            t == s@.subrange(from as int, to as int),
            d == s@.subrange(start as int, to as int),
            d == (if t.len() > 0 && t[0] == 43 { t.skip(1) } else { t }),
            d.len() > 0,
            val <= max <= 0xffff_ffff,
            read_digits(d, 0, 0, hex) == read_digits(d, i - start, val as nat, hex),
        decreases to - i,
    {
        let b = s[i];
        assert(d[i - start] == b);
        let dv: u64 = if 48 <= b && b <= 57 {
            (b - 48) as u64
        } else if hex && 97 <= b && b <= 102 {
            (b - 87) as u64
        } else if hex && 65 <= b && b <= 70 {
            (b - 55) as u64
        } else {
            assert(digit_of(d[i - start], hex) is None);
            return None;
        };
        assert(digit_of(d[i - start], hex) == Some(dv as nat));
        let next: u64 = if hex {
            val * 16 + dv
        } else {
            val * 10 + dv
        };
        if next > max {
            proof {
                lemma_read_digits_grows(d, i - start + 1, next as nat, hex);
            }
            return None;
        }
        val = next;
        i = i + 1;
    }
    Some(val)
}

/// Where the comma-separated piece of `s[from..to]` that starts at `i` ends.
fn comma_from(s: &[u8], from: usize, to: usize, i: usize) -> (e: usize)
    requires
        from <= i <= to <= s@.len(),
    ensures
        e == from + comma_at(s@.subrange(from as int, to as int), i - from),
        i <= e <= to,
{
    let ghost t = s@.subrange(from as int, to as int);
    let mut e = i;
    while e < to && s[e] != 44
        invariant
            from <= i <= e <= to <= s@.len(),
            t == s@.subrange(from as int, to as int),
            comma_at(t, e - from) == comma_at(t, i - from),
        decreases to - e,
    {
        assert(t[e - from] == s@[e as int]);
        e = e + 1;
    }
    if e < to {
        assert(t[e - from] == s@[e as int]);
    }
    e
}

/// Where the `k`-th comma-separated piece of `s[from..to]` starts, counted in `s`.
fn piece_from(s: &[u8], from: usize, to: usize, k: usize) -> (r: Option<usize>)
    requires
        from <= to <= s@.len(),
    ensures
        r is None <==> piece_start(s@.subrange(from as int, to as int), k as nat) is None,
        r matches Some(p) ==> from <= p <= to && piece_start(s@.subrange(from as int, to as int), k as nat)
            == Some(p - from),
{
    let ghost t = s@.subrange(from as int, to as int);
    let mut p = from;
    let mut j: usize = 0;
    while j < k
        invariant
            from <= p <= to <= s@.len(),
            j <= k,
            t == s@.subrange(from as int, to as int),
            piece_start(t, j as nat) == Some(p - from),
        decreases k - j,
    {
        let e = comma_from(s, from, to, p);
        assert(piece_start(t, (j + 1) as nat) == (if comma_at(t, p - from) < t.len() {
            Some(comma_at(t, p - from) + 1)
        } else {
            None
        }));
        if e < to {
            p = e + 1;
        } else {
            proof {
                lemma_piece_start_none(t, (j + 1) as nat, k as nat);
            }
            return None;
        }
        j = j + 1;
    }
    Some(p)
}

/// A piece missing means every later piece is missing too.
proof fn lemma_piece_start_none(s: Seq<u8>, j: nat, k: nat)
    requires
        piece_start(s, j) is None,
        j <= k,
    ensures
        piece_start(s, k) is None,
    decreases k - j,
{
    if j < k {
        lemma_piece_start_none(s, j + 1, k);
    }
}

/// Part `k` of `s[from..to]`, as `part` says.
fn part_of(s: &[u8], from: usize, to: usize, k: usize) -> (r: Result<u8, ColorTextError>)
    requires
        from <= to <= s@.len(),
    ensures
        r == part(s@.subrange(from as int, to as int), k as nat),
{
    let ghost t = s@.subrange(from as int, to as int);
    match piece_from(s, from, to, k) {
        None => Err(ColorTextError::Missing),
        Some(p) => {
            let ghost pp = p - from;
            assert(piece_start(t, k as nat) == Some(pp));
            let e = comma_from(s, from, to, p);
            assert(e - from == comma_at(t, pp));
            assert(s@.subrange(p as int, e as int) =~= t.subrange(pp, e - from));
            match read_unsigned(s, p, e, false, 255) {
                Some(x) => {
                    assert(unsigned_text(t.subrange(pp, comma_at(t, pp)), false, 255) == Some(x as nat));
                    Ok(x as u8)
                },
                None => Err(ColorTextError::InvalidPart),
            }
        },
    }
}

/// Whether `v` starts with the bytes `pre` and, after them, ends with `)`.
fn is_wrapped(v: &[u8], pre: &[u8]) -> (r: bool)
    ensures
        r == wrapped(v@, pre@),
{
    if v.len() <= pre.len() || v[v.len() - 1] != 41 {
        return false;
    }
    let mut i: usize = 0;
    while i < pre.len()
        invariant
            i <= pre@.len() < v@.len(),
            forall|j: int| 0 <= j < i ==> v@[j] == pre@[j],
        decreases pre@.len() - i,
    {
        if v[i] != pre[i] {
            assert(v@.subrange(0, pre@.len() as int)[i as int] != pre@[i as int]);
            return false;
        }
        i = i + 1;
    }
    assert(v@.subrange(0, pre@.len() as int) =~= pre@);
    true
}

/// Reads the text `v` of a colour, as `color_text` says: a hexadecimal code or an
/// `rgb(...)` gives the colour, an `rgba(...)` gives its first three parts and where its
/// alpha lies, and any other text is left to be looked up as a name.
pub fn read_color_text(v: &[u8]) -> (r: Result<ColorText, ColorTextError>)
    ensures
        r == color_text(v@),
{
    let n = v.len();
    if n > 0 && v[0] == 35 {
        let h = n - 1;
        assert(v@.skip(1) =~= v@.subrange(1, n as int));
        if h == 6 || h == 8 {
            match read_unsigned(v, 1, n, true, 0xffff_ffff) {
                Some(x) => {
                    let c = if h == 8 {
                        Color {
                            r: (x / 16777216 % 256) as u8,
                            g: (x / 65536 % 256) as u8,
                            b: (x / 256 % 256) as u8,
                            a: (x % 256) as u8,
                        }
                    } else {
                        Color { r: (x / 65536 % 256) as u8, g: (x / 256 % 256) as u8, b: (x % 256) as u8, a: 255 }
                    };
                    assert(c == hex_color(x as nat, h == 8));
                    Ok(ColorText::Color(c))
                },
                None => Err(ColorTextError::InvalidNumber),
            }
        } else {
            Err(ColorTextError::InvalidLength(h))
        }
    } else {
        let rgb_pre: [u8; 4] = [114, 103, 98, 40];
        let rgba_pre: [u8; 5] = [114, 103, 98, 97, 40];
        assert(rgb_pre@ =~= rgb_open());
        assert(rgba_pre@ =~= rgba_open());
        if is_wrapped(v, rgb_pre.as_slice()) {
            match (part_of(v, 4, n - 1, 0), part_of(v, 4, n - 1, 1), part_of(v, 4, n - 1, 2)) {
                (Ok(r), Ok(g), Ok(b)) => Ok(ColorText::Color(Color { r, g, b, a: 255 })),
                (Err(e), _, _) => Err(e),
                (Ok(_), Err(e), _) => Err(e),
                (Ok(_), Ok(_), Err(e)) => Err(e),
            }
        } else if is_wrapped(v, rgba_pre.as_slice()) {
            match (part_of(v, 5, n - 1, 0), part_of(v, 5, n - 1, 1), part_of(v, 5, n - 1, 2)) {
                (Ok(r), Ok(g), Ok(b)) => match piece_from(v, 5, n - 1, 3) {
                    Some(p) => {
                        let e = comma_from(v, 5, n - 1, p);
                        assert(e == 5 + comma_at(v@.subrange(5, n - 1), p - 5));
                        Ok(ColorText::WithAlpha { r, g, b, start: p, end: e })
                    },
                    None => Err(ColorTextError::Missing),
                },
                (Err(e), _, _) => Err(e),
                (Ok(_), Err(e), _) => Err(e),
                (Ok(_), Ok(_), Err(e)) => Err(e),
            }
        } else {
            Ok(ColorText::Name)
        }
    }
}

} // verus!
