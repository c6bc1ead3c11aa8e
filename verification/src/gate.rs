//! Gates: the kinds of node a circuit is made of, the single decimal digit
//! (`Ntd`) that some of them carry, and how a placed gate computes its output
//! from its inputs.
use crate::text::{chars_of, find_char, slice_eq, string_from_chars, sub_chars};
use vstd::prelude::*;

verus! {

/// A number from zero to nine.
#[derive(Debug, Clone, Copy, PartialEq, Eq, Structural, Hash, PartialOrd, Ord)]
pub enum Ntd {
    Zero,
    One,
    Two,
    Three,
    Four,
    Five,
    Six,
    Seven,
    Eight,
    Nine,
}

/// The error of converting a number above nine into an [`Ntd`].
#[derive(Debug, Clone, Copy, PartialEq, Eq, Structural)]
pub struct NtdRangeError;

impl Ntd {
    /// The number this digit stands for.
    pub open spec fn value(self) -> nat {
        match self {
            Ntd::Zero => 0,
            Ntd::One => 1,
            Ntd::Two => 2,
            Ntd::Three => 3,
            Ntd::Four => 4,
            Ntd::Five => 5,
            Ntd::Six => 6,
            Ntd::Seven => 7,
            Ntd::Eight => 8,
            Ntd::Nine => 9,
        }
    }

    /// The digit standing for `v`, for `v` at most nine.
    pub open spec fn of(v: nat) -> Ntd {
        if v == 0 {
            Ntd::Zero
        } else if v == 1 {
            Ntd::One
        } else if v == 2 {
            Ntd::Two
        } else if v == 3 {
            Ntd::Three
        } else if v == 4 {
            Ntd::Four
        } else if v == 5 {
            Ntd::Five
        } else if v == 6 {
            Ntd::Six
        } else if v == 7 {
            Ntd::Seven
        } else if v == 8 {
            Ntd::Eight
        } else {
            Ntd::Nine
        }
    }

    /// The character of the digit.
    pub open spec fn digit_char(self) -> char {
        (('0' as int) + self.value()) as char
    }

    /// The default digit is zero.
    pub fn default() -> (r: Ntd)
        ensures
            r == Ntd::Zero,
    {
        Ntd::Zero
    }

    /// The number as a `u8`.
    pub fn to_u8(self) -> (r: u8)
        ensures
            r == self.value(),
    {
        match self {
            Ntd::Zero => 0,
            Ntd::One => 1,
            Ntd::Two => 2,
            Ntd::Three => 3,
            Ntd::Four => 4,
            Ntd::Five => 5,
            Ntd::Six => 6,
            Ntd::Seven => 7,
            Ntd::Eight => 8,
            Ntd::Nine => 9,
        }
    }

    /// The number as a `usize`.
    pub fn to_usize(self) -> (r: usize)
        ensures
            r == self.value(),
    {
        self.to_u8() as usize
    }

    /// The digit standing for `value`; an error above nine.
    pub fn try_from_u8(value: u8) -> (r: Result<Ntd, NtdRangeError>)
        ensures
            value <= 9 ==> r == Ok::<Ntd, NtdRangeError>(Ntd::of(value as nat)),
            value > 9 ==> r == Err::<Ntd, NtdRangeError>(NtdRangeError),
    {
        match value {
            0 => Ok(Ntd::Zero),
            1 => Ok(Ntd::One),
            2 => Ok(Ntd::Two),
            3 => Ok(Ntd::Three),
            4 => Ok(Ntd::Four),
            5 => Ok(Ntd::Five),
            6 => Ok(Ntd::Six),
            7 => Ok(Ntd::Seven),
            8 => Ok(Ntd::Eight),
            9 => Ok(Ntd::Nine),
            _ => Err(NtdRangeError),
        }
    }

    /// `One` for `true`, `Zero` for `false`.
    pub fn from_bool(value: bool) -> (r: Ntd)
        ensures
            r.value() == (if value {
                1nat
            } else {
                0nat
            }),
    {
        if value {
            Ntd::One
        } else {
            Ntd::Zero
        }
    }

    /// The sum of two digits; the sum must not exceed nine.
    pub fn add(self, rhs: Ntd) -> (r: Ntd)
        requires
            self.value() + rhs.value() <= 9,
        ensures
            r.value() == self.value() + rhs.value(),
    {
        let s = self.to_u8() + rhs.to_u8();
        match Ntd::try_from_u8(s) {
            Ok(n) => n,
            Err(_) => Ntd::Zero,
        }
    }

    /// `self - rhs`, or zero when `rhs` is the larger.
    pub fn saturating_sub(self, rhs: Ntd) -> (r: Ntd)
        ensures
            r.value() == (if self.value() >= rhs.value() {
                (self.value() - rhs.value()) as nat
            } else {
                0nat
            }),
    {
        let a = self.to_u8();
        let b = rhs.to_u8();
        let d = if a >= b {
            a - b
        } else {
            0
        };
        match Ntd::try_from_u8(d) {
            Ok(n) => n,
            Err(_) => Ntd::Zero,
        }
    }

    /// The smaller of two digits.
    pub fn min(self, other: Ntd) -> (r: Ntd)
        ensures
            r == (if self.value() <= other.value() {
                self
            } else {
                other
            }),
    {
        if self.to_u8() <= other.to_u8() {
            self
        } else {
            other
        }
    }

    /// The digit as text: a single character from `0` to `9`.
    pub fn to_string(self) -> (s: String)
        ensures
            s@ == seq![self.digit_char()],
    {
        let mut v: Vec<char> = Vec::new();
        v.push((('0' as u8) + self.to_u8()) as char);
        string_from_chars(&v)
    }

    /// Reads a single digit `0` to `9`; anything else is an error.
    pub fn from_str(s: &str) -> (r: Result<Ntd, ()>)
        ensures
            r == ntd_from_text(s@),
    {
        let cs = chars_of(s);
        ntd_from_chars(&cs, 0, cs.len())
    }
}

/// The digit a text names: exactly one character from `0` to `9`.
pub open spec fn ntd_from_text(s: Seq<char>) -> Result<Ntd, ()> {
    if s.len() == 1 && '0' <= s[0] && s[0] <= '9' {
        Ok(Ntd::of(((s[0] as int) - ('0' as int)) as nat))
    } else {
        Err(())
    }
}

/// Reads `cs[start..end]` as a digit.
pub fn ntd_from_chars(cs: &Vec<char>, start: usize, end: usize) -> (r: Result<Ntd, ()>)
    requires
        start <= end <= cs@.len(),
    ensures
        r == ntd_from_text(cs@.subrange(start as int, end as int)),
{
    if end - start == 1 && '0' <= cs[start] && cs[start] <= '9' {
        let d = (cs[start] as u32) - ('0' as u32);
        match Ntd::try_from_u8(d as u8) {
            Ok(n) => Ok(n),
            Err(_) => Err(()),
        }
    } else {
        Err(())
    }
}

/// A digit that adds up without passing nine.
#[derive(Debug, Clone, Copy, PartialEq, Eq, Structural, Hash, PartialOrd, Ord)]
pub struct SaturatingNtd(pub Ntd);

/// Adding the digits one after the other, stopping at nine.
pub open spec fn saturating_total(s: Seq<SaturatingNtd>) -> nat
    decreases s.len(),
{
    if s.len() == 0 {
        0
    } else {
        let t = saturating_total(s.drop_last()) + s.last().0.value();
        if t > 9 {
            9
        } else {
            t
        }
    }
}

impl SaturatingNtd {
    /// The sum of `items`, added in order and never passing nine.
    pub fn sum(items: &[SaturatingNtd]) -> (r: SaturatingNtd)
        ensures
            r.0.value() == saturating_total(items@),
    {
        let mut acc: u8 = 0;
        let mut i: usize = 0;
        while i < items.len()
            invariant
                i <= items@.len(),
                acc == saturating_total(items@.subrange(0, i as int)),
                acc <= 9,
            decreases items@.len() - i,
        {
            assert(items@.subrange(0, i + 1).drop_last() =~= items@.subrange(0, i as int));
            let t = acc + items[i].0.to_u8();
            acc = if t > 9 {
                9
            } else {
                t
            };
            i = i + 1;
        }
        assert(items@.subrange(0, items@.len() as int) =~= items@);
        match Ntd::try_from_u8(acc) {
            Ok(n) => SaturatingNtd(n),
            Err(_) => SaturatingNtd(Ntd::Zero),
        }
    }
}

/// The kinds of gate, without their settings.
#[derive(Debug, Clone, Copy, PartialEq, Eq, Structural, Hash)]
pub enum GateId {
    Or,
    And,
    Nor,
    Xor,
    Resistor,
    Capacitor,
    Led,
    Delay,
    Battery,
}

/// The name of a kind of gate.
pub open spec fn gate_id_name(id: GateId) -> Seq<char> {
    match id {
        GateId::Or => seq!['o', 'r'],
        GateId::And => seq!['a', 'n', 'd'],
        GateId::Nor => seq!['n', 'o', 'r'],
        GateId::Xor => seq!['x', 'o', 'r'],
        GateId::Resistor => seq!['r', 'e', 's', 'i', 's', 't', 'o', 'r'],
        GateId::Capacitor => seq!['c', 'a', 'p', 'a', 'c', 'i', 't', 'o', 'r'],
        GateId::Led => seq!['l', 'e', 'd'],
        GateId::Delay => seq!['d', 'e', 'l', 'a', 'y'],
        GateId::Battery => seq!['b', 'a', 't', 't', 'e', 'r', 'y'],
    }
}

/// The kind of gate a name stands for.
pub open spec fn gate_id_from_name(s: Seq<char>) -> Option<GateId> {
    if s == gate_id_name(GateId::Or) {
        Some(GateId::Or)
    } else if s == gate_id_name(GateId::And) {
        Some(GateId::And)
    } else if s == gate_id_name(GateId::Nor) {
        Some(GateId::Nor)
    } else if s == gate_id_name(GateId::Xor) {
        Some(GateId::Xor)
    } else if s == gate_id_name(GateId::Resistor) {
        Some(GateId::Resistor)
    } else if s == gate_id_name(GateId::Capacitor) {
        Some(GateId::Capacitor)
    } else if s == gate_id_name(GateId::Led) {
        Some(GateId::Led)
    } else if s == gate_id_name(GateId::Delay) {
        Some(GateId::Delay)
    } else if s == gate_id_name(GateId::Battery) {
        Some(GateId::Battery)
    } else {
        None
    }
}

fn name_chars(id: GateId) -> (r: Vec<char>)
    ensures
        r@ == gate_id_name(id),
{
    let r = match id {
        GateId::Or => vec!['o', 'r'],
        GateId::And => vec!['a', 'n', 'd'],
        GateId::Nor => vec!['n', 'o', 'r'],
        GateId::Xor => vec!['x', 'o', 'r'],
        GateId::Resistor => vec!['r', 'e', 's', 'i', 's', 't', 'o', 'r'],
        GateId::Capacitor => vec!['c', 'a', 'p', 'a', 'c', 'i', 't', 'o', 'r'],
        GateId::Led => vec!['l', 'e', 'd'],
        GateId::Delay => vec!['d', 'e', 'l', 'a', 'y'],
        GateId::Battery => vec!['b', 'a', 't', 't', 'e', 'r', 'y'],
    };
    assert(r@ =~= gate_id_name(id));
    r
}

/// Reads `cs[start..end]` as the name of a kind of gate.
pub fn gate_id_from_chars(cs: &Vec<char>, start: usize, end: usize) -> (r: Option<GateId>)
    requires
        start <= end <= cs@.len(),
    ensures
        r == gate_id_from_name(cs@.subrange(start as int, end as int)),
{
    if slice_eq(cs, start, end, &name_chars(GateId::Or)) {
        Some(GateId::Or)
    } else if slice_eq(cs, start, end, &name_chars(GateId::And)) {
        Some(GateId::And)
    } else if slice_eq(cs, start, end, &name_chars(GateId::Nor)) {
        Some(GateId::Nor)
    } else if slice_eq(cs, start, end, &name_chars(GateId::Xor)) {
        Some(GateId::Xor)
    } else if slice_eq(cs, start, end, &name_chars(GateId::Resistor)) {
        Some(GateId::Resistor)
    } else if slice_eq(cs, start, end, &name_chars(GateId::Capacitor)) {
        Some(GateId::Capacitor)
    } else if slice_eq(cs, start, end, &name_chars(GateId::Led)) {
        Some(GateId::Led)
    } else if slice_eq(cs, start, end, &name_chars(GateId::Delay)) {
        Some(GateId::Delay)
    } else if slice_eq(cs, start, end, &name_chars(GateId::Battery)) {
        Some(GateId::Battery)
    } else {
        None
    }
}

impl GateId {
    /// The default kind is `Or`.
    pub fn default() -> (r: GateId)
        ensures
            r == GateId::Or,
    {
        GateId::Or
    }

    /// The kind's name, such as `resistor`.
    pub fn to_string(self) -> (s: String)
        ensures
            s@ == gate_id_name(self),
    {
        string_from_chars(&name_chars(self))
    }

    /// Reads the name of a kind of gate; any other text is an error.
    pub fn from_str(s: &str) -> (r: Result<GateId, ()>)
        ensures
            r == (match gate_id_from_name(s@) {
                Some(id) => Ok::<GateId, ()>(id),
                None => Err(()),
            }),
    {
        let cs = chars_of(s);
        assert(cs@.subrange(0, cs@.len() as int) =~= cs@);
        match gate_id_from_chars(&cs, 0, cs.len()) {
            Some(id) => Ok(id),
            None => Err(()),
        }
    }

    /// A gate of this kind, with `ntd` as its setting where the kind has one.
    pub fn to_gate(self, ntd: Ntd) -> (g: Gate)
        ensures
            g == self.spec_to_gate(ntd),
    {
        match self {
            GateId::Or => Gate::Or,
            GateId::And => Gate::And,
            GateId::Nor => Gate::Nor,
            GateId::Xor => Gate::Xor,
            GateId::Resistor => Gate::Resistor { resistance: ntd },
            GateId::Capacitor => Gate::Capacitor { capacity: ntd },
            GateId::Led => Gate::Led { color: ntd },
            GateId::Delay => Gate::Delay,
            GateId::Battery => Gate::Battery,
        }
    }

    pub open spec fn spec_to_gate(self, ntd: Ntd) -> Gate {
        match self {
            GateId::Or => Gate::Or,
            GateId::And => Gate::And,
            GateId::Nor => Gate::Nor,
            GateId::Xor => Gate::Xor,
            GateId::Resistor => Gate::Resistor { resistance: ntd },
            GateId::Capacitor => Gate::Capacitor { capacity: ntd },
            GateId::Led => Gate::Led { color: ntd },
            GateId::Delay => Gate::Delay,
            GateId::Battery => Gate::Battery,
        }
    }
}

/// A gate made from a kind is of that kind; resistors, capacitors and LEDs, and only
/// they, take the setting given.
pub proof fn lemma_to_gate(id: GateId, ntd: Ntd)
    ensures
        id.spec_to_gate(ntd).spec_id() == id,
        (id.spec_to_gate(ntd).spec_ntd() is Some) == (id == GateId::Resistor || id == GateId::Capacitor
            || id == GateId::Led),
        id.spec_to_gate(ntd).spec_ntd() is Some ==> id.spec_to_gate(ntd).spec_ntd() == Some(ntd),
{
}

/// A gate together with its setting.
#[derive(Debug, Clone, Copy, PartialEq, Eq, Structural, Hash)]
pub enum Gate {
    Or,
    And,
    Nor,
    Xor,
    Resistor { resistance: Ntd },
    Capacitor { capacity: Ntd },
    Led { color: Ntd },
    Delay,
    Battery,
}

impl Gate {
    pub open spec fn spec_id(self) -> GateId {
        match self {
            Gate::Or => GateId::Or,
            Gate::And => GateId::And,
            Gate::Nor => GateId::Nor,
            Gate::Xor => GateId::Xor,
            Gate::Resistor { .. } => GateId::Resistor,
            Gate::Capacitor { .. } => GateId::Capacitor,
            Gate::Led { .. } => GateId::Led,
            Gate::Delay => GateId::Delay,
            Gate::Battery => GateId::Battery,
        }
    }

    pub open spec fn spec_ntd(self) -> Option<Ntd> {
        match self {
            Gate::Resistor { resistance: n } => Some(n),
            Gate::Capacitor { capacity: n } => Some(n),
            Gate::Led { color: n } => Some(n),
            _ => None,
        }
    }

    /// The default gate is `Or`.
    pub fn default() -> (r: Gate)
        ensures
            r == Gate::Or,
    {
        Gate::Or
    }

    /// This gate's kind.
    pub fn id(self) -> (r: GateId)
        ensures
            r == self.spec_id(),
    {
        match self {
            Gate::Or => GateId::Or,
            Gate::And => GateId::And,
            Gate::Nor => GateId::Nor,
            Gate::Xor => GateId::Xor,
            Gate::Resistor { .. } => GateId::Resistor,
            Gate::Capacitor { .. } => GateId::Capacitor,
            Gate::Led { .. } => GateId::Led,
            Gate::Delay => GateId::Delay,
            Gate::Battery => GateId::Battery,
        }
    }

    /// The setting of a resistor, capacitor or LED; `None` for the other gates.
    pub fn ntd(self) -> (r: Option<Ntd>)
        ensures
            r == self.spec_ntd(),
    {
        match self {
            Gate::Resistor { resistance: n } => Some(n),
            Gate::Capacitor { capacity: n } => Some(n),
            Gate::Led { color: n } => Some(n),
            _ => None,
        }
    }

    /// The same gate with its setting replaced by `value`; gates without a setting are unchanged.
    pub fn with_ntd(self, value: Ntd) -> (r: Gate)
        ensures
            r == (match self {
                Gate::Resistor { .. } => Gate::Resistor { resistance: value },
                Gate::Capacitor { .. } => Gate::Capacitor { capacity: value },
                Gate::Led { .. } => Gate::Led { color: value },
                _ => self,
            }),
    {
        match self {
            Gate::Resistor { .. } => Gate::Resistor { resistance: value },
            Gate::Capacitor { .. } => Gate::Capacitor { capacity: value },
            Gate::Led { .. } => Gate::Led { color: value },
            _ => self,
        }
    }

    /// This gate as text: its kind's name, followed by `.` and the setting for
    /// resistors, capacitors and LEDs.
    pub fn to_string(self) -> (s: String)
        ensures
            s@ == gate_text(self),
    {
        let mut v = name_chars(self.id());
        match self.ntd() {
            Some(n) => {
                v.push('.');
                v.push((('0' as u8) + n.to_u8()) as char);
            },
            None => {},
        }
        string_from_chars(&v)
    }

    /// Reads a gate: `or`, `and`, `nor`, `xor` or `battery`, or a name and a digit
    /// joined by the first `.`: `resistor.N`, `capacitor.N`, `led.N`, or `delay.N`
    /// (any digit). Anything else is an error.
    pub fn from_str(s: &str) -> (r: Result<Gate, ()>)
        ensures
            r == gate_from_text(s@),
    {
        let cs = chars_of(s);
        let n = cs.len();
        assert(cs@.subrange(0, n as int) =~= cs@);
        match gate_id_from_chars(&cs, 0, n) {
            Some(GateId::Or) => return Ok(Gate::Or),
            Some(GateId::And) => return Ok(Gate::And),
            Some(GateId::Nor) => return Ok(Gate::Nor),
            Some(GateId::Xor) => return Ok(Gate::Xor),
            Some(GateId::Battery) => return Ok(Gate::Battery),
            _ => {},
        }
        match find_char(&cs, 0, '.') {
            None => Err(()),
            Some(dot) => {
                match ntd_from_chars(&cs, dot + 1, n) {
                    Err(_) => Err(()),
                    Ok(value) => {
                        let name = sub_chars(&cs, 0, dot);
                        assert(name@ =~= cs@.subrange(0, dot as int));
                        assert(name@.subrange(0, dot as int) =~= name@);
                        match gate_id_from_chars(&name, 0, dot) {
                            Some(GateId::Resistor) => Ok(Gate::Resistor { resistance: value }),
                            Some(GateId::Capacitor) => Ok(Gate::Capacitor { capacity: value }),
                            Some(GateId::Led) => Ok(Gate::Led { color: value }),
                            Some(GateId::Delay) => Ok(Gate::Delay),
                            _ => Err(()),
                        }
                    },
                }
            },
        }
    }
}

/// The text of a gate.
pub open spec fn gate_text(g: Gate) -> Seq<char> {
    match g.spec_ntd() {
        Some(n) => gate_id_name(g.spec_id()) + seq!['.', n.digit_char()],
        None => gate_id_name(g.spec_id()),
    }
}

/// The first position of `c` in `s`, if any.
pub open spec fn first_index_of(s: Seq<char>, c: char) -> Option<int> {
    if exists|i: int| 0 <= i < s.len() && s[i] == c {
        Some(
            choose|i: int|
                0 <= i < s.len() && s[i] == c && forall|j: int| 0 <= j < i ==> s[j] != c,
        )
    } else {
        None
    }
}

/// Which gate a text names.
pub open spec fn gate_from_text(s: Seq<char>) -> Result<Gate, ()> {
    match gate_id_from_name(s) {
        Some(GateId::Or) => Ok(Gate::Or),
        Some(GateId::And) => Ok(Gate::And),
        Some(GateId::Nor) => Ok(Gate::Nor),
        Some(GateId::Xor) => Ok(Gate::Xor),
        Some(GateId::Battery) => Ok(Gate::Battery),
        _ => match first_index_of(s, '.') {
            None => Err(()),
            Some(dot) => match ntd_from_text(s.subrange(dot + 1, s.len() as int)) {
                Err(_) => Err(()),
                Ok(value) => match gate_id_from_name(s.subrange(0, dot)) {
                    Some(GateId::Resistor) => Ok(Gate::Resistor { resistance: value }),
                    Some(GateId::Capacitor) => Ok(Gate::Capacitor { capacity: value }),
                    Some(GateId::Led) => Ok(Gate::Led { color: value }),
                    Some(GateId::Delay) => Ok(Gate::Delay),
                    _ => Err(()),
                },
            },
        },
    }
}

/// A gate placed in a circuit, with the state that it keeps between evaluations.
#[derive(Debug, Clone, Copy, PartialEq, Eq, Structural, Hash)]
pub enum GateInstance {
    Or,
    And,
    Nor,
    Xor,
    Resistor { resistance: Ntd },
    Capacitor { capacity: Ntd, stored: Ntd },
    Led { color: Ntd },
    Delay { prev: bool },
    Battery,
}

/// How many of `s` are `true`.
pub open spec fn count_true(s: Seq<bool>) -> nat
    decreases s.len(),
{
    if s.len() == 0 {
        0
    } else {
        count_true(s.drop_last()) + if s.last() {
            1nat
        } else {
            0nat
        }
    }
}

/// `n` capped at nine: the sum of that many ones, never passing nine.
pub open spec fn cap_nine(n: nat) -> nat {
    if n > 9 {
        9
    } else {
        n
    }
}

impl GateInstance {
    pub open spec fn spec_from_gate(gate: Gate) -> GateInstance {
        match gate {
            Gate::Or => GateInstance::Or,
            Gate::And => GateInstance::And,
            Gate::Nor => GateInstance::Nor,
            Gate::Xor => GateInstance::Xor,
            Gate::Resistor { resistance } => GateInstance::Resistor { resistance },
            Gate::Capacitor { capacity } => GateInstance::Capacitor {
                capacity,
                stored: Ntd::Zero,
            },
            Gate::Led { color } => GateInstance::Led { color },
            Gate::Delay => GateInstance::Delay { prev: false },
            Gate::Battery => GateInstance::Battery,
        }
    }

    pub open spec fn spec_as_gate(self) -> Gate {
        match self {
            GateInstance::Or => Gate::Or,
            GateInstance::And => Gate::And,
            GateInstance::Nor => Gate::Nor,
            GateInstance::Xor => Gate::Xor,
            GateInstance::Resistor { resistance } => Gate::Resistor { resistance },
            GateInstance::Capacitor { capacity, .. } => Gate::Capacitor { capacity },
            GateInstance::Led { color } => Gate::Led { color },
            GateInstance::Delay { .. } => Gate::Delay,
            GateInstance::Battery => Gate::Battery,
        }
    }

    /// Whether evaluating with `t` true inputs can be done: a capacitor's charge plus
    /// the incoming amount (capped at nine) must not pass nine.
    pub open spec fn can_evaluate(self, t: nat) -> bool {
        match self {
            GateInstance::Capacitor { stored, .. } => stored.value() + cap_nine(t) <= 9,
            _ => true,
        }
    }

    /// What this gate outputs for `n` inputs of which `t` are true.
    pub open spec fn output(self, n: nat, t: nat) -> bool {
        match self {
            GateInstance::Or | GateInstance::Led { .. } => t > 0,
            GateInstance::And => n > 0 && t == n,
            GateInstance::Nor => t == 0,
            GateInstance::Xor => t == 1,
            GateInstance::Resistor { resistance } => cap_nine(t) > resistance.value(),
            GateInstance::Capacitor { capacity, stored } => {
                let total = cap_nine(t);
                let charged = if stored.value() + total <= capacity.value() {
                    stored.value() + total
                } else {
                    capacity.value()
                };
                total > 0 || charged > 1
            },
            GateInstance::Delay { prev } => prev,
            GateInstance::Battery => true,
        }
    }

    /// This gate after an evaluation with `t` true inputs: a capacitor charges by the
    /// incoming amount up to its capacity, and loses one unit on a step without input;
    /// a delay remembers whether any input was true.
    pub open spec fn next(self, t: nat) -> GateInstance {
        match self {
            GateInstance::Capacitor { capacity, stored } => {
                let total = cap_nine(t);
                let charged = if stored.value() + total <= capacity.value() {
                    stored.value() + total
                } else {
                    capacity.value()
                };
                if total > 0 {
                    GateInstance::Capacitor { capacity, stored: Ntd::of(charged) }
                } else {
                    GateInstance::Capacitor {
                        capacity,
                        stored: Ntd::of(if charged >= 1 {
                            (charged - 1) as nat
                        } else {
                            0
                        }),
                    }
                }
            },
            GateInstance::Delay { .. } => GateInstance::Delay { prev: t > 0 },
            _ => self,
        }
    }

    /// The default placed gate is `Or`.
    pub fn default() -> (r: GateInstance)
        ensures
            r == GateInstance::Or,
    {
        GateInstance::Or
    }

    /// A freshly placed gate: capacitors start empty, delays start off.
    pub fn from_gate(gate: Gate) -> (r: GateInstance)
        ensures
            r == GateInstance::spec_from_gate(gate),
    {
        match gate {
            Gate::Or => GateInstance::Or,
            Gate::And => GateInstance::And,
            Gate::Nor => GateInstance::Nor,
            Gate::Xor => GateInstance::Xor,
            Gate::Resistor { resistance } => GateInstance::Resistor { resistance },
            Gate::Capacitor { capacity } => GateInstance::Capacitor {
                capacity,
                stored: Ntd::Zero,
            },
            Gate::Led { color } => GateInstance::Led { color },
            Gate::Delay => GateInstance::Delay { prev: false },
            Gate::Battery => GateInstance::Battery,
        }
    }

    /// This gate without its state.
    pub fn as_gate(self) -> (r: Gate)
        ensures
            r == self.spec_as_gate(),
    {
        match self {
            GateInstance::Or => Gate::Or,
            GateInstance::And => Gate::And,
            GateInstance::Nor => Gate::Nor,
            GateInstance::Xor => Gate::Xor,
            GateInstance::Resistor { resistance } => Gate::Resistor { resistance },
            GateInstance::Capacitor { capacity, .. } => Gate::Capacitor { capacity },
            GateInstance::Led { color } => Gate::Led { color },
            GateInstance::Delay { .. } => Gate::Delay,
            GateInstance::Battery => Gate::Battery,
        }
    }

    /// Whether this component can take `inputs`: a capacitor's charge plus the incoming
    /// amount (capped at nine) must not pass nine.
    pub fn takes(&self, inputs: &[bool]) -> (r: bool)
        ensures
            r == self.can_evaluate(count_true(inputs@)),
    {
        let t = count_trues(inputs);
        let ones: u8 = if t > 9 {
            9
        } else {
            t as u8
        };
        match *self {
            GateInstance::Capacitor { stored, .. } => stored.to_u8() + ones <= 9,
            _ => true,
        }
    }

    /// Computes the output for `inputs` and updates this gate's state.
    pub fn evaluate(&mut self, inputs: &[bool]) -> (r: bool)
        requires
            old(self).can_evaluate(count_true(inputs@)),
        ensures
            r == old(self).output(inputs@.len(), count_true(inputs@)),
            *final(self) == old(self).next(count_true(inputs@)),
    {
        let n = inputs.len();
        let t = count_trues(inputs);
        let ones: u8 = if t > 9 {
            9
        } else {
            t as u8
        };
        match *self {
            GateInstance::Or | GateInstance::Led { .. } => t > 0,
            GateInstance::And => n > 0 && t == n,
            GateInstance::Nor => t == 0,
            GateInstance::Xor => t == 1,
            GateInstance::Resistor { resistance } => ones > resistance.to_u8(),
            GateInstance::Capacitor { capacity, stored } => {
                let total = match Ntd::try_from_u8(ones) {
                    Ok(x) => x,
                    Err(_) => Ntd::Zero,
                };
                let charged = stored.add(total).min(capacity);
                if ones > 0 {
                    *self = GateInstance::Capacitor { capacity, stored: charged };
                    true
                } else {
                    let drained = charged.saturating_sub(Ntd::One);
                    *self = GateInstance::Capacitor { capacity, stored: drained };
                    drained.to_u8() > 0
                }
            },
            GateInstance::Delay { prev } => {
                *self = GateInstance::Delay { prev: t > 0 };
                prev
            },
            GateInstance::Battery => true,
        }
    }
}

/// A digit converted to its number and back is the same digit.
pub proof fn lemma_ntd_value_roundtrip(n: Ntd)
    ensures
        n.value() <= 9,
        Ntd::of(n.value()) == n,
{
}

/// A number up to nine converted to its digit and back is the same number.
pub proof fn lemma_value_ntd_roundtrip(v: nat)
    requires
        v <= 9,
    ensures
        Ntd::of(v).value() == v,
{
}

/// The number of `true` values in `inputs`.
pub fn count_trues(inputs: &[bool]) -> (t: usize)
    ensures
        t == count_true(inputs@),
        t <= inputs@.len(),
{
    let mut t: usize = 0;
    let mut i: usize = 0;
    while i < inputs.len()
        invariant
            i <= inputs@.len(),
            t == count_true(inputs@.subrange(0, i as int)),
            t <= i,
        decreases inputs@.len() - i,
    {
        assert(inputs@.subrange(0, i + 1).drop_last() =~= inputs@.subrange(0, i as int));
        if inputs[i] {
            t = t + 1;
        }
        i = i + 1;
    }
    assert(inputs@.subrange(0, inputs@.len() as int) =~= inputs@);
    t
}

/// No input is on exactly when none of them is counted.
proof fn lemma_count_none(s: Seq<bool>)
    ensures
        (count_true(s) == 0) == (forall|i: int| 0 <= i < s.len() ==> !s[i]),
    decreases s.len(),
{
    if s.len() > 0 {
        lemma_count_none(s.drop_last());
        if count_true(s) == 0 {
            assert forall|i: int| 0 <= i < s.len() implies !s[i] by {
                if i < s.len() - 1 {
                    assert(s.drop_last()[i] == s[i]);
                }
            }
        } else if forall|i: int| 0 <= i < s.len() ==> !s[i] {
            assert forall|i: int| 0 <= i < s.drop_last().len() implies !s.drop_last()[i] by {
                assert(s.drop_last()[i] == s[i]);
            }
            assert(!s[s.len() - 1]);
        }
    }
}

/// Every input is on exactly when all of them are counted.
proof fn lemma_count_all(s: Seq<bool>)
    ensures
        count_true(s) <= s.len(),
        (count_true(s) == s.len()) == (forall|i: int| 0 <= i < s.len() ==> s[i]),
    decreases s.len(),
{
    if s.len() > 0 {
        lemma_count_all(s.drop_last());
        if count_true(s) == s.len() {
            assert forall|i: int| 0 <= i < s.len() implies s[i] by {
                if i < s.len() - 1 {
                    assert(s.drop_last()[i] == s[i]);
                }
            }
        } else if forall|i: int| 0 <= i < s.len() ==> s[i] {
            assert forall|i: int| 0 <= i < s.drop_last().len() implies s.drop_last()[i] by {
                assert(s.drop_last()[i] == s[i]);
            }
            assert(s[s.len() - 1]);
        }
    }
}

/// Exactly one input is on exactly when one of them is counted.
proof fn lemma_count_one(s: Seq<bool>)
    ensures
        (count_true(s) == 1) == (exists|i: int|
            0 <= i < s.len() && s[i] && forall|j: int| 0 <= j < s.len() && j != i ==> !s[j]),
    decreases s.len(),
{
    if s.len() > 0 {
        let d = s.drop_last();
        let n = s.len() - 1;
        lemma_count_one(d);
        lemma_count_none(d);
        if count_true(s) == 1 {
            if s[n] {
                assert forall|j: int| 0 <= j < s.len() && j != n implies !s[j] by {
                    assert(d[j] == s[j]);
                }
            } else {
                let i = choose|i: int|
                    0 <= i < d.len() && d[i] && forall|j: int| 0 <= j < d.len() && j != i ==> !d[j];
                assert(s[i] == d[i]);
                assert forall|j: int| 0 <= j < s.len() && j != i implies !s[j] by {
                    if j < n {
                        assert(d[j] == s[j]);
                    }
                }
            }
        } else if exists|i: int|
            0 <= i < s.len() && s[i] && forall|j: int| 0 <= j < s.len() && j != i ==> !s[j] {
            let i = choose|i: int|
                0 <= i < s.len() && s[i] && forall|j: int| 0 <= j < s.len() && j != i ==> !s[j];
            if i == n {
                assert forall|j: int| 0 <= j < d.len() implies !d[j] by {
                    assert(d[j] == s[j]);
                }
            } else {
                assert(!s[n]);
                assert(d[i] == s[i]);
                assert forall|j: int| 0 <= j < d.len() && j != i implies !d[j] by {
                    assert(d[j] == s[j]);
                }
            }
        }
    }
}

/// What each gate outputs, read off its inputs `s`: an or gate (and an LED) is on when
/// some input is on; an and gate when it has inputs and all of them are on; a nor gate
/// when no input is on; a xor gate when exactly one input is on; a resistor when more
/// inputs are on than its resistance (so never at resistance nine, as at most nine
/// inputs are counted); a capacitor fills by the inputs that are on (at most nine) up
/// to its capacity, loses one unit on a step with no input on, and is on while inputs
/// are on or charge is left (only a capacitor can refuse its inputs: those whose count,
/// at most nine, would take its charge past nine); a delay gives what its inputs were on the step before and
/// remembers whether any is on now; a battery is always on. Only capacitors and delays
/// change on an evaluation, and no gate changes its kind or setting.
pub proof fn lemma_gate_outputs(g: GateInstance, s: Seq<bool>)
    ensures
        g == GateInstance::Or ==> (g.output(s.len(), count_true(s)) == exists|i: int|
            0 <= i < s.len() && s[i]),
        g is Led ==> (g.output(s.len(), count_true(s)) == exists|i: int| 0 <= i < s.len() && s[i]),
        g == GateInstance::And ==> (g.output(s.len(), count_true(s)) == (s.len() > 0 && forall|i: int|
            0 <= i < s.len() ==> s[i])),
        g == GateInstance::Nor ==> (g.output(s.len(), count_true(s)) == forall|i: int|
            0 <= i < s.len() ==> !s[i]),
        g == GateInstance::Xor ==> (g.output(s.len(), count_true(s)) == exists|i: int|
            0 <= i < s.len() && s[i] && forall|j: int| 0 <= j < s.len() && j != i ==> !s[j]),
        g matches GateInstance::Resistor { resistance } ==> (g.output(s.len(), count_true(s))
            == (count_true(s) > resistance.value() && resistance.value() < 9)),
        g is Capacitor && (exists|i: int| 0 <= i < s.len() && s[i]) ==> g.output(
            s.len(),
            count_true(s),
        ),
        g matches GateInstance::Capacitor { capacity, stored } ==> ({
            let on = if count_true(s) > 9 { 9 } else { count_true(s) };
            let filled = if stored.value() + on < capacity.value() { stored.value() + on } else { capacity.value() };
            let kept: int = if on > 0 { filled as int } else if filled > 0 { filled - 1 } else { 0 };
            &&& g.next(count_true(s)) is Capacitor
            &&& g.next(count_true(s))->capacity == capacity
            &&& g.next(count_true(s))->stored.value() == kept
            &&& g.output(s.len(), count_true(s)) == (on > 0 || kept > 0)
            &&& g.can_evaluate(count_true(s)) == (stored.value() + on <= 9)
        }),
        !(g is Capacitor) ==> g.can_evaluate(count_true(s)),
        g matches GateInstance::Delay { prev } ==> g.output(s.len(), count_true(s)) == prev
            && g.next(count_true(s)) == (GateInstance::Delay {
            prev: exists|i: int| 0 <= i < s.len() && s[i],
        }),
        g == GateInstance::Battery ==> g.output(s.len(), count_true(s)),
        !(g is Capacitor) && !(g is Delay) ==> g.next(count_true(s)) == g,
        g.next(count_true(s)).spec_as_gate() == g.spec_as_gate(),
{
    match g {
        GateInstance::Or | GateInstance::Led { .. } | GateInstance::Nor | GateInstance::Delay { .. } => {
            lemma_count_none(s);
        },
        GateInstance::And => lemma_count_all(s),
        GateInstance::Xor => lemma_count_one(s),
        GateInstance::Resistor { resistance } => lemma_ntd_value_roundtrip(resistance),
        GateInstance::Capacitor { capacity, stored } => {
            lemma_count_none(s);
            lemma_ntd_value_roundtrip(capacity);
            lemma_ntd_value_roundtrip(stored);
            let t = count_true(s);
            let total = cap_nine(t);
            let charged = if stored.value() + total <= capacity.value() {
                stored.value() + total
            } else {
                capacity.value()
            };
            lemma_value_ntd_roundtrip(charged);
            if charged >= 1 {
                lemma_value_ntd_roundtrip((charged - 1) as nat);
            }
        },
        _ => {},
    }
}

/// Writing a digit and reading it back gives the digit.
pub proof fn lemma_ntd_roundtrip(n: Ntd)
    ensures
        ntd_from_text(seq![n.digit_char()]) == Ok::<Ntd, ()>(n),
{
}

/// The name of a kind of gate reads back as that kind.
pub proof fn lemma_gate_id_roundtrip(id: GateId)
    ensures
        gate_id_from_name(gate_id_name(id)) == Some(id),
{
    reveal_with_fuel(gate_id_from_name, 1);
    assert(gate_id_name(GateId::Or) != gate_id_name(GateId::And));
    assert(gate_id_name(GateId::Or).len() == 2);
    assert(gate_id_name(GateId::Nor)[0] != gate_id_name(GateId::Xor)[0]);
    match id {
        GateId::Or => {},
        GateId::And => {
            assert(gate_id_name(id) != gate_id_name(GateId::Or));
        },
        GateId::Nor => {
            assert(gate_id_name(id) != gate_id_name(GateId::Or));
            assert(gate_id_name(id)[0] != gate_id_name(GateId::And)[0]);
        },
        GateId::Xor => {
            assert(gate_id_name(id) != gate_id_name(GateId::Or));
            assert(gate_id_name(id)[0] != gate_id_name(GateId::And)[0]);
            assert(gate_id_name(id)[0] != gate_id_name(GateId::Nor)[0]);
        },
        GateId::Resistor => {
            assert(gate_id_name(id).len() == 8);
            assert(gate_id_name(id)[0] != gate_id_name(GateId::Or)[0]);
        },
        GateId::Capacitor => {
            assert(gate_id_name(id).len() == 9);
        },
        GateId::Led => {
            assert(gate_id_name(id)[0] == 'l');
            assert(gate_id_name(GateId::And)[0] == 'a');
            assert(gate_id_name(GateId::Nor)[0] == 'n');
            assert(gate_id_name(GateId::Xor)[0] == 'x');
            assert(gate_id_name(GateId::Or)[0] == 'o');
        },
        GateId::Delay => {
            assert(gate_id_name(id).len() == 5);
        },
        GateId::Battery => {
            assert(gate_id_name(id).len() == 7);
        },
    }
}

/// No name of a kind of gate holds a `.`.
proof fn lemma_names_have_no_dot(id: GateId)
    ensures
        forall|i: int| 0 <= i < gate_id_name(id).len() ==> gate_id_name(id)[i] != '.',
{
}

/// A text holding a `.` names no kind of gate.
proof fn lemma_dotted_is_no_name(t: Seq<char>, w: int)
    requires
        0 <= w < t.len(),
        t[w] == '.',
    ensures
        gate_id_from_name(t) is None,
{
    lemma_names_have_no_dot(GateId::Or);
    lemma_names_have_no_dot(GateId::And);
    lemma_names_have_no_dot(GateId::Nor);
    lemma_names_have_no_dot(GateId::Xor);
    lemma_names_have_no_dot(GateId::Resistor);
    lemma_names_have_no_dot(GateId::Capacitor);
    lemma_names_have_no_dot(GateId::Led);
    lemma_names_have_no_dot(GateId::Delay);
    lemma_names_have_no_dot(GateId::Battery);
}

/// The first `.` of a name followed by `.` and a digit is the one after the name.
proof fn lemma_first_dot(name: Seq<char>, c: char)
    requires
        forall|i: int| 0 <= i < name.len() ==> name[i] != '.',
    ensures
        first_index_of(name + seq!['.', c], '.') == Some(name.len() as int),
{
    let t = name + seq!['.', c];
    let w = name.len() as int;
    assert(t[w] == '.');
    assert(forall|j: int| 0 <= j < w ==> t[j] == name[j]);
    let k = choose|i: int| 0 <= i < t.len() && t[i] == '.' && forall|j: int| 0 <= j < i ==> t[j] != '.';
    assert(k == w) by {
        if k < w {
            assert(t[k] == name[k]);
        }
    }
}

/// Writing a gate and reading the text back gives that gate, for every gate but the
/// delay, whose name carries no setting and is not read back.
pub proof fn lemma_gate_roundtrip(g: Gate)
    requires
        g != Gate::Delay,
    ensures
        gate_from_text(gate_text(g)) == Ok::<Gate, ()>(g),
{
    lemma_gate_id_roundtrip(g.spec_id());
    match g.spec_ntd() {
        None => {},
        Some(n) => {
            let name = gate_id_name(g.spec_id());
            let t = name + seq!['.', n.digit_char()];
            lemma_names_have_no_dot(g.spec_id());
            lemma_first_dot(name, n.digit_char());
            lemma_dotted_is_no_name(t, name.len() as int);
            assert(t.subrange(name.len() as int + 1, t.len() as int) =~= seq![n.digit_char()]);
            assert(t.subrange(0, name.len() as int) =~= name);
            lemma_ntd_roundtrip(n);
        },
    }
}

} // verus!
