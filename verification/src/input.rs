//! Input events: whether a control is held, and when it starts or stops being held;
//! the sources an event is read from (a constant, a key, a mouse button, or a
//! combination of them); and the flat form those sources are written in.
use vstd::prelude::*;

verus! {

/// Whether a control is held, and whether that changed on this frame.
#[derive(Debug, Clone, Copy, PartialEq, Eq, Structural, Hash)]
pub enum Event {
    Inactive,
    Starting,
    Active,
    Ending,
}

impl Event {
    /// Held: `Active` or `Starting`.
    pub open spec fn spec_is_active(self) -> bool {
        self == Event::Active || self == Event::Starting
    }

    /// Not held: `Inactive` or `Ending`.
    pub open spec fn spec_is_inactive(self) -> bool {
        self == Event::Inactive || self == Event::Ending
    }

    /// The event after a call of [`Event::activate`].
    pub open spec fn spec_activated(self) -> Event {
        if self.spec_is_inactive() {
            Event::Starting
        } else {
            Event::Active
        }
    }

    /// The event after a call of [`Event::deactivate`].
    pub open spec fn spec_deactivated(self) -> Event {
        if self.spec_is_active() {
            Event::Ending
        } else {
            Event::Inactive
        }
    }

    /// The event on the next frame: `Starting` settles to `Active`, `Ending` to `Inactive`.
    pub open spec fn spec_next(self) -> Event {
        if self.spec_is_active() {
            Event::Active
        } else {
            Event::Inactive
        }
    }

    /// Whether the event is held.
    pub fn is_active(self) -> (r: bool)
        ensures
            r == self.spec_is_active(),
    {
        match self {
            Event::Active | Event::Starting => true,
            _ => false,
        }
    }

    /// Whether the event is not held.
    pub fn is_inactive(self) -> (r: bool)
        ensures
            r == self.spec_is_inactive(),
    {
        match self {
            Event::Inactive | Event::Ending => true,
            _ => false,
        }
    }

    /// Whether the event began on this frame.
    pub fn is_starting(self) -> (r: bool)
        ensures
            r == (self == Event::Starting),
    {
        match self {
            Event::Starting => true,
            _ => false,
        }
    }

    /// Whether the event ended on this frame.
    pub fn is_ending(self) -> (r: bool)
        ensures
            r == (self == Event::Ending),
    {
        match self {
            Event::Ending => true,
            _ => false,
        }
    }

    /// Whether the event began or ended on this frame.
    pub fn is_changing(self) -> (r: bool)
        ensures
            r == (self == Event::Starting || self == Event::Ending),
    {
        match self {
            Event::Starting | Event::Ending => true,
            _ => false,
        }
    }

    /// Becomes `Starting` if the event was not held, and `Active` if it was.
    pub fn activate(&mut self)
        ensures
            *final(self) == old(self).spec_activated(),
    {
        *self = match *self {
            Event::Inactive | Event::Ending => Event::Starting,
            Event::Active | Event::Starting => Event::Active,
        };
    }

    /// Becomes `Ending` if the event was held, and `Inactive` if it was not.
    pub fn deactivate(&mut self)
        ensures
            *final(self) == old(self).spec_deactivated(),
    {
        *self = match *self {
            Event::Active | Event::Starting => Event::Ending,
            Event::Inactive | Event::Ending => Event::Inactive,
        };
    }

    /// The event on the next frame: `Starting` becomes `Active` and `Ending` becomes
    /// `Inactive`.
    pub fn next(self) -> (r: Event)
        ensures
            r == self.spec_next(),
    {
        match self {
            Event::Starting | Event::Active => Event::Active,
            Event::Ending | Event::Inactive => Event::Inactive,
        }
    }

    /// Moves the event on to the next frame.
    pub fn step(&mut self)
        ensures
            *final(self) == old(self).spec_next(),
    {
        *self = self.next();
    }

    /// Whether the event is in the phase `when`, asked through the `is_` methods: asking
    /// for `Active` accepts `Starting` too, and asking for `Inactive` accepts `Ending`.
    pub fn is(&self, when: Event) -> (r: bool)
        ensures
            r == match when {
                Event::Inactive => self.spec_is_inactive(),
                Event::Starting => *self == Event::Starting,
                Event::Active => self.spec_is_active(),
                Event::Ending => *self == Event::Ending,
            },
    {
        match when {
            Event::Inactive => self.is_inactive(),
            Event::Starting => self.is_starting(),
            Event::Active => self.is_active(),
            Event::Ending => self.is_ending(),
        }
    }
}

/// What holds of events whatever the frame: an event is held exactly when it is not
/// unheld; the next frame never changes; activating makes it held, and doing so twice
/// leaves it `Active`; deactivating makes it unheld, and doing so twice leaves it
/// `Inactive`; an event changes on the next frame exactly when it is starting or ending.
pub proof fn lemma_event_laws(e: Event)
    ensures
        e.spec_is_active() == !e.spec_is_inactive(),
        e.spec_next().spec_next() == e.spec_next(),
        e.spec_next() != Event::Starting && e.spec_next() != Event::Ending,
        e.spec_activated().spec_is_active(),
        e.spec_activated().spec_activated() == Event::Active,
        e.spec_deactivated().spec_is_inactive(),
        e.spec_deactivated().spec_deactivated() == Event::Inactive,
        (e.spec_next() != e) == (e == Event::Starting || e == Event::Ending),
        e.spec_is_active() == e.spec_next().spec_is_active(),
{
}

/// A keyboard key.
#[derive(Debug, Clone, Copy, PartialEq, Eq, Structural, Hash)]
pub enum Key {
    Null,
    Apostrophe,
    Comma,
    Minus,
    Period,
    Slash,
    Zero,
    One,
    Two,
    Three,
    Four,
    Five,
    Six,
    Seven,
    Eight,
    Nine,
    Semicolon,
    Equal,
    A,
    B,
    C,
    D,
    E,
    F,
    G,
    H,
    I,
    J,
    K,
    L,
    M,
    N,
    O,
    P,
    Q,
    R,
    S,
    T,
    U,
    V,
    W,
    X,
    Y,
    Z,
    LeftBracket,
    Backslash,
    RightBracket,
    Grave,
    Space,
    Escape,
    Enter,
    Tab,
    Backspace,
    Insert,
    Delete,
    Right,
    Left,
    Down,
    Up,
    PageUp,
    PageDown,
    Home,
    End,
    CapsLock,
    ScrollLock,
    NumLock,
    PrintScreen,
    Pause,
    F1,
    F2,
    F3,
    F4,
    F5,
    F6,
    F7,
    F8,
    F9,
    F10,
    F11,
    F12,
    LeftShift,
    LeftControl,
    LeftAlt,
    LeftSuper,
    RightShift,
    RightControl,
    RightAlt,
    RightSuper,
    KbMenu,
    Kp0,
    Kp1,
    Kp2,
    Kp3,
    Kp4,
    Kp5,
    Kp6,
    Kp7,
    Kp8,
    Kp9,
    KpDecimal,
    KpDivide,
    KpMultiply,
    KpSubtract,
    KpAdd,
    KpEnter,
    KpEqual,
    Back,
    Menu,
    VolumeUp,
    VolumeDown,
}

/// A mouse button.
#[derive(Debug, Clone, Copy, PartialEq, Eq, Structural, Hash)]
pub enum Button {
    Left,
    Right,
    Middle,
    Side,
    Extra,
    Forward,
    Back,
}

/// Where an event is read from: a constant, a key, a mouse button, or a combination.
#[derive(Debug)]
pub enum EventSource {
    Constant(Event),
    Keyboard(Key),
    Mouse(Button),
    All(Vec<EventSource>),
    Any(Vec<EventSource>),
    Not(Box<EventSource>),
}

/// The flat form an event source is written in: one name per constant, key and button,
/// and the three combinations.
#[derive(Debug)]
pub enum EventSourceDef {
    Inactive,
    Starting,
    Active,
    Ending,
    Apostrophe,
    Comma,
    Minus,
    Period,
    Slash,
    Zero,
    One,
    Two,
    Three,
    Four,
    Five,
    Six,
    Seven,
    Eight,
    Nine,
    Semicolon,
    Equal,
    A,
    B,
    C,
    D,
    E,
    F,
    G,
    H,
    I,
    J,
    K,
    L,
    M,
    N,
    O,
    P,
    Q,
    R,
    S,
    T,
    U,
    V,
    W,
    X,
    Y,
    Z,
    LeftBracket,
    Backslash,
    RightBracket,
    Grave,
    Space,
    Escape,
    Enter,
    Tab,
    Backspace,
    Insert,
    Delete,
    Right,
    Left,
    Down,
    Up,
    PageUp,
    PageDown,
    Home,
    End,
    CapsLock,
    ScrollLock,
    NumLock,
    PrintScreen,
    Pause,
    F1,
    F2,
    F3,
    F4,
    F5,
    F6,
    F7,
    F8,
    F9,
    F10,
    F11,
    F12,
    LeftShift,
    LeftControl,
    LeftAlt,
    LeftSuper,
    RightShift,
    RightControl,
    RightAlt,
    RightSuper,
    KbMenu,
    Kp0,
    Kp1,
    Kp2,
    Kp3,
    Kp4,
    Kp5,
    Kp6,
    Kp7,
    Kp8,
    Kp9,
    KpDecimal,
    KpDivide,
    KpMultiply,
    KpSubtract,
    KpAdd,
    KpEnter,
    KpEqual,
    Back,
    Menu,
    VolumeUp,
    VolumeDown,
    MouseLeft,
    MouseRight,
    MouseMiddle,
    MouseSide,
    MouseExtra,
    MouseForward,
    MouseBack,
    All(Vec<EventSourceDef>),
    Any(Vec<EventSourceDef>),
    Not(Box<EventSourceDef>),
}

/// The written form of a constant event.
pub open spec fn event_def(e: Event) -> EventSourceDef {
    match e {
        Event::Inactive => EventSourceDef::Inactive,
        Event::Starting => EventSourceDef::Starting,
        Event::Active => EventSourceDef::Active,
        Event::Ending => EventSourceDef::Ending,
    }
}

/// The written form of a key; the null key has none.
pub open spec fn key_def(k: Key) -> Option<EventSourceDef> {
    match k {
        Key::Null => None,
        Key::Apostrophe => Some(EventSourceDef::Apostrophe),
        Key::Comma => Some(EventSourceDef::Comma),
        Key::Minus => Some(EventSourceDef::Minus),
        Key::Period => Some(EventSourceDef::Period),
        Key::Slash => Some(EventSourceDef::Slash),
        Key::Zero => Some(EventSourceDef::Zero),
        Key::One => Some(EventSourceDef::One),
        Key::Two => Some(EventSourceDef::Two),
        Key::Three => Some(EventSourceDef::Three),
        Key::Four => Some(EventSourceDef::Four),
        Key::Five => Some(EventSourceDef::Five),
        Key::Six => Some(EventSourceDef::Six),
        Key::Seven => Some(EventSourceDef::Seven),
        Key::Eight => Some(EventSourceDef::Eight),
        Key::Nine => Some(EventSourceDef::Nine),
        Key::Semicolon => Some(EventSourceDef::Semicolon),
        Key::Equal => Some(EventSourceDef::Equal),
        Key::A => Some(EventSourceDef::A),
        Key::B => Some(EventSourceDef::B),
        Key::C => Some(EventSourceDef::C),
        Key::D => Some(EventSourceDef::D),
        Key::E => Some(EventSourceDef::E),
        Key::F => Some(EventSourceDef::F),
        Key::G => Some(EventSourceDef::G),
        Key::H => Some(EventSourceDef::H),
        Key::I => Some(EventSourceDef::I),
        Key::J => Some(EventSourceDef::J),
        Key::K => Some(EventSourceDef::K),
        Key::L => Some(EventSourceDef::L),
        Key::M => Some(EventSourceDef::M),
        Key::N => Some(EventSourceDef::N),
        Key::O => Some(EventSourceDef::O),
        Key::P => Some(EventSourceDef::P),
        Key::Q => Some(EventSourceDef::Q),
        Key::R => Some(EventSourceDef::R),
        Key::S => Some(EventSourceDef::S),
        Key::T => Some(EventSourceDef::T),
        Key::U => Some(EventSourceDef::U),
        Key::V => Some(EventSourceDef::V),
        Key::W => Some(EventSourceDef::W),
        Key::X => Some(EventSourceDef::X),
        Key::Y => Some(EventSourceDef::Y),
        Key::Z => Some(EventSourceDef::Z),
        Key::LeftBracket => Some(EventSourceDef::LeftBracket),
        Key::Backslash => Some(EventSourceDef::Backslash),
        Key::RightBracket => Some(EventSourceDef::RightBracket),
        Key::Grave => Some(EventSourceDef::Grave),
        Key::Space => Some(EventSourceDef::Space),
        Key::Escape => Some(EventSourceDef::Escape),
        Key::Enter => Some(EventSourceDef::Enter),
        Key::Tab => Some(EventSourceDef::Tab),
        Key::Backspace => Some(EventSourceDef::Backspace),
        Key::Insert => Some(EventSourceDef::Insert),
        Key::Delete => Some(EventSourceDef::Delete),
        Key::Right => Some(EventSourceDef::Right),
        Key::Left => Some(EventSourceDef::Left),
        Key::Down => Some(EventSourceDef::Down),
        Key::Up => Some(EventSourceDef::Up),
        Key::PageUp => Some(EventSourceDef::PageUp),
        Key::PageDown => Some(EventSourceDef::PageDown),
        Key::Home => Some(EventSourceDef::Home),
        Key::End => Some(EventSourceDef::End),
        Key::CapsLock => Some(EventSourceDef::CapsLock),
        Key::ScrollLock => Some(EventSourceDef::ScrollLock),
        Key::NumLock => Some(EventSourceDef::NumLock),
        Key::PrintScreen => Some(EventSourceDef::PrintScreen),
        Key::Pause => Some(EventSourceDef::Pause),
        Key::F1 => Some(EventSourceDef::F1),
        Key::F2 => Some(EventSourceDef::F2),
        Key::F3 => Some(EventSourceDef::F3),
        Key::F4 => Some(EventSourceDef::F4),
        Key::F5 => Some(EventSourceDef::F5),
        Key::F6 => Some(EventSourceDef::F6),
        Key::F7 => Some(EventSourceDef::F7),
        Key::F8 => Some(EventSourceDef::F8),
        Key::F9 => Some(EventSourceDef::F9),
        Key::F10 => Some(EventSourceDef::F10),
        Key::F11 => Some(EventSourceDef::F11),
        Key::F12 => Some(EventSourceDef::F12),
        Key::LeftShift => Some(EventSourceDef::LeftShift),
        Key::LeftControl => Some(EventSourceDef::LeftControl),
        Key::LeftAlt => Some(EventSourceDef::LeftAlt),
        Key::LeftSuper => Some(EventSourceDef::LeftSuper),
        Key::RightShift => Some(EventSourceDef::RightShift),
        Key::RightControl => Some(EventSourceDef::RightControl),
        Key::RightAlt => Some(EventSourceDef::RightAlt),
        Key::RightSuper => Some(EventSourceDef::RightSuper),
        Key::KbMenu => Some(EventSourceDef::KbMenu),
        Key::Kp0 => Some(EventSourceDef::Kp0),
        Key::Kp1 => Some(EventSourceDef::Kp1),
        Key::Kp2 => Some(EventSourceDef::Kp2),
        Key::Kp3 => Some(EventSourceDef::Kp3),
        Key::Kp4 => Some(EventSourceDef::Kp4),
        Key::Kp5 => Some(EventSourceDef::Kp5),
        Key::Kp6 => Some(EventSourceDef::Kp6),
        Key::Kp7 => Some(EventSourceDef::Kp7),
        Key::Kp8 => Some(EventSourceDef::Kp8),
        Key::Kp9 => Some(EventSourceDef::Kp9),
        Key::KpDecimal => Some(EventSourceDef::KpDecimal),
        Key::KpDivide => Some(EventSourceDef::KpDivide),
        Key::KpMultiply => Some(EventSourceDef::KpMultiply),
        Key::KpSubtract => Some(EventSourceDef::KpSubtract),
        Key::KpAdd => Some(EventSourceDef::KpAdd),
        Key::KpEnter => Some(EventSourceDef::KpEnter),
        Key::KpEqual => Some(EventSourceDef::KpEqual),
        Key::Back => Some(EventSourceDef::Back),
        Key::Menu => Some(EventSourceDef::Menu),
        Key::VolumeUp => Some(EventSourceDef::VolumeUp),
        Key::VolumeDown => Some(EventSourceDef::VolumeDown),
    }
}

/// The written form of a mouse button.
pub open spec fn button_def(b: Button) -> EventSourceDef {
    match b {
        Button::Left => EventSourceDef::MouseLeft,
        Button::Right => EventSourceDef::MouseRight,
        Button::Middle => EventSourceDef::MouseMiddle,
        Button::Side => EventSourceDef::MouseSide,
        Button::Extra => EventSourceDef::MouseExtra,
        Button::Forward => EventSourceDef::MouseForward,
        Button::Back => EventSourceDef::MouseBack,
    }
}

/// `def` is the written form of `src`, part for part.
pub open spec fn matches_def(src: EventSource, def: EventSourceDef) -> bool
    decreases src,
{
    match src {
        EventSource::Constant(e) => def == event_def(e),
        EventSource::Keyboard(k) => key_def(k) == Some(def),
        EventSource::Mouse(b) => def == button_def(b),
        EventSource::All(items) => match def {
            EventSourceDef::All(ds) => ds@.len() == items@.len() && forall|i: int|
                0 <= i < items@.len() ==> matches_def(#[trigger] items@[i], ds@[i]),
            _ => false,
        },
        EventSource::Any(items) => match def {
            EventSourceDef::Any(ds) => ds@.len() == items@.len() && forall|i: int|
                0 <= i < items@.len() ==> matches_def(#[trigger] items@[i], ds@[i]),
            _ => false,
        },
        EventSource::Not(item) => match def {
            EventSourceDef::Not(d) => matches_def(*item, *d),
            _ => false,
        },
    }
}

/// `src` names no null key.
pub open spec fn no_null_key(src: EventSource) -> bool
    decreases src,
{
    match src {
        EventSource::Keyboard(k) => k != Key::Null,
        EventSource::All(items) => forall|i: int| 0 <= i < items@.len() ==> no_null_key(#[trigger] items@[i]),
        EventSource::Any(items) => forall|i: int| 0 <= i < items@.len() ==> no_null_key(#[trigger] items@[i]),
        EventSource::Not(item) => no_null_key(*item),
        _ => true,
    }
}

/// `a` and `b` are the same source, part for part.
pub open spec fn same_source(a: EventSource, b: EventSource) -> bool
    decreases a,
{
    match (a, b) {
        (EventSource::Constant(x), EventSource::Constant(y)) => x == y,
        (EventSource::Keyboard(x), EventSource::Keyboard(y)) => x == y,
        (EventSource::Mouse(x), EventSource::Mouse(y)) => x == y,
        (EventSource::All(xs), EventSource::All(ys)) => xs@.len() == ys@.len() && forall|i: int|
            0 <= i < xs@.len() ==> same_source(#[trigger] xs@[i], ys@[i]),
        (EventSource::Any(xs), EventSource::Any(ys)) => xs@.len() == ys@.len() && forall|i: int|
            0 <= i < xs@.len() ==> same_source(#[trigger] xs@[i], ys@[i]),
        (EventSource::Not(x), EventSource::Not(y)) => same_source(*x, *y),
        _ => false,
    }
}

/// `a` and `b` are the same written source, part for part.
pub open spec fn same_def(a: EventSourceDef, b: EventSourceDef) -> bool
    decreases a,
{
    match (a, b) {
        (EventSourceDef::All(xs), EventSourceDef::All(ys)) => xs@.len() == ys@.len() && forall|i: int|
            0 <= i < xs@.len() ==> same_def(#[trigger] xs@[i], ys@[i]),
        (EventSourceDef::Any(xs), EventSourceDef::Any(ys)) => xs@.len() == ys@.len() && forall|i: int|
            0 <= i < xs@.len() ==> same_def(#[trigger] xs@[i], ys@[i]),
        (EventSourceDef::Not(x), EventSourceDef::Not(y)) => same_def(*x, *y),
        (EventSourceDef::All(_), _) | (EventSourceDef::Any(_), _) | (EventSourceDef::Not(_), _) => false,
        (_, EventSourceDef::All(_)) | (_, EventSourceDef::Any(_)) | (_, EventSourceDef::Not(_)) => false,
        _ => a == b,
    }
}

/// Reading a written source back gives the source that was written: two sources with
/// the same written form are the same.
pub proof fn lemma_def_determines_source(a: EventSource, b: EventSource, d: EventSourceDef)
    requires
        matches_def(a, d),
        matches_def(b, d),
    ensures
        same_source(a, b),
    decreases a,
{
    match (a, b) {
        (EventSource::All(xs), EventSource::All(ys)) => {
            assert forall|i: int| 0 <= i < xs@.len() implies same_source(#[trigger] xs@[i], ys@[i]) by {
                let ds = d->All_0;
                assert(matches_def(xs@[i], ds@[i]));
                assert(decreases_to!(a => xs@[i])) by {
                    assert(decreases_to!(a => a->All_0));
                }
                lemma_def_determines_source(xs@[i], ys@[i], ds@[i]);
            }
        },
        (EventSource::Any(xs), EventSource::Any(ys)) => {
            assert forall|i: int| 0 <= i < xs@.len() implies same_source(#[trigger] xs@[i], ys@[i]) by {
                let ds = d->Any_0;
                assert(matches_def(xs@[i], ds@[i]));
                assert(decreases_to!(a => xs@[i])) by {
                    assert(decreases_to!(a => a->Any_0));
                }
                lemma_def_determines_source(xs@[i], ys@[i], ds@[i]);
            }
        },
        (EventSource::Not(x), EventSource::Not(y)) => {
            lemma_def_determines_source(*x, *y, *(d->Not_0));
        },
        _ => {},
    }
}

/// Writing a source gives one written form: two written forms of the same source are
/// the same.
pub proof fn lemma_source_determines_def(a: EventSource, d: EventSourceDef, e: EventSourceDef)
    requires
        matches_def(a, d),
        matches_def(a, e),
    ensures
        same_def(d, e),
    decreases a,
{
    match a {
        EventSource::All(xs) => {
            let ds = d->All_0;
            let es = e->All_0;
            assert forall|i: int| 0 <= i < ds@.len() implies same_def(#[trigger] ds@[i], es@[i]) by {
                assert(matches_def(xs@[i], ds@[i]));
                assert(matches_def(xs@[i], es@[i]));
                assert(decreases_to!(a => xs@[i])) by {
                    assert(decreases_to!(a => a->All_0));
                }
                lemma_source_determines_def(xs@[i], ds@[i], es@[i]);
            }
        },
        EventSource::Any(xs) => {
            let ds = d->Any_0;
            let es = e->Any_0;
            assert forall|i: int| 0 <= i < ds@.len() implies same_def(#[trigger] ds@[i], es@[i]) by {
                assert(matches_def(xs@[i], ds@[i]));
                assert(matches_def(xs@[i], es@[i]));
                assert(decreases_to!(a => xs@[i])) by {
                    assert(decreases_to!(a => a->Any_0));
                }
                lemma_source_determines_def(xs@[i], ds@[i], es@[i]);
            }
        },
        EventSource::Not(x) => {
            lemma_source_determines_def(*x, *(d->Not_0), *(e->Not_0));
        },
        _ => {},
    }
}

impl EventSourceDef {
    /// The written form of `value`, which must name no null key.
    pub fn from(value: EventSource) -> (r: EventSourceDef)
        requires
            no_null_key(value),
        ensures
            matches_def(value, r),
    {
        EventSourceDef::of_source(&value)
    }

    /// The written form of `src`, which must name no null key.
    fn of_source(src: &EventSource) -> (r: EventSourceDef)
        requires
            no_null_key(*src),
        ensures
            matches_def(*src, r),
        decreases src,
    {
        match src {
            EventSource::Constant(e) => match e {
                Event::Inactive => EventSourceDef::Inactive,
                Event::Starting => EventSourceDef::Starting,
                Event::Active => EventSourceDef::Active,
                Event::Ending => EventSourceDef::Ending,
            },
            EventSource::Keyboard(k) => match k {
                Key::Null => EventSourceDef::Inactive,
                Key::Apostrophe => EventSourceDef::Apostrophe,
                Key::Comma => EventSourceDef::Comma,
                Key::Minus => EventSourceDef::Minus,
                Key::Period => EventSourceDef::Period,
                Key::Slash => EventSourceDef::Slash,
                Key::Zero => EventSourceDef::Zero,
                Key::One => EventSourceDef::One,
                Key::Two => EventSourceDef::Two,
                Key::Three => EventSourceDef::Three,
                Key::Four => EventSourceDef::Four,
                Key::Five => EventSourceDef::Five,
                Key::Six => EventSourceDef::Six,
                Key::Seven => EventSourceDef::Seven,
                Key::Eight => EventSourceDef::Eight,
                Key::Nine => EventSourceDef::Nine,
                Key::Semicolon => EventSourceDef::Semicolon,
                Key::Equal => EventSourceDef::Equal,
                Key::A => EventSourceDef::A,
                Key::B => EventSourceDef::B,
                Key::C => EventSourceDef::C,
                Key::D => EventSourceDef::D,
                Key::E => EventSourceDef::E,
                Key::F => EventSourceDef::F,
                Key::G => EventSourceDef::G,
                Key::H => EventSourceDef::H,
                Key::I => EventSourceDef::I,
                Key::J => EventSourceDef::J,
                Key::K => EventSourceDef::K,
                Key::L => EventSourceDef::L,
                Key::M => EventSourceDef::M,
                Key::N => EventSourceDef::N,
                Key::O => EventSourceDef::O,
                Key::P => EventSourceDef::P,
                Key::Q => EventSourceDef::Q,
                Key::R => EventSourceDef::R,
                Key::S => EventSourceDef::S,
                Key::T => EventSourceDef::T,
                Key::U => EventSourceDef::U,
                Key::V => EventSourceDef::V,
                Key::W => EventSourceDef::W,
                Key::X => EventSourceDef::X,
                Key::Y => EventSourceDef::Y,
                Key::Z => EventSourceDef::Z,
                Key::LeftBracket => EventSourceDef::LeftBracket,
                Key::Backslash => EventSourceDef::Backslash,
                Key::RightBracket => EventSourceDef::RightBracket,
                Key::Grave => EventSourceDef::Grave,
                Key::Space => EventSourceDef::Space,
                Key::Escape => EventSourceDef::Escape,
                Key::Enter => EventSourceDef::Enter,
                Key::Tab => EventSourceDef::Tab,
                Key::Backspace => EventSourceDef::Backspace,
                Key::Insert => EventSourceDef::Insert,
                Key::Delete => EventSourceDef::Delete,
                Key::Right => EventSourceDef::Right,
                Key::Left => EventSourceDef::Left,
                Key::Down => EventSourceDef::Down,
                Key::Up => EventSourceDef::Up,
                Key::PageUp => EventSourceDef::PageUp,
                Key::PageDown => EventSourceDef::PageDown,
                Key::Home => EventSourceDef::Home,
                Key::End => EventSourceDef::End,
                Key::CapsLock => EventSourceDef::CapsLock,
                Key::ScrollLock => EventSourceDef::ScrollLock,
                Key::NumLock => EventSourceDef::NumLock,
                Key::PrintScreen => EventSourceDef::PrintScreen,
                Key::Pause => EventSourceDef::Pause,
                Key::F1 => EventSourceDef::F1,
                Key::F2 => EventSourceDef::F2,
                Key::F3 => EventSourceDef::F3,
                Key::F4 => EventSourceDef::F4,
                Key::F5 => EventSourceDef::F5,
                Key::F6 => EventSourceDef::F6,
                Key::F7 => EventSourceDef::F7,
                Key::F8 => EventSourceDef::F8,
                Key::F9 => EventSourceDef::F9,
                Key::F10 => EventSourceDef::F10,
                Key::F11 => EventSourceDef::F11,
                Key::F12 => EventSourceDef::F12,
                Key::LeftShift => EventSourceDef::LeftShift,
                Key::LeftControl => EventSourceDef::LeftControl,
                Key::LeftAlt => EventSourceDef::LeftAlt,
                Key::LeftSuper => EventSourceDef::LeftSuper,
                Key::RightShift => EventSourceDef::RightShift,
                Key::RightControl => EventSourceDef::RightControl,
                Key::RightAlt => EventSourceDef::RightAlt,
                Key::RightSuper => EventSourceDef::RightSuper,
                Key::KbMenu => EventSourceDef::KbMenu,
                Key::Kp0 => EventSourceDef::Kp0,
                Key::Kp1 => EventSourceDef::Kp1,
                Key::Kp2 => EventSourceDef::Kp2,
                Key::Kp3 => EventSourceDef::Kp3,
                Key::Kp4 => EventSourceDef::Kp4,
                Key::Kp5 => EventSourceDef::Kp5,
                Key::Kp6 => EventSourceDef::Kp6,
                Key::Kp7 => EventSourceDef::Kp7,
                Key::Kp8 => EventSourceDef::Kp8,
                Key::Kp9 => EventSourceDef::Kp9,
                Key::KpDecimal => EventSourceDef::KpDecimal,
                Key::KpDivide => EventSourceDef::KpDivide,
                Key::KpMultiply => EventSourceDef::KpMultiply,
                Key::KpSubtract => EventSourceDef::KpSubtract,
                Key::KpAdd => EventSourceDef::KpAdd,
                Key::KpEnter => EventSourceDef::KpEnter,
                Key::KpEqual => EventSourceDef::KpEqual,
                Key::Back => EventSourceDef::Back,
                Key::Menu => EventSourceDef::Menu,
                Key::VolumeUp => EventSourceDef::VolumeUp,
                Key::VolumeDown => EventSourceDef::VolumeDown,
            },
            EventSource::Mouse(b) => match b {
                Button::Left => EventSourceDef::MouseLeft,
                Button::Right => EventSourceDef::MouseRight,
                Button::Middle => EventSourceDef::MouseMiddle,
                Button::Side => EventSourceDef::MouseSide,
                Button::Extra => EventSourceDef::MouseExtra,
                Button::Forward => EventSourceDef::MouseForward,
                Button::Back => EventSourceDef::MouseBack,
            },
            EventSource::All(items) => {
                let mut ds: Vec<EventSourceDef> = Vec::new();
                let mut i: usize = 0;
                while i < items.len()
                    invariant
                        i <= items@.len(),
                        *src == EventSource::All(*items),
                        no_null_key(*src),
                        ds@.len() == i,
                        forall|j: int| 0 <= j < i ==> matches_def(#[trigger] items@[j], ds@[j]),
                    decreases items@.len() - i,
                {
                    proof {
                        assert(decreases_to!(*src => (*src)->All_0));
                        assert(decreases_to!(*src => items@[i as int]));
                        assert(no_null_key(items@[i as int]));
                    }
                    let d = EventSourceDef::of_source(&items[i]);
                    ds.push(d);
                    i = i + 1;
                }
                EventSourceDef::All(ds)
            },
            EventSource::Any(items) => {
                let mut ds: Vec<EventSourceDef> = Vec::new();
                let mut i: usize = 0;
                while i < items.len()
                    invariant
                        i <= items@.len(),
                        *src == EventSource::Any(*items),
                        no_null_key(*src),
                        ds@.len() == i,
                        forall|j: int| 0 <= j < i ==> matches_def(#[trigger] items@[j], ds@[j]),
                    decreases items@.len() - i,
                {
                    proof {
                        assert(decreases_to!(*src => (*src)->Any_0));
                        assert(decreases_to!(*src => items@[i as int]));
                        assert(no_null_key(items@[i as int]));
                    }
                    let d = EventSourceDef::of_source(&items[i]);
                    ds.push(d);
                    i = i + 1;
                }
                EventSourceDef::Any(ds)
            },
            EventSource::Not(item) => EventSourceDef::Not(Box::new(EventSourceDef::of_source(item))),
        }
    }
}

impl EventSource {
    /// The source that `value` writes.
    pub fn from(value: EventSourceDef) -> (r: EventSource)
        ensures
            matches_def(r, value),
    {
        EventSource::of_def(&value)
    }

    /// The source that `def` writes.
    fn of_def(def: &EventSourceDef) -> (r: EventSource)
        ensures
            matches_def(r, *def),
        decreases def,
    {
        match def {
            EventSourceDef::Inactive => EventSource::Constant(Event::Inactive),
            EventSourceDef::Starting => EventSource::Constant(Event::Starting),
            EventSourceDef::Active => EventSource::Constant(Event::Active),
            EventSourceDef::Ending => EventSource::Constant(Event::Ending),
            EventSourceDef::Apostrophe => EventSource::Keyboard(Key::Apostrophe),
            EventSourceDef::Comma => EventSource::Keyboard(Key::Comma),
            EventSourceDef::Minus => EventSource::Keyboard(Key::Minus),
            EventSourceDef::Period => EventSource::Keyboard(Key::Period),
            EventSourceDef::Slash => EventSource::Keyboard(Key::Slash),
            EventSourceDef::Zero => EventSource::Keyboard(Key::Zero),
            EventSourceDef::One => EventSource::Keyboard(Key::One),
            EventSourceDef::Two => EventSource::Keyboard(Key::Two),
            EventSourceDef::Three => EventSource::Keyboard(Key::Three),
            EventSourceDef::Four => EventSource::Keyboard(Key::Four),
            EventSourceDef::Five => EventSource::Keyboard(Key::Five),
            EventSourceDef::Six => EventSource::Keyboard(Key::Six),
            EventSourceDef::Seven => EventSource::Keyboard(Key::Seven),
            EventSourceDef::Eight => EventSource::Keyboard(Key::Eight),
            EventSourceDef::Nine => EventSource::Keyboard(Key::Nine),
            EventSourceDef::Semicolon => EventSource::Keyboard(Key::Semicolon),
            EventSourceDef::Equal => EventSource::Keyboard(Key::Equal),
            EventSourceDef::A => EventSource::Keyboard(Key::A),
            EventSourceDef::B => EventSource::Keyboard(Key::B),
            EventSourceDef::C => EventSource::Keyboard(Key::C),
            EventSourceDef::D => EventSource::Keyboard(Key::D),
            EventSourceDef::E => EventSource::Keyboard(Key::E),
            EventSourceDef::F => EventSource::Keyboard(Key::F),
            EventSourceDef::G => EventSource::Keyboard(Key::G),
            EventSourceDef::H => EventSource::Keyboard(Key::H),
            EventSourceDef::I => EventSource::Keyboard(Key::I),
            EventSourceDef::J => EventSource::Keyboard(Key::J),
            EventSourceDef::K => EventSource::Keyboard(Key::K),
            EventSourceDef::L => EventSource::Keyboard(Key::L),
            EventSourceDef::M => EventSource::Keyboard(Key::M),
            EventSourceDef::N => EventSource::Keyboard(Key::N),
            EventSourceDef::O => EventSource::Keyboard(Key::O),
            EventSourceDef::P => EventSource::Keyboard(Key::P),
            EventSourceDef::Q => EventSource::Keyboard(Key::Q),
            EventSourceDef::R => EventSource::Keyboard(Key::R),
            EventSourceDef::S => EventSource::Keyboard(Key::S),
            EventSourceDef::T => EventSource::Keyboard(Key::T),
            EventSourceDef::U => EventSource::Keyboard(Key::U),
            EventSourceDef::V => EventSource::Keyboard(Key::V),
            EventSourceDef::W => EventSource::Keyboard(Key::W),
            EventSourceDef::X => EventSource::Keyboard(Key::X),
            EventSourceDef::Y => EventSource::Keyboard(Key::Y),
            EventSourceDef::Z => EventSource::Keyboard(Key::Z),
            EventSourceDef::LeftBracket => EventSource::Keyboard(Key::LeftBracket),
            EventSourceDef::Backslash => EventSource::Keyboard(Key::Backslash),
            EventSourceDef::RightBracket => EventSource::Keyboard(Key::RightBracket),
            EventSourceDef::Grave => EventSource::Keyboard(Key::Grave),
            EventSourceDef::Space => EventSource::Keyboard(Key::Space),
            EventSourceDef::Escape => EventSource::Keyboard(Key::Escape),
            EventSourceDef::Enter => EventSource::Keyboard(Key::Enter),
            EventSourceDef::Tab => EventSource::Keyboard(Key::Tab),
            EventSourceDef::Backspace => EventSource::Keyboard(Key::Backspace),
            EventSourceDef::Insert => EventSource::Keyboard(Key::Insert),
            EventSourceDef::Delete => EventSource::Keyboard(Key::Delete),
            EventSourceDef::Right => EventSource::Keyboard(Key::Right),
            EventSourceDef::Left => EventSource::Keyboard(Key::Left),
            EventSourceDef::Down => EventSource::Keyboard(Key::Down),
            EventSourceDef::Up => EventSource::Keyboard(Key::Up),
            EventSourceDef::PageUp => EventSource::Keyboard(Key::PageUp),
            EventSourceDef::PageDown => EventSource::Keyboard(Key::PageDown),
            EventSourceDef::Home => EventSource::Keyboard(Key::Home),
            EventSourceDef::End => EventSource::Keyboard(Key::End),
            EventSourceDef::CapsLock => EventSource::Keyboard(Key::CapsLock),
            EventSourceDef::ScrollLock => EventSource::Keyboard(Key::ScrollLock),
            EventSourceDef::NumLock => EventSource::Keyboard(Key::NumLock),
            EventSourceDef::PrintScreen => EventSource::Keyboard(Key::PrintScreen),
            EventSourceDef::Pause => EventSource::Keyboard(Key::Pause),
            EventSourceDef::F1 => EventSource::Keyboard(Key::F1),
            EventSourceDef::F2 => EventSource::Keyboard(Key::F2),
            EventSourceDef::F3 => EventSource::Keyboard(Key::F3),
            EventSourceDef::F4 => EventSource::Keyboard(Key::F4),
            EventSourceDef::F5 => EventSource::Keyboard(Key::F5),
            EventSourceDef::F6 => EventSource::Keyboard(Key::F6),
            EventSourceDef::F7 => EventSource::Keyboard(Key::F7),
            EventSourceDef::F8 => EventSource::Keyboard(Key::F8),
            EventSourceDef::F9 => EventSource::Keyboard(Key::F9),
            EventSourceDef::F10 => EventSource::Keyboard(Key::F10),
            EventSourceDef::F11 => EventSource::Keyboard(Key::F11),
            EventSourceDef::F12 => EventSource::Keyboard(Key::F12),
            EventSourceDef::LeftShift => EventSource::Keyboard(Key::LeftShift),
            EventSourceDef::LeftControl => EventSource::Keyboard(Key::LeftControl),
            EventSourceDef::LeftAlt => EventSource::Keyboard(Key::LeftAlt),
            EventSourceDef::LeftSuper => EventSource::Keyboard(Key::LeftSuper),
            EventSourceDef::RightShift => EventSource::Keyboard(Key::RightShift),
            EventSourceDef::RightControl => EventSource::Keyboard(Key::RightControl),
            EventSourceDef::RightAlt => EventSource::Keyboard(Key::RightAlt),
            EventSourceDef::RightSuper => EventSource::Keyboard(Key::RightSuper),
            EventSourceDef::KbMenu => EventSource::Keyboard(Key::KbMenu),
            EventSourceDef::Kp0 => EventSource::Keyboard(Key::Kp0),
            EventSourceDef::Kp1 => EventSource::Keyboard(Key::Kp1),
            EventSourceDef::Kp2 => EventSource::Keyboard(Key::Kp2),
            EventSourceDef::Kp3 => EventSource::Keyboard(Key::Kp3),
            EventSourceDef::Kp4 => EventSource::Keyboard(Key::Kp4),
            EventSourceDef::Kp5 => EventSource::Keyboard(Key::Kp5),
            EventSourceDef::Kp6 => EventSource::Keyboard(Key::Kp6),
            EventSourceDef::Kp7 => EventSource::Keyboard(Key::Kp7),
            EventSourceDef::Kp8 => EventSource::Keyboard(Key::Kp8),
            EventSourceDef::Kp9 => EventSource::Keyboard(Key::Kp9),
            EventSourceDef::KpDecimal => EventSource::Keyboard(Key::KpDecimal),
            EventSourceDef::KpDivide => EventSource::Keyboard(Key::KpDivide),
            EventSourceDef::KpMultiply => EventSource::Keyboard(Key::KpMultiply),
            EventSourceDef::KpSubtract => EventSource::Keyboard(Key::KpSubtract),
            EventSourceDef::KpAdd => EventSource::Keyboard(Key::KpAdd),
            EventSourceDef::KpEnter => EventSource::Keyboard(Key::KpEnter),
            EventSourceDef::KpEqual => EventSource::Keyboard(Key::KpEqual),
            EventSourceDef::Back => EventSource::Keyboard(Key::Back),
            EventSourceDef::Menu => EventSource::Keyboard(Key::Menu),
            EventSourceDef::VolumeUp => EventSource::Keyboard(Key::VolumeUp),
            EventSourceDef::VolumeDown => EventSource::Keyboard(Key::VolumeDown),
            EventSourceDef::MouseLeft => EventSource::Mouse(Button::Left),
            EventSourceDef::MouseRight => EventSource::Mouse(Button::Right),
            EventSourceDef::MouseMiddle => EventSource::Mouse(Button::Middle),
            EventSourceDef::MouseSide => EventSource::Mouse(Button::Side),
            EventSourceDef::MouseExtra => EventSource::Mouse(Button::Extra),
            EventSourceDef::MouseForward => EventSource::Mouse(Button::Forward),
            EventSourceDef::MouseBack => EventSource::Mouse(Button::Back),
            EventSourceDef::All(ds) => {
                let mut items: Vec<EventSource> = Vec::new();
                let mut i: usize = 0;
                while i < ds.len()
                    invariant
                        i <= ds@.len(),
                        *def == EventSourceDef::All(*ds),
                        items@.len() == i,
                        forall|j: int| 0 <= j < i ==> matches_def(#[trigger] items@[j], ds@[j]),
                    decreases ds@.len() - i,
                {
                    proof {
                        assert(decreases_to!(*def => (*def)->All_0));
                        assert(decreases_to!(*def => ds@[i as int]));
                    }
                    let s = EventSource::of_def(&ds[i]);
                    items.push(s);
                    i = i + 1;
                }
                EventSource::All(items)
            },
            EventSourceDef::Any(ds) => {
                let mut items: Vec<EventSource> = Vec::new();
                let mut i: usize = 0;
                while i < ds.len()
                    invariant
                        i <= ds@.len(),
                        *def == EventSourceDef::Any(*ds),
                        items@.len() == i,
                        forall|j: int| 0 <= j < i ==> matches_def(#[trigger] items@[j], ds@[j]),
                    decreases ds@.len() - i,
                {
                    proof {
                        assert(decreases_to!(*def => (*def)->Any_0));
                        assert(decreases_to!(*def => ds@[i as int]));
                    }
                    let s = EventSource::of_def(&ds[i]);
                    items.push(s);
                    i = i + 1;
                }
                EventSource::Any(items)
            },
            EventSourceDef::Not(d) => EventSource::Not(Box::new(EventSource::of_def(d))),
        }
    }
}

/// What the controls are doing on this frame: the keys and buttons held, and those
/// pressed or released since the last frame.
#[derive(Debug)]
pub struct InputState {
    pub keys_down: Vec<Key>,
    pub keys_pressed: Vec<Key>,
    pub keys_released: Vec<Key>,
    pub buttons_down: Vec<Button>,
    pub buttons_pressed: Vec<Button>,
    pub buttons_released: Vec<Button>,
}

/// Whether `src` is held. A key or button is held when it is down. `All` is held when
/// any of its parts is, `Any` when every part is, and `Not` when its part is not.
pub open spec fn source_active(src: EventSource, input: InputState) -> bool
    decreases src,
{
    match src {
        EventSource::Constant(e) => e.spec_is_active(),
        EventSource::Keyboard(k) => input.keys_down@.contains(k),
        EventSource::Mouse(b) => input.buttons_down@.contains(b),
        EventSource::All(items) => exists|i: int|
            0 <= i < items@.len() && source_active(#[trigger] items@[i], input),
        EventSource::Any(items) => forall|i: int|
            0 <= i < items@.len() ==> source_active(#[trigger] items@[i], input),
        EventSource::Not(item) => !source_active(*item, input),
    }
}

/// Whether `src` starts on this frame. A key or button starts when it is pressed. `All`
/// starts when any part starts; `Any` when some part starts and every part is held;
/// `Not` when its part does not start.
pub open spec fn source_starting(src: EventSource, input: InputState) -> bool
    decreases src,
{
    match src {
        EventSource::Constant(e) => e == Event::Starting,
        EventSource::Keyboard(k) => input.keys_pressed@.contains(k),
        EventSource::Mouse(b) => input.buttons_pressed@.contains(b),
        EventSource::All(items) => exists|i: int|
            0 <= i < items@.len() && source_starting(#[trigger] items@[i], input),
        EventSource::Any(items) => (exists|i: int|
            0 <= i < items@.len() && source_starting(#[trigger] items@[i], input)) && (forall|i: int|
            0 <= i < items@.len() ==> source_active(#[trigger] items@[i], input)),
        EventSource::Not(item) => !source_starting(*item, input),
    }
}

/// Whether `src` ends on this frame. A key or button ends when it is released. `All`
/// ends when some part ends and no part is held; `Any` when some part ends and every
/// part is held or ending; `Not` when its part does not end.
pub open spec fn source_ending(src: EventSource, input: InputState) -> bool
    decreases src,
{
    match src {
        EventSource::Constant(e) => e == Event::Ending,
        EventSource::Keyboard(k) => input.keys_released@.contains(k),
        EventSource::Mouse(b) => input.buttons_released@.contains(b),
        EventSource::All(items) => (exists|i: int|
            0 <= i < items@.len() && source_ending(#[trigger] items@[i], input)) && (forall|i: int|
            0 <= i < items@.len() ==> !source_active(#[trigger] items@[i], input)),
        EventSource::Any(items) => (exists|i: int|
            0 <= i < items@.len() && source_ending(#[trigger] items@[i], input)) && (forall|i: int|
            0 <= i < items@.len() ==> source_active(#[trigger] items@[i], input) || source_ending(
                items@[i],
                input,
            )),
        EventSource::Not(item) => !source_ending(*item, input),
    }
}

/// The event `src` gives on this frame: a constant gives itself; otherwise a held
/// source is `Starting` or `Active`, and one not held is `Ending` or `Inactive`.
pub open spec fn source_event(src: EventSource, input: InputState) -> Event {
    match src {
        EventSource::Constant(e) => e,
        _ => if source_active(src, input) {
            if source_starting(src, input) {
                Event::Starting
            } else {
                Event::Active
            }
        } else if source_ending(src, input) {
            Event::Ending
        } else {
            Event::Inactive
        },
    }
}

/// Whether `v` holds the key `k`.
fn holds_key(v: &Vec<Key>, k: Key) -> (r: bool)
    ensures
        r == v@.contains(k),
{
    let mut i: usize = 0;
    while i < v.len()
        invariant
            i <= v@.len(),
            forall|j: int| 0 <= j < i ==> v@[j] != k,
        decreases v@.len() - i,
    {
        if v[i] == k {
            assert(v@[i as int] == k);
            return true;
        }
        i = i + 1;
    }
    false
}

/// Whether `v` holds the button `b`.
fn holds_button(v: &Vec<Button>, b: Button) -> (r: bool)
    ensures
        r == v@.contains(b),
{
    let mut i: usize = 0;
    while i < v.len()
        invariant
            i <= v@.len(),
            forall|j: int| 0 <= j < i ==> v@[j] != b,
        decreases v@.len() - i,
    {
        if v[i] == b {
            assert(v@[i as int] == b);
            return true;
        }
        i = i + 1;
    }
    false
}

/// The question `which` asks of a source: 0 whether it is held, 1 whether it starts,
/// 2 whether it ends, and otherwise whether it is held or ends.
pub open spec fn source_phase(src: EventSource, input: InputState, which: u8) -> bool {
    if which == 0 {
        source_active(src, input)
    } else if which == 1 {
        source_starting(src, input)
    } else if which == 2 {
        source_ending(src, input)
    } else {
        source_active(src, input) || source_ending(src, input)
    }
}

/// Asks `which` of some part of `items` (`want_all` false), or of every part.
fn parts_phase(
    src: &EventSource,
    items: &Vec<EventSource>,
    input: &InputState,
    which: u8,
    want_all: bool,
) -> (r: bool)
    requires
        *src == EventSource::All(*items) || *src == EventSource::Any(*items),
    ensures
        !want_all ==> r == exists|i: int|
            0 <= i < items@.len() && source_phase(#[trigger] items@[i], *input, which),
        want_all ==> r == forall|i: int|
            0 <= i < items@.len() ==> source_phase(#[trigger] items@[i], *input, which),
    decreases src, 0nat,
{
    let mut i: usize = 0;
    while i < items.len()
        invariant
            i <= items@.len(),
            *src == EventSource::All(*items) || *src == EventSource::Any(*items),
            !want_all ==> forall|j: int|
                0 <= j < i ==> !source_phase(#[trigger] items@[j], *input, which),
            want_all ==> forall|j: int|
                0 <= j < i ==> source_phase(#[trigger] items@[j], *input, which),
        decreases items@.len() - i,
    {
        proof {
            if *src == EventSource::All(*items) {
                assert(decreases_to!(*src => (*src)->All_0));
            } else {
                assert(decreases_to!(*src => (*src)->Any_0));
            }
            assert(decreases_to!(*src => items@[i as int]));
        }
        let a = if which == 0 {
            items[i].is_active(input)
        } else if which == 1 {
            items[i].is_starting(input)
        } else if which == 2 {
            items[i].is_ending(input)
        } else {
            items[i].is_active(input) || items[i].is_ending(input)
        };
        if a && !want_all {
            return true;
        }
        if !a && want_all {
            return false;
        }
        i = i + 1;
    }
    want_all
}

impl EventSource {
    /// Whether the source is held on this frame.
    pub fn is_active(&self, input: &InputState) -> (r: bool)
        ensures
            r == source_active(*self, *input),
        decreases self, 1nat,
    {
        match self {
            EventSource::Constant(e) => e.is_active(),
            EventSource::Keyboard(k) => holds_key(&input.keys_down, *k),
            EventSource::Mouse(b) => holds_button(&input.buttons_down, *b),
            EventSource::All(items) => parts_phase(self, items, input, 0, false),
            EventSource::Any(items) => parts_phase(self, items, input, 0, true),
            EventSource::Not(item) => !item.is_active(input),
        }
    }

    /// Whether the source starts on this frame.
    pub fn is_starting(&self, input: &InputState) -> (r: bool)
        ensures
            r == source_starting(*self, *input),
        decreases self, 1nat,
    {
        match self {
            EventSource::Constant(e) => e.is_starting(),
            EventSource::Keyboard(k) => holds_key(&input.keys_pressed, *k),
            EventSource::Mouse(b) => holds_button(&input.buttons_pressed, *b),
            EventSource::All(items) => parts_phase(self, items, input, 1, false),
            EventSource::Any(items) => parts_phase(self, items, input, 1, false) && parts_phase(
                self,
                items,
                input,
                0,
                true,
            ),
            EventSource::Not(item) => !item.is_starting(input),
        }
    }

    /// Whether the source ends on this frame.
    pub fn is_ending(&self, input: &InputState) -> (r: bool)
        ensures
            r == source_ending(*self, *input),
        decreases self, 1nat,
    {
        match self {
            EventSource::Constant(e) => e.is_ending(),
            EventSource::Keyboard(k) => holds_key(&input.keys_released, *k),
            EventSource::Mouse(b) => holds_button(&input.buttons_released, *b),
            EventSource::All(items) => {
                let some_ending = parts_phase(self, items, input, 2, false);
                let some_active = parts_phase(self, items, input, 0, false);
                some_ending && !some_active
            },
            EventSource::Any(items) => parts_phase(self, items, input, 2, false) && parts_phase(
                self,
                items,
                input,
                3,
                true,
            ),
            EventSource::Not(item) => !item.is_ending(input),
        }
    }

    /// The event the source gives on this frame.
    pub fn get(&self, input: &InputState) -> (r: Event)
        ensures
            r == source_event(*self, *input),
    {
        match self {
            EventSource::Constant(e) => *e,
            _ => if self.is_active(input) {
                if self.is_starting(input) {
                    Event::Starting
                } else {
                    Event::Active
                }
            } else if self.is_ending(input) {
                Event::Ending
            } else {
                Event::Inactive
            },
        }
    }
}

/// `r` is the value paired with the first event of `pairs` that is starting, or `None`
/// when none is.
pub open spec fn picks_first_starting<T>(pairs: Seq<(Event, T)>, r: Option<T>) -> bool {
    match r {
        Some(v) => exists|i: int|
            0 <= i < pairs.len() && pairs[i].0 == Event::Starting && pairs[i].1 == v && forall|j: int|
                0 <= j < i ==> pairs[j].0 != Event::Starting,
        None => forall|i: int| 0 <= i < pairs.len() ==> pairs[i].0 != Event::Starting,
    }
}

/// The value paired with the first event of `pairs` that is starting, if any.
pub open spec fn first_starting_of<T>(pairs: Seq<(Event, T)>) -> Option<T>
    decreases pairs.len(),
{
    if pairs.len() == 0 {
        None
    } else if pairs[0].0 == Event::Starting {
        Some(pairs[0].1)
    } else {
        first_starting_of(pairs.drop_first())
    }
}

/// The value paired with the first starting event is that of a starting event with no
/// starting event before it, and there is none only when no event is starting.
pub proof fn lemma_first_starting_picks<T>(pairs: Seq<(Event, T)>)
    ensures
        picks_first_starting(pairs, first_starting_of(pairs)),
    decreases pairs.len(),
{
    if pairs.len() > 0 && pairs[0].0 != Event::Starting {
        let rest = pairs.drop_first();
        lemma_first_starting_picks(rest);
        match first_starting_of(rest) {
            Some(v) => {
                let i = choose|i: int|
                    0 <= i < rest.len() && rest[i].0 == Event::Starting && rest[i].1 == v && forall|j: int|
                        0 <= j < i ==> rest[j].0 != Event::Starting;
                assert(pairs[i + 1] == rest[i]);
                assert forall|j: int| 0 <= j < i + 1 implies pairs[j].0 != Event::Starting by {
                    if j > 0 {
                        assert(pairs[j] == rest[j - 1]);
                    }
                }
            },
            None => {
                assert forall|i: int| 0 <= i < pairs.len() implies pairs[i].0 != Event::Starting by {
                    if i > 0 {
                        assert(pairs[i] == rest[i - 1]);
                    }
                }
            },
        }
    }
}

/// The value paired with the first event of `pairs` that is starting, if any: which
/// hotkey of a list was pressed on this frame.
pub fn first_starting<T: Copy>(pairs: &[(Event, T)]) -> (r: Option<T>)
    ensures
        picks_first_starting(pairs@, r),
        r == first_starting_of(pairs@),
{
    let mut i: usize = 0;
    assert(pairs@.skip(0) =~= pairs@);
    while i < pairs.len()
        invariant
            i <= pairs@.len(),
            forall|j: int| 0 <= j < i ==> pairs@[j].0 != Event::Starting,
            first_starting_of(pairs@) == first_starting_of(pairs@.skip(i as int)),
        decreases pairs@.len() - i,
    {
        let (e, v) = pairs[i];
        assert(pairs@.skip(i as int)[0] == pairs@[i as int]);
        if e.is_starting() {
            assert(pairs@[i as int].0 == Event::Starting);
            return Some(v);
        }
        assert(pairs@.skip(i as int).drop_first() =~= pairs@.skip(i + 1));
        i = i + 1;
    }
    None
}

/// How the values of several integer sources combine into one.
#[derive(Debug, Clone, Copy, PartialEq, Eq, Structural, Hash)]
pub enum IntCombine {
    /// Their sum (zero for none).
    Sum,
    /// Their product (one for none).
    Product,
    /// The first minus each of the others in turn (zero for none).
    Difference,
}

/// What combining `xs` gives, computed on whole numbers.
pub open spec fn combined(how: IntCombine, xs: Seq<i32>) -> int
    decreases xs.len(),
{
    if xs.len() == 0 {
        match how {
            IntCombine::Product => 1,
            _ => 0,
        }
    } else if xs.len() == 1 {
        match how {
            IntCombine::Sum => xs[0] as int,
            IntCombine::Product => xs[0] as int,
            IntCombine::Difference => xs[0] as int,
        }
    } else {
        let rest = combined(how, xs.drop_last());
        match how {
            IntCombine::Sum => rest + xs.last(),
            IntCombine::Product => rest * xs.last(),
            IntCombine::Difference => rest - xs.last(),
        }
    }
}

/// Every step of combining `xs` one value at a time stays within `i32`.
pub open spec fn steps_fit(how: IntCombine, xs: Seq<i32>) -> bool {
    forall|k: int|
        1 <= k <= xs.len() ==> i32::MIN <= #[trigger] combined(how, xs.take(k)) <= i32::MAX
}

/// Combines the values `xs` one at a time, from the first; `None` when a step leaves the
/// range of `i32` (where integer arithmetic overflows).
pub fn combine_ints(how: IntCombine, xs: &[i32]) -> (r: Option<i32>)
    ensures
        r is Some <==> steps_fit(how, xs@),
        r matches Some(v) ==> v == combined(how, xs@),
{
    let n = xs.len();
    if n == 0 {
        assert(steps_fit(how, xs@));
        return match how {
            IntCombine::Product => Some(1),
            _ => Some(0),
        };
    }
    let mut acc: i32 = xs[0];
    assert(xs@.take(1) =~= seq![xs@[0]]);
    let mut i: usize = 1;
    while i < n
        invariant
            1 <= i <= n == xs@.len(),
            acc == combined(how, xs@.take(i as int)),
            forall|k: int| 1 <= k <= i ==> i32::MIN <= #[trigger] combined(how, xs@.take(k)) <= i32::MAX,
        decreases n - i,
    {
        assert(xs@.take(i + 1).drop_last() =~= xs@.take(i as int));
        let x = xs[i];
        let next = match how {
            IntCombine::Sum => acc.checked_add(x),
            IntCombine::Product => acc.checked_mul(x),
            IntCombine::Difference => acc.checked_sub(x),
        };
        match next {
            Some(v) => {
                acc = v;
            },
            None => {
                assert(!(i32::MIN <= combined(how, xs@.take(i + 1)) <= i32::MAX));
                return None;
            },
        }
        i = i + 1;
    }
    assert(xs@.take(n as int) =~= xs@);
    Some(acc)
}

} // verus!
