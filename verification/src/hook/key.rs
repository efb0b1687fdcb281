//! Keyboard events and the modifier keys that are held.

use vstd::prelude::*;

verus! {

/// The bit of the shift keys in a set of modifiers.
pub const SHIFT: u8 = 1;

/// The bit of the control keys.
pub const CTRL: u8 = 2;

/// The bit of the alt keys.
pub const ALT: u8 = 4;

/// The bit of the windows keys.
pub const WIN: u8 = 8;

/// A set of modifiers: for each of shift, control, alt and windows one bit
/// that is set while the modifier is held.
#[derive(Debug, Clone, Copy, PartialEq, Eq, Structural)]
pub struct Modifiers {
    pub bits: u8,
}

impl Modifiers {
    /// Whether every modifier of `other` is in this set.
    pub open spec fn has(self, other: Modifiers) -> bool {
        self.bits & other.bits == other.bits
    }

    /// No modifier.
    pub fn empty() -> (none: Modifiers)
        ensures
            none.bits == 0,
    {
        Modifiers { bits: 0 }
    }

    /// Shift alone.
    pub fn shift() -> (only: Modifiers)
        ensures
            only.bits == SHIFT,
    {
        Modifiers { bits: SHIFT }
    }

    /// Control alone.
    pub fn ctrl() -> (only: Modifiers)
        ensures
            only.bits == CTRL,
    {
        Modifiers { bits: CTRL }
    }

    /// Alt alone.
    pub fn alt() -> (only: Modifiers)
        ensures
            only.bits == ALT,
    {
        Modifiers { bits: ALT }
    }

    /// Windows alone.
    pub fn win() -> (only: Modifiers)
        ensures
            only.bits == WIN,
    {
        Modifiers { bits: WIN }
    }

    /// The bits of the set.
    pub fn bits(&self) -> (bits: u8)
        ensures
            bits == self.bits,
    {
        self.bits
    }

    /// Whether the set holds no modifier.
    pub fn is_empty(&self) -> (none: bool)
        ensures
            none == (self.bits == 0),
    {
        self.bits == 0
    }

    /// Whether every modifier of `other` is in this set.
    pub fn contains(&self, other: Modifiers) -> (all: bool)
        ensures
            all == self.has(other),
    {
        self.bits & other.bits == other.bits
    }

    /// Adds the modifiers of `other`.
    pub fn insert(&mut self, other: Modifiers)
        ensures
            final(self).bits == old(self).bits | other.bits,
    {
        self.bits = self.bits | other.bits;
    }

    /// Takes the modifiers of `other` away.
    pub fn remove(&mut self, other: Modifiers)
        ensures
            final(self).bits == old(self).bits & !other.bits,
    {
        self.bits = self.bits & !other.bits;
    }

    /// The modifiers of this set and those of `other`.
    pub fn union(self, other: Modifiers) -> (both: Modifiers)
        ensures
            both.bits == self.bits | other.bits,
    {
        Modifiers { bits: self.bits | other.bits }
    }
}

/// A key of the keyboard. `Unknown` carries the platform's code of a key that
/// has no name here.
#[derive(Debug, Clone, Copy, PartialEq, Eq, Structural)]
pub enum Key {
    Alt,
    AltGr,
    Backspace,
    CapsLock,
    ControlLeft,
    ControlRight,
    Delete,
    DownArrow,
    End,
    Escape,
    F1,
    F10,
    F11,
    F12,
    F2,
    F3,
    F4,
    F5,
    F6,
    F7,
    F8,
    F9,
    Home,
    LeftArrow,
    MetaLeft,
    MetaRight,
    PageDown,
    PageUp,
    Return,
    RightArrow,
    ShiftLeft,
    ShiftRight,
    Space,
    Tab,
    UpArrow,
    PrintScreen,
    ScrollLock,
    Pause,
    NumLock,
    BackQuote,
    Num1,
    Num2,
    Num3,
    Num4,
    Num5,
    Num6,
    Num7,
    Num8,
    Num9,
    Num0,
    Minus,
    Equal,
    KeyQ,
    KeyW,
    KeyE,
    KeyR,
    KeyT,
    KeyY,
    KeyU,
    KeyI,
    KeyO,
    KeyP,
    LeftBracket,
    RightBracket,
    KeyA,
    KeyS,
    KeyD,
    KeyF,
    KeyG,
    KeyH,
    KeyJ,
    KeyK,
    KeyL,
    SemiColon,
    Quote,
    BackSlash,
    IntlBackslash,
    KeyZ,
    KeyX,
    KeyC,
    KeyV,
    KeyB,
    KeyN,
    KeyM,
    Comma,
    Dot,
    Slash,
    Insert,
    KpReturn,
    KpMinus,
    KpPlus,
    KpMultiply,
    KpDivide,
    Kp0,
    Kp1,
    Kp2,
    Kp3,
    Kp4,
    Kp5,
    Kp6,
    Kp7,
    Kp8,
    Kp9,
    KpDelete,
    Function,
    Unknown(u32),
}

/// A key press that is no modifier, with the modifiers held at that moment.
#[derive(Debug, Clone, Copy, PartialEq, Eq, Structural)]
pub struct Event(pub Modifiers, pub Key);

/// What the keyboard grab reports.
#[derive(Debug, Clone, Copy, PartialEq, Eq, Structural)]
pub enum Input {
    Press(Key),
    Release(Key),
    /// Anything that is no key press or release, such as a mouse event.
    Other,
}

/// What to do about one input.
#[derive(Debug, Clone, Copy, PartialEq, Eq, Structural)]
pub struct Reaction {
    /// The event to send on, if any.
    pub event: Option<Event>,
    /// Whether the input goes on to the rest of the system. An input that
    /// does not is swallowed.
    pub forward: bool,
}

/// The bit of the modifier that `key` stands for, and zero for a key that is
/// no modifier. Both keys of a pair stand for the same modifier, and so does
/// the unnamed key with code 92, as which a right windows key may arrive.
pub open spec fn modifier_bit(key: Key) -> u8 {
    match key {
        Key::ShiftLeft | Key::ShiftRight => SHIFT,
        Key::ControlLeft | Key::ControlRight => CTRL,
        Key::Alt | Key::AltGr => ALT,
        Key::MetaLeft | Key::MetaRight => WIN,
        Key::Unknown(code) => if code == 92 {
            WIN
        } else {
            0
        },
        _ => 0,
    }
}

/// The modifiers held once `input` has happened while `held` were held.
pub open spec fn modifiers_after(held: Modifiers, input: Input) -> Modifiers {
    match input {
        Input::Press(key) => Modifiers { bits: held.bits | modifier_bit(key) },
        Input::Release(key) => Modifiers { bits: held.bits & !modifier_bit(key) },
        Input::Other => held,
    }
}

/// The reaction to `input` while `held` are held. Only the press of a key
/// that is no modifier sends an event on, and it is swallowed while the
/// windows modifier is held. Everything else goes on untouched.
pub open spec fn reaction_to(held: Modifiers, input: Input) -> Reaction {
    match input {
        Input::Press(key) => if modifier_bit(key) == 0 {
            Reaction { event: Some(Event(held, key)), forward: held.bits & WIN != WIN }
        } else {
            Reaction { event: None, forward: true }
        },
        _ => Reaction { event: None, forward: true },
    }
}

/// The keys that are down after `inputs`, when none was down before.
pub open spec fn keys_down(inputs: Seq<Input>) -> Set<Key>
    decreases inputs.len(),
{
    if inputs.len() == 0 {
        Set::empty()
    } else {
        let before = keys_down(inputs.drop_last());
        match inputs.last() {
            Input::Press(key) => before.insert(key),
            Input::Release(key) => before.remove(key),
            Input::Other => before,
        }
    }
}

/// The modifiers that a keyboard holds after `inputs`, when it held none
/// before.
pub open spec fn modifiers_held(inputs: Seq<Input>) -> Modifiers
    decreases inputs.len(),
{
    if inputs.len() == 0 {
        Modifiers { bits: 0 }
    } else {
        modifiers_after(modifiers_held(inputs.drop_last()), inputs.last())
    }
}

/// Whether, all through `inputs`, a modifier key is released only while no
/// other key of the same modifier is down.
pub open spec fn releases_last_key(inputs: Seq<Input>) -> bool
    decreases inputs.len(),
{
    if inputs.len() == 0 {
        true
    } else {
        &&& releases_last_key(inputs.drop_last())
        &&& match inputs.last() {
            Input::Release(key) => modifier_bit(key) != 0 ==> forall|other: Key|
                #[trigger] keys_down(inputs.drop_last()).contains(other) && modifier_bit(other)
                    == modifier_bit(key) ==> other == key,
            _ => true,
        }
    }
}

/// Setting and clearing one modifier bit, as seen from one modifier bit.
proof fn lemma_one_bit(held: u8, changed: u8, bit: u8)
    by (bit_vector)
    requires
        changed == 0 || changed == 1 || changed == 2 || changed == 4 || changed == 8,
        bit == 1 || bit == 2 || bit == 4 || bit == 8,
    ensures
        ((held | changed) & bit == bit) == ((held & bit == bit) || changed == bit),
        ((held & !changed) & bit == bit) == ((held & bit == bit) && changed != bit),
        0u8 & bit != bit,
{
}

/// The modifiers mirror the keyboard: a modifier is in the set exactly while
/// one of its keys is down. This holds of every run of inputs that starts
/// with no key down and in which a modifier key is released only while no
/// other key of the same modifier is down.
pub proof fn lemma_modifiers_mirror_keys(inputs: Seq<Input>, bit: u8)
    requires
        releases_last_key(inputs),
        bit == SHIFT || bit == CTRL || bit == ALT || bit == WIN,
    ensures
        modifiers_held(inputs).has(Modifiers { bits: bit }) <==> exists|key: Key|
            #[trigger] keys_down(inputs).contains(key) && modifier_bit(key) == bit,
    decreases inputs.len(),
{
    if inputs.len() == 0 {
        lemma_one_bit(0, 0, bit);
    } else {
        let earlier = inputs.drop_last();
        lemma_modifiers_mirror_keys(earlier, bit);
        let held = modifiers_held(earlier);
        let down = keys_down(earlier);
        match inputs.last() {
            Input::Press(key) => {
                lemma_one_bit(held.bits, modifier_bit(key), bit);
                if modifiers_held(inputs).has(Modifiers { bits: bit }) {
                    if modifier_bit(key) == bit {
                        assert(keys_down(inputs).contains(key));
                    } else {
                        let witness = choose|other: Key|
                            #[trigger] down.contains(other) && modifier_bit(other) == bit;
                        assert(keys_down(inputs).contains(witness));
                    }
                }
                if exists|other: Key|
                    #[trigger] keys_down(inputs).contains(other) && modifier_bit(other) == bit {
                    let witness = choose|other: Key|
                        #[trigger] keys_down(inputs).contains(other) && modifier_bit(other) == bit;
                    if witness != key {
                        assert(down.contains(witness));
                    }
                }
            },
            Input::Release(key) => {
                lemma_one_bit(held.bits, modifier_bit(key), bit);
                if modifiers_held(inputs).has(Modifiers { bits: bit }) {
                    let witness = choose|other: Key|
                        #[trigger] down.contains(other) && modifier_bit(other) == bit;
                    assert(keys_down(inputs).contains(witness));
                }
                if exists|other: Key|
                    #[trigger] keys_down(inputs).contains(other) && modifier_bit(other) == bit {
                    let witness = choose|other: Key|
                        #[trigger] keys_down(inputs).contains(other) && modifier_bit(other) == bit;
                    assert(down.contains(witness));
                }
            },
            Input::Other => {},
        }
    }
}

/// See `modifier_bit`.
pub fn modifier_of(key: Key) -> (bit: u8)
    ensures
        bit == modifier_bit(key),
{
    match key {
        Key::ShiftLeft | Key::ShiftRight => SHIFT,
        Key::ControlLeft | Key::ControlRight => CTRL,
        Key::Alt | Key::AltGr => ALT,
        Key::MetaLeft | Key::MetaRight => WIN,
        Key::Unknown(code) => if code == 92 {
            WIN
        } else {
            0
        },
        _ => 0,
    }
}

/// The keyboard as the grab sees it: the modifiers that are held.
pub struct Keyboard {
    modifiers: Modifiers,
}

impl View for Keyboard {
    type V = Modifiers;

    closed spec fn view(&self) -> Modifiers {
        self.modifiers
    }
}

impl Keyboard {
    /// A keyboard on which no modifier is held.
    pub fn new() -> (keyboard: Keyboard)
        ensures
            keyboard@.bits == 0,
    {
        Keyboard { modifiers: Modifiers::empty() }
    }

    /// The modifiers that are held.
    pub fn modifiers(&self) -> (held: Modifiers)
        ensures
            held == self@,
    {
        self.modifiers
    }

    /// Takes note of `input` and says what to do about it.
    ///
    /// The press of a modifier sets its bit and its release clears it; neither
    /// sends an event. The press of any other key sends an event with the
    /// modifiers held, and is swallowed while the windows modifier is held.
    pub fn handle(&mut self, input: Input) -> (reaction: Reaction)
        ensures
            final(self)@ == modifiers_after(old(self)@, input),
            reaction == reaction_to(old(self)@, input),
            input matches Input::Press(key) && modifier_bit(key) != 0 ==> reaction.event is None,
            input is Release ==> reaction.event is None,
            input matches Input::Press(key) && modifier_bit(key) == 0 && old(self)@.has(
                Modifiers { bits: WIN },
            ) ==> !reaction.forward,
    {
        match input {
            Input::Press(key) => {
                let bit = modifier_of(key);
                if bit == 0 {
                    let held = self.modifiers;
                    assert(held.bits | 0u8 == held.bits) by (bit_vector);
                    Reaction { event: Some(Event(held, key)), forward: !held.contains(Modifiers::win()) }
                } else {
                    self.modifiers.insert(Modifiers { bits: bit });
                    Reaction { event: None, forward: true }
                }
            },
            Input::Release(key) => {
                self.modifiers.remove(Modifiers { bits: modifier_of(key) });
                Reaction { event: None, forward: true }
            },
            Input::Other => Reaction { event: None, forward: true },
        }
    }
}

} // verus!
