//! Key presses: a key identity together with the modifier keys held with it.

use vstd::prelude::*;

verus! {

/// Bit of [`KeyModifiers`] for the Shift key.
pub const SHIFT: u8 = 0b0000_0001;

/// Bit of [`KeyModifiers`] for the Control key.
pub const CONTROL: u8 = 0b0000_0010;

/// Bit of [`KeyModifiers`] for the Alt key.
pub const ALT: u8 = 0b0000_0100;

/// Bit of [`KeyModifiers`] for the Super key.
pub const SUPER: u8 = 0b0000_1000;

/// Bit of [`KeyModifiers`] for the Hyper key.
pub const HYPER: u8 = 0b0001_0000;

/// Bit of [`KeyModifiers`] for the Meta key.
pub const META: u8 = 0b0010_0000;

/// A media key.
#[derive(PartialEq, Eq, Structural, Clone, Copy, Debug)]
pub enum MediaKeyCode {
    Play,
    Pause,
    PlayPause,
    Reverse,
    Stop,
    FastForward,
    Rewind,
    TrackNext,
    TrackPrevious,
    Record,
    LowerVolume,
    RaiseVolume,
    MuteVolume,
}

/// A modifier key pressed on its own.
#[derive(PartialEq, Eq, Structural, Clone, Copy, Debug)]
pub enum ModifierKeyCode {
    LeftShift,
    LeftControl,
    LeftAlt,
    LeftSuper,
    LeftHyper,
    LeftMeta,
    RightShift,
    RightControl,
    RightAlt,
    RightSuper,
    RightHyper,
    RightMeta,
    IsoLevel3Shift,
    IsoLevel5Shift,
}

/// The identity of a key: a printable character, a function key, a media
/// key, a modifier key, or one of the named keys.
#[derive(PartialEq, Eq, Structural, Clone, Copy, Debug)]
pub enum KeyCode {
    Backspace,
    Enter,
    Left,
    Right,
    Up,
    Down,
    Home,
    End,
    PageUp,
    PageDown,
    Tab,
    BackTab,
    Delete,
    Insert,
    F(u8),
    Char(char),
    Null,
    Esc,
    CapsLock,
    ScrollLock,
    NumLock,
    PrintScreen,
    Pause,
    Menu,
    KeypadBegin,
    Media(MediaKeyCode),
    Modifier(ModifierKeyCode),
}

/// The set of modifier keys held during a key press, one bit per modifier
/// (see [`SHIFT`], [`CONTROL`], [`ALT`], [`SUPER`], [`HYPER`], [`META`]).
#[derive(PartialEq, Eq, Structural, Clone, Copy, Debug)]
pub struct KeyModifiers {
    pub bits: u8,
}

impl KeyModifiers {
    /// Whether every bit of `flag` is set.
    pub open spec fn has(self, flag: u8) -> bool {
        self.bits & flag == flag
    }

    /// The modifier set with the given bits.
    pub fn from_bits(bits: u8) -> (r: KeyModifiers)
        ensures
            r.bits == bits,
    {
        KeyModifiers { bits }
    }

    /// No modifier held.
    pub fn none() -> (r: KeyModifiers)
        ensures
            r.bits == 0,
    {
        KeyModifiers { bits: 0 }
    }

    /// Whether no modifier is held.
    pub fn is_empty(&self) -> (r: bool)
        ensures
            r == (self.bits == 0),
    {
        self.bits == 0
    }

    /// Whether every bit of `flag` is held.
    pub fn contains(&self, flag: u8) -> (r: bool)
        ensures
            r == self.has(flag),
    {
        self.bits & flag == flag
    }
}

/// One key press: a key identity and the modifiers held with it. Two parts
/// are equal exactly when both fields are.
#[derive(PartialEq, Eq, Structural, Clone, Copy, Debug)]
pub struct KeyBindingPart {
    pub code: KeyCode,
    pub modifiers: KeyModifiers,
}

/// Whether `c` is one of the decimal digits `0` to `9`.
pub open spec fn is_decimal_digit(c: char) -> bool {
    '0' as u32 <= c as u32 <= '9' as u32
}

/// The value of the decimal digit `c`.
pub open spec fn decimal_value(c: char) -> nat {
    (c as u32 - '0' as u32) as nat
}

/// The digit that a key press contributes to a repeat count: a decimal digit
/// character typed without modifiers.
pub open spec fn count_digit_of(part: KeyBindingPart) -> Option<nat> {
    match part.code {
        KeyCode::Char(c) => if part.modifiers.bits == 0 && is_decimal_digit(c) {
            Some(decimal_value(c))
        } else {
            None
        },
        _ => None,
    }
}

/// Returns the value of `c` when it is a decimal digit.
pub fn decimal_digit(c: char) -> (r: Option<u32>)
    ensures
        r is Some <==> is_decimal_digit(c),
        r is Some ==> r->0 as nat == decimal_value(c) && r->0 <= 9,
{
    let v = c as u32;
    if 48 <= v && v <= 57 {
        Some(v - 48)
    } else {
        None
    }
}

impl KeyBindingPart {
    /// The key press `code` with the modifiers `modifiers`.
    pub fn new(code: KeyCode, modifiers: KeyModifiers) -> (r: KeyBindingPart)
        ensures
            r.code == code,
            r.modifiers == modifiers,
    {
        KeyBindingPart { code, modifiers }
    }

    /// The character `c` typed without modifiers.
    pub fn new_char(c: char) -> (r: KeyBindingPart)
        ensures
            r == (KeyBindingPart { code: KeyCode::Char(c), modifiers: KeyModifiers { bits: 0 } }),
    {
        KeyBindingPart { code: KeyCode::Char(c), modifiers: KeyModifiers { bits: 0 } }
    }

    /// The digit that this key press adds to a repeat count, if any.
    pub fn count_digit(&self) -> (r: Option<u32>)
        ensures
            r is Some <==> count_digit_of(*self) is Some,
            r is Some ==> r->0 as nat == count_digit_of(*self)->0 && r->0 <= 9,
    {
        if self.modifiers.bits != 0 {
            return None;
        }
        match self.code {
            KeyCode::Char(c) => decimal_digit(c),
            _ => None,
        }
    }
}

} // verus!
