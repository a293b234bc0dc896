//! The canonical text of key presses and chords, for help and status lines:
//! `a`, `N`, `<Tab>`, `<C-F2>`.

use vstd::prelude::*;
use crate::binding::KeyBinding;
use crate::text::{decimal, push_decimal};
use crate::key::{
    ALT, CONTROL, HYPER, KeyBindingPart, KeyCode, KeyModifiers, META, MediaKeyCode, ModifierKeyCode,
    SHIFT, SUPER,
};

verus! {

/// Whether `c` has the Unicode `Uppercase` property.
pub uninterp spec fn is_upper(c: char) -> bool;

/// Relies on `char::is_uppercase`, which reports whether the character has
/// the Unicode `Uppercase` property.
pub assume_specification[ char::is_uppercase ](c: char) -> (r: bool)
    ensures
        r == is_upper(c),
;

/// Relies on `String::push`, which appends the character to the end of the
/// string.
pub assume_specification[ String::push ](s: &mut String, ch: char)
    ensures
        final(s)@ == old(s)@.push(ch),
;

/// The name of a media key.
pub open spec fn media_name(m: MediaKeyCode) -> &'static str {
    match m {
        MediaKeyCode::Play => "Play",
        MediaKeyCode::Pause => "Pause",
        MediaKeyCode::PlayPause => "PlayPause",
        MediaKeyCode::Reverse => "Reverse",
        MediaKeyCode::Stop => "Stop",
        MediaKeyCode::FastForward => "FastForward",
        MediaKeyCode::Rewind => "Rewind",
        MediaKeyCode::TrackNext => "TrackNext",
        MediaKeyCode::TrackPrevious => "TrackPrevious",
        MediaKeyCode::Record => "Record",
        MediaKeyCode::LowerVolume => "LowerVolume",
        MediaKeyCode::RaiseVolume => "RaiseVolume",
        MediaKeyCode::MuteVolume => "MuteVolume",
    }
}

/// The name of a modifier key.
pub open spec fn modifier_name(m: ModifierKeyCode) -> &'static str {
    match m {
        ModifierKeyCode::LeftShift => "LeftShift",
        ModifierKeyCode::LeftControl => "LeftControl",
        ModifierKeyCode::LeftAlt => "LeftAlt",
        ModifierKeyCode::LeftSuper => "LeftSuper",
        ModifierKeyCode::LeftHyper => "LeftHyper",
        ModifierKeyCode::LeftMeta => "LeftMeta",
        ModifierKeyCode::RightShift => "RightShift",
        ModifierKeyCode::RightControl => "RightControl",
        ModifierKeyCode::RightAlt => "RightAlt",
        ModifierKeyCode::RightSuper => "RightSuper",
        ModifierKeyCode::RightHyper => "RightHyper",
        ModifierKeyCode::RightMeta => "RightMeta",
        ModifierKeyCode::IsoLevel3Shift => "IsoLevel3Shift",
        ModifierKeyCode::IsoLevel5Shift => "IsoLevel5Shift",
    }
}

/// The name of a key that is neither a character, a function key, a media
/// key nor a modifier key.
pub open spec fn named_key(code: KeyCode) -> &'static str {
    match code {
        KeyCode::Backspace => "Backspace",
        KeyCode::Enter => "Enter",
        KeyCode::Left => "Left",
        KeyCode::Right => "Right",
        KeyCode::Up => "Up",
        KeyCode::Down => "Down",
        KeyCode::Home => "Home",
        KeyCode::End => "End",
        KeyCode::PageUp => "PageUp",
        KeyCode::PageDown => "PageDown",
        KeyCode::Tab => "Tab",
        KeyCode::BackTab => "BackTab",
        KeyCode::Delete => "Delete",
        KeyCode::Insert => "Insert",
        KeyCode::Null => "Null",
        KeyCode::Esc => "Esc",
        KeyCode::CapsLock => "CapsLock",
        KeyCode::ScrollLock => "ScrollLock",
        KeyCode::NumLock => "NumLock",
        KeyCode::PrintScreen => "PrintScreen",
        KeyCode::Pause => "Pause",
        KeyCode::Menu => "Menu",
        KeyCode::KeypadBegin => "KeypadBegin",
        _ => "",
    }
}

/// The text of a key identity: `F<n>`, the character itself, `Media<name>`,
/// `Modifier<name>`, or the key's name.
pub open spec fn code_text(code: KeyCode) -> Seq<char> {
    match code {
        KeyCode::F(n) => seq!['F'] + decimal(n as nat),
        KeyCode::Char(c) => seq![c],
        KeyCode::Media(m) => "Media"@ + media_name(m)@,
        KeyCode::Modifier(m) => "Modifier"@ + modifier_name(m)@,
        _ => named_key(code)@,
    }
}

/// `letter` when the modifiers hold `flag`, else nothing.
pub open spec fn letter_if(m: KeyModifiers, flag: u8, letter: char) -> Seq<char> {
    if m.has(flag) {
        seq![letter]
    } else {
        Seq::empty()
    }
}

/// The letters of the modifiers held, in the fixed order Alt, Control,
/// Hyper, Meta, Shift, Super; Shift left out when `skip_shift` holds.
pub open spec fn modifier_letters(m: KeyModifiers, skip_shift: bool) -> Seq<char> {
    letter_if(m, ALT, 'A') + letter_if(m, CONTROL, 'C') + letter_if(m, HYPER, 'H') + letter_if(
        m,
        META,
        'M',
    ) + (if skip_shift {
        Seq::empty()
    } else {
        letter_if(m, SHIFT, 'S')
    }) + letter_if(m, SUPER, 'W')
}

/// The text of a key press. A character typed alone or with Shift alone is
/// itself (Shift is taken to be in the character already). Otherwise the key
/// goes in angle brackets, after the modifier letters and a dash when any
/// modifier is held; for a character, Shift is not written.
pub open spec fn rendered(p: KeyBindingPart) -> Seq<char> {
    let is_char = p.code is Char;
    let letters = modifier_letters(p.modifiers, is_char);
    if is_char && (p.modifiers.bits == 0 || p.modifiers.bits == SHIFT) {
        code_text(p.code)
    } else if letters.len() == 0 {
        seq!['<'] + code_text(p.code) + seq!['>']
    } else {
        seq!['<'] + letters + seq!['-'] + code_text(p.code) + seq!['>']
    }
}

/// A character typed with Shift and other modifiers is an uppercase one, as
/// the text of a key press takes for granted when it leaves Shift out.
pub open spec fn shift_consistent(p: KeyBindingPart) -> bool {
    p.code matches KeyCode::Char(c) ==> (p.modifiers.has(SHIFT) && p.modifiers.bits != SHIFT
        ==> is_upper(c))
}

/// The text of a chord: the texts of its key presses, one after the other.
pub open spec fn rendered_chord(keys: Seq<KeyBindingPart>) -> Seq<char>
    decreases keys.len(),
{
    if keys.len() == 0 {
        Seq::empty()
    } else {
        rendered_chord(keys.drop_last()) + rendered(keys.last())
    }
}

fn media_str(m: MediaKeyCode) -> (r: &'static str)
    ensures
        r == media_name(m),
{
    match m {
        MediaKeyCode::Play => "Play",
        MediaKeyCode::Pause => "Pause",
        MediaKeyCode::PlayPause => "PlayPause",
        MediaKeyCode::Reverse => "Reverse",
        MediaKeyCode::Stop => "Stop",
        MediaKeyCode::FastForward => "FastForward",
        MediaKeyCode::Rewind => "Rewind",
        MediaKeyCode::TrackNext => "TrackNext",
        MediaKeyCode::TrackPrevious => "TrackPrevious",
        MediaKeyCode::Record => "Record",
        MediaKeyCode::LowerVolume => "LowerVolume",
        MediaKeyCode::RaiseVolume => "RaiseVolume",
        MediaKeyCode::MuteVolume => "MuteVolume",
    }
}

fn modifier_str(m: ModifierKeyCode) -> (r: &'static str)
    ensures
        r == modifier_name(m),
{
    match m {
        ModifierKeyCode::LeftShift => "LeftShift",
        ModifierKeyCode::LeftControl => "LeftControl",
        ModifierKeyCode::LeftAlt => "LeftAlt",
        ModifierKeyCode::LeftSuper => "LeftSuper",
        ModifierKeyCode::LeftHyper => "LeftHyper",
        ModifierKeyCode::LeftMeta => "LeftMeta",
        ModifierKeyCode::RightShift => "RightShift",
        ModifierKeyCode::RightControl => "RightControl",
        ModifierKeyCode::RightAlt => "RightAlt",
        ModifierKeyCode::RightSuper => "RightSuper",
        ModifierKeyCode::RightHyper => "RightHyper",
        ModifierKeyCode::RightMeta => "RightMeta",
        ModifierKeyCode::IsoLevel3Shift => "IsoLevel3Shift",
        ModifierKeyCode::IsoLevel5Shift => "IsoLevel5Shift",
    }
}

fn named_str(code: KeyCode) -> (r: &'static str)
    ensures
        r == named_key(code),
{
    match code {
        KeyCode::Backspace => "Backspace",
        KeyCode::Enter => "Enter",
        KeyCode::Left => "Left",
        KeyCode::Right => "Right",
        KeyCode::Up => "Up",
        KeyCode::Down => "Down",
        KeyCode::Home => "Home",
        KeyCode::End => "End",
        KeyCode::PageUp => "PageUp",
        KeyCode::PageDown => "PageDown",
        KeyCode::Tab => "Tab",
        KeyCode::BackTab => "BackTab",
        KeyCode::Delete => "Delete",
        KeyCode::Insert => "Insert",
        KeyCode::Null => "Null",
        KeyCode::Esc => "Esc",
        KeyCode::CapsLock => "CapsLock",
        KeyCode::ScrollLock => "ScrollLock",
        KeyCode::NumLock => "NumLock",
        KeyCode::PrintScreen => "PrintScreen",
        KeyCode::Pause => "Pause",
        KeyCode::Menu => "Menu",
        KeyCode::KeypadBegin => "KeypadBegin",
        _ => "",
    }
}

fn push_code(out: &mut String, code: KeyCode)
    ensures
        final(out)@ == old(out)@ + code_text(code),
{
    match code {
        KeyCode::F(n) => {
            out.push('F');
            push_decimal(out, n as u32);
        },
        KeyCode::Char(c) => out.push(c),
        KeyCode::Media(m) => {
            out.append("Media");
            out.append(media_str(m));
        },
        KeyCode::Modifier(m) => {
            out.append("Modifier");
            out.append(modifier_str(m));
        },
        _ => out.append(named_str(code)),
    }
    assert(out@ =~= old(out)@ + code_text(code));
}

fn push_letter_if(out: &mut String, m: KeyModifiers, flag: u8, letter: char)
    ensures
        final(out)@ == old(out)@ + letter_if(m, flag, letter),
{
    if m.contains(flag) {
        out.push(letter);
    }
    assert(out@ =~= old(out)@ + letter_if(m, flag, letter));
}

fn push_modifier_letters(out: &mut String, m: KeyModifiers, skip_shift: bool)
    ensures
        final(out)@ == old(out)@ + modifier_letters(m, skip_shift),
{
    push_letter_if(out, m, ALT, 'A');
    push_letter_if(out, m, CONTROL, 'C');
    push_letter_if(out, m, HYPER, 'H');
    push_letter_if(out, m, META, 'M');
    if !skip_shift {
        push_letter_if(out, m, SHIFT, 'S');
    }
    push_letter_if(out, m, SUPER, 'W');
    assert(out@ =~= old(out)@ + modifier_letters(m, skip_shift));
}

impl KeyBindingPart {
    /// The text of this key press (see [`rendered`]).
    pub fn render(&self) -> (r: String)
        requires
            shift_consistent(*self),
        ensures
            r@ == rendered(*self),
    {
        let mut out = String::new();
        let is_char = matches!(self.code, KeyCode::Char(_));
        if is_char && (self.modifiers.bits == 0 || self.modifiers.bits == SHIFT) {
            push_code(&mut out, self.code);
            assert(out@ =~= rendered(*self));
            return out;
        }
        let mut letters = String::new();
        push_modifier_letters(&mut letters, self.modifiers, is_char);
        assert(letters@ =~= modifier_letters(self.modifiers, is_char));
        out.push('<');
        if letters.as_str().unicode_len() > 0 {
            out.append(letters.as_str());
            out.push('-');
        }
        push_code(&mut out, self.code);
        out.push('>');
        assert(out@ =~= rendered(*self));
        out
    }

    /// Whether the text of this key press keeps all it says: false for a
    /// character that is not uppercase, typed with Shift and other modifiers.
    pub fn is_renderable(&self) -> (r: bool)
        ensures
            r == shift_consistent(*self),
    {
        if let KeyCode::Char(c) = self.code {
            if self.modifiers.contains(SHIFT) && self.modifiers.bits != SHIFT {
                return c.is_uppercase();
            }
        }
        true
    }

    /// The text of this key press, or `None` when it is a lowercase
    /// character typed with Shift and other modifiers, whose text would
    /// lose the Shift.
    pub fn try_render(&self) -> (r: Option<String>)
        ensures
            (r is Some) == shift_consistent(*self),
            r is Some ==> r->0@ == rendered(*self),
    {
        if self.is_renderable() {
            Some(self.render())
        } else {
            None
        }
    }
}

impl KeyBinding {
    /// The text of the chord: the texts of its key presses, with no separator.
    pub fn render(&self) -> (r: String)
        requires
            forall|k: int| 0 <= k < self@.keys.len() ==> shift_consistent(#[trigger] self@.keys[k]),
        ensures
            r@ == rendered_chord(self@.keys),
    {
        let keys = self.keys();
        let mut out = String::new();
        let mut i: usize = 0;
        while i < keys.len()
            invariant
                keys@ == self@.keys,
                forall|k: int| 0 <= k < keys@.len() ==> shift_consistent(#[trigger] keys@[k]),
                i <= keys@.len(),
                out@ == rendered_chord(keys@.take(i as int)),
            decreases keys@.len() - i,
        {
            let part = keys[i].render();
            out.append(part.as_str());
            i += 1;
            assert(keys@.take(i as int).drop_last() =~= keys@.take(i - 1));
        }
        assert(keys@.take(keys@.len() as int) =~= keys@);
        out
    }

    /// The text of the chord, or `None` when one of its key presses has none
    /// (see [`KeyBindingPart::try_render`]).
    pub fn try_render(&self) -> (r: Option<String>)
        ensures
            (r is Some) == (forall|k: int| 0 <= k < self@.keys.len() ==> shift_consistent(#[trigger] self@.keys[k])),
            r is Some ==> r->0@ == rendered_chord(self@.keys),
    {
        let keys = self.keys();
        let mut i: usize = 0;
        while i < keys.len()
            invariant
                keys@ == self@.keys,
                i <= keys@.len(),
                forall|k: int| 0 <= k < i ==> shift_consistent(#[trigger] keys@[k]),
            decreases keys@.len() - i,
        {
            if !keys[i].is_renderable() {
                return None;
            }
            i += 1;
        }
        Some(self.render())
    }
}

} // verus!
