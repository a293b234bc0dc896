//! Bindings: a chord of key presses, whether it takes a repeat count, and the
//! command it stands for.

use vstd::prelude::*;
use crate::key::{KeyBindingPart, KeyCode, KeyModifiers, is_decimal_digit};

verus! {

/// The commands that a binding can stand for. The caller carries each one
/// out against its own state, with the repeat count that came with it.
#[derive(PartialEq, Eq, Structural, Clone, Copy, Debug)]
pub enum Action {
    OpenSelected,
    SelectionDown,
    SelectionUp,
    SelectionTop,
    SelectionBottom,
    OpenRelDateFwd,
    OpenRelDateBwd,
    SortByName,
    SortByCtime,
    SortByMtime,
    SortBySize,
    SortByNatural,
    ReverseSort,
    /// Claims a key without doing anything, so that it is consumed rather
    /// than taken for the start of another chord.
    Nothing,
}

/// Why a binding or a set of bindings was refused.
#[derive(PartialEq, Eq, Structural, Clone, Copy, Debug)]
pub enum ConfigError {
    /// The chord has no key.
    EmptyChord,
    /// The chord starts with a decimal digit, which is reserved for counts.
    LeadingDigit,
    /// The chord of binding `shorter` is a strict prefix of that of `longer`.
    PrefixOverlap { shorter: usize, longer: usize },
}

/// The mathematical content of a binding.
pub struct ChordSpec {
    pub keys: Seq<KeyBindingPart>,
    pub repeatable: bool,
    pub action: Action,
}

/// Whether a chord starts with a decimal digit character.
pub open spec fn starts_with_digit(keys: Seq<KeyBindingPart>) -> bool {
    keys.len() > 0 && (keys[0].code matches KeyCode::Char(c) && is_decimal_digit(c))
}

/// A chord that a binding may have: non-empty, and not starting with a digit.
pub open spec fn chord_well_formed(keys: Seq<KeyBindingPart>) -> bool {
    keys.len() > 0 && !starts_with_digit(keys)
}

/// Whether `a` is a strict prefix of `b`.
pub open spec fn is_strict_prefix(a: Seq<KeyBindingPart>, b: Seq<KeyBindingPart>) -> bool {
    a.len() < b.len() && forall|k: int| 0 <= k < a.len() ==> a[k] == b[k]
}

/// No chord of `bs` is a strict prefix of another one.
pub open spec fn prefix_free(bs: Seq<ChordSpec>) -> bool {
    forall|i: int, j: int|
        0 <= i < bs.len() && 0 <= j < bs.len() ==> !is_strict_prefix(
            #[trigger] bs[i].keys,
            #[trigger] bs[j].keys,
        )
}

/// The character `c` typed without modifiers.
pub open spec fn plain_char(c: char) -> KeyBindingPart {
    KeyBindingPart { code: KeyCode::Char(c), modifiers: KeyModifiers { bits: 0 } }
}

/// The chord that a string spells: one key press per character, no modifiers.
pub open spec fn chord_of_chars(s: Seq<char>) -> Seq<KeyBindingPart> {
    Seq::new(s.len(), |i: int| plain_char(s[i]))
}

/// A chord of key presses, whether it takes a repeat count, and its command.
pub struct KeyBinding {
    keys: Vec<KeyBindingPart>,
    repeatable: bool,
    action: Action,
}

impl View for KeyBinding {
    type V = ChordSpec;

    closed spec fn view(&self) -> ChordSpec {
        ChordSpec { keys: self.keys@, repeatable: self.repeatable, action: self.action }
    }
}

/// The contents of a list of bindings.
pub open spec fn views(bs: Seq<KeyBinding>) -> Seq<ChordSpec> {
    Seq::new(bs.len(), |i: int| bs[i]@)
}

impl KeyBinding {
    /// Every binding has a well-formed chord.
    #[verifier::type_invariant]
    spec fn inv(self) -> bool {
        chord_well_formed(self.keys@)
    }

    /// A binding for the chord `keys`. Refused when the chord is empty or
    /// starts with a decimal digit.
    pub fn new(keys: Vec<KeyBindingPart>, repeatable: bool, action: Action) -> (r: Result<KeyBinding, ConfigError>)
        ensures
            (r is Ok) == chord_well_formed(keys@),
            keys@.len() == 0 ==> r == Err::<KeyBinding, ConfigError>(ConfigError::EmptyChord),
            starts_with_digit(keys@) ==> r == Err::<KeyBinding, ConfigError>(ConfigError::LeadingDigit),
            r is Ok ==> r->Ok_0@ == (ChordSpec { keys: keys@, repeatable, action }),
    {
        if keys.len() == 0 {
            return Err(ConfigError::EmptyChord);
        }
        if let KeyCode::Char(c) = keys[0].code {
            if crate::key::decimal_digit(c).is_some() {
                return Err(ConfigError::LeadingDigit);
            }
        }
        Ok(KeyBinding { keys, repeatable, action })
    }

    /// A binding for the chord that `chars` spells, one unmodified key press
    /// per character (`"gg"`, `"dd"`). Refused as [`KeyBinding::new`] is.
    pub fn new_from_chars(chars: &str, repeatable: bool, action: Action) -> (r: Result<KeyBinding, ConfigError>)
        ensures
            (r is Ok) == chord_well_formed(chord_of_chars(chars@)),
            chars@.len() == 0 ==> r == Err::<KeyBinding, ConfigError>(ConfigError::EmptyChord),
            starts_with_digit(chord_of_chars(chars@)) ==> r == Err::<KeyBinding, ConfigError>(ConfigError::LeadingDigit),
            r is Ok ==> r->Ok_0@ == (ChordSpec { keys: chord_of_chars(chars@), repeatable, action }),
    {
        let n = chars.unicode_len();
        let mut keys: Vec<KeyBindingPart> = Vec::new();
        let mut i: usize = 0;
        assert(keys@ =~= chord_of_chars(chars@.subrange(0, 0)));
        while i < n
            invariant
                n == chars@.len(),
                i <= n,
                keys@ == chord_of_chars(chars@.subrange(0, i as int)),
            decreases n - i,
        {
            let c = chars.get_char(i);
            keys.push(KeyBindingPart::new_char(c));
            i += 1;
            assert(keys@ =~= chord_of_chars(chars@.subrange(0, i as int)));
        }
        assert(chars@.subrange(0, n as int) =~= chars@);
        KeyBinding::new(keys, repeatable, action)
    }

    /// The chord.
    pub fn keys(&self) -> (r: &Vec<KeyBindingPart>)
        ensures
            r@ == self@.keys,
            chord_well_formed(r@),
    {
        proof {
            use_type_invariant(self);
        }
        &self.keys
    }

    /// Whether the binding takes a repeat count greater than one.
    pub fn repeatable(&self) -> (r: bool)
        ensures
            r == self@.repeatable,
    {
        self.repeatable
    }

    /// The command.
    pub fn action(&self) -> (r: Action)
        ensures
            r == self@.action,
    {
        self.action
    }
}

impl Clone for KeyBinding {
    fn clone(&self) -> (r: KeyBinding)
        ensures
            r@ == self@,
    {
        proof {
            use_type_invariant(self);
        }
        let mut keys: Vec<KeyBindingPart> = Vec::new();
        let mut i: usize = 0;
        while i < self.keys.len()
            invariant
                i <= self.keys@.len(),
                keys@ == self.keys@.subrange(0, i as int),
            decreases self.keys@.len() - i,
        {
            keys.push(self.keys[i]);
            i += 1;
            assert(keys@ =~= self.keys@.subrange(0, i as int));
        }
        assert(keys@ =~= self.keys@);
        KeyBinding { keys, repeatable: self.repeatable, action: self.action }
    }
}


/// Whether `bs` reports the collision `err` first: `err` names a pair whose
/// first chord is a strict prefix of the second, and no pair before it (by
/// first index, then second index) collides.
pub open spec fn first_overlap(bs: Seq<ChordSpec>, err: ConfigError) -> bool {
    match err {
        ConfigError::PrefixOverlap { shorter, longer } => {
            &&& shorter < bs.len()
            &&& longer < bs.len()
            &&& is_strict_prefix(bs[shorter as int].keys, bs[longer as int].keys)
            &&& forall|a: int, b: int|
                0 <= a < bs.len() && 0 <= b < bs.len() && (a < shorter || (a == shorter && b
                    < longer)) ==> !is_strict_prefix(#[trigger] bs[a].keys, #[trigger] bs[b].keys)
        },
        _ => false,
    }
}

/// Every chord of `bindings` is well formed, as each binding's invariant has it.
pub fn chords_well_formed(bindings: &Vec<KeyBinding>)
    ensures
        forall|i: int| 0 <= i < bindings@.len() ==> chord_well_formed(#[trigger] views(bindings@)[i].keys),
{
    let mut i: usize = 0;
    while i < bindings.len()
        invariant
            i <= bindings@.len(),
            forall|k: int| 0 <= k < i ==> chord_well_formed(#[trigger] views(bindings@)[k].keys),
        decreases bindings@.len() - i,
    {
        let b = &bindings[i];
        proof {
            use_type_invariant(b);
        }
        assert(views(bindings@)[i as int] == b@);
        i += 1;
    }
}

/// Whether chord `a` is a strict prefix of chord `b`.
pub fn strict_prefix(a: &Vec<KeyBindingPart>, b: &Vec<KeyBindingPart>) -> (r: bool)
    ensures
        r == is_strict_prefix(a@, b@),
{
    if a.len() >= b.len() {
        return false;
    }
    let mut k: usize = 0;
    while k < a.len()
        invariant
            a@.len() < b@.len(),
            k <= a@.len(),
            forall|m: int| 0 <= m < k ==> a@[m] == b@[m],
        decreases a@.len() - k,
    {
        if a[k] != b[k] {
            return false;
        }
        k += 1;
    }
    true
}

/// Checks that no chord of `bindings` is a strict prefix of another; on
/// failure names the first colliding pair.
pub fn check_prefix_free(bindings: &Vec<KeyBinding>) -> (r: Result<(), ConfigError>)
    ensures
        (r is Ok) == prefix_free(views(bindings@)),
        r is Err ==> first_overlap(views(bindings@), r->Err_0),
{
    let ghost bs = views(bindings@);
    let n = bindings.len();
    let mut i: usize = 0;
    while i < n
        invariant
            n == bs.len(),
            bs == views(bindings@),
            i <= n,
            forall|a: int, b: int|
                0 <= a < i && 0 <= b < n ==> !is_strict_prefix(#[trigger] bs[a].keys, #[trigger] bs[b].keys),
        decreases n - i,
    {
        let mut j: usize = 0;
        while j < n
            invariant
                n == bs.len(),
                bs == views(bindings@),
                i < n,
                j <= n,
                forall|a: int, b: int|
                    0 <= a < i && 0 <= b < n ==> !is_strict_prefix(#[trigger] bs[a].keys, #[trigger] bs[b].keys),
                forall|b: int| 0 <= b < j ==> !is_strict_prefix(bs[i as int].keys, #[trigger] bs[b].keys),
            decreases n - j,
        {
            assert(bs[i as int] == bindings@[i as int]@ && bs[j as int] == bindings@[j as int]@);
            if strict_prefix(bindings[i].keys(), bindings[j].keys()) {
                let err = ConfigError::PrefixOverlap { shorter: i, longer: j };
                assert forall|a: int, b: int|
                    0 <= a < bs.len() && 0 <= b < bs.len() && (a < i || (a == i && b < j)) implies !is_strict_prefix(
                        #[trigger] bs[a].keys,
                        #[trigger] bs[b].keys,
                    ) by {
                    if a == i {
                        assert(!is_strict_prefix(bs[i as int].keys, bs[b].keys));
                    }
                }
                assert(first_overlap(bs, err));
                return Err(err);
            }
            j += 1;
        }
        i += 1;
    }
    Ok(())
}

} // verus!
