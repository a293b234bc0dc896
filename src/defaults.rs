//! The bindings that the file browser starts with.

use vstd::prelude::*;
use crate::binding::{
    Action, ChordSpec, ConfigError, KeyBinding, chord_of_chars, chord_well_formed, is_strict_prefix,
    plain_char, prefix_free, views,
};
use crate::key::{ALT, CONTROL, KeyBindingPart, KeyCode, KeyModifiers, SHIFT};
use crate::machine::{KeyStateMachine, idle};

verus! {

/// Every chord of the table is one key press other than a plain `g` or `s`,
/// or two key presses starting with one of those: so none is a strict prefix
/// of another.
spec fn table_shape(c: ChordSpec) -> bool {
    &&& chord_well_formed(c.keys)
    &&& {
        ||| c.keys.len() == 1 && c.keys[0] != plain_char('g') && c.keys[0] != plain_char('s')
        ||| c.keys.len() == 2 && (c.keys[0] == plain_char('g') || c.keys[0] == plain_char('s'))
    }
}

proof fn lemma_table_prefix_free(bs: Seq<ChordSpec>)
    requires
        forall|i: int| 0 <= i < bs.len() ==> table_shape(#[trigger] bs[i]),
    ensures
        prefix_free(bs),
{
    assert forall|i: int, j: int| 0 <= i < bs.len() && 0 <= j < bs.len() implies !is_strict_prefix(
        #[trigger] bs[i].keys,
        #[trigger] bs[j].keys,
    ) by {
        assert(table_shape(bs[i]) && table_shape(bs[j]));
        if is_strict_prefix(bs[i].keys, bs[j].keys) {
            assert(bs[i].keys[0] == bs[j].keys[0]);
        }
    }
}

fn register(v: &mut Vec<KeyBinding>, b: Result<KeyBinding, ConfigError>)
    requires
        b is Ok,
        table_shape(b->Ok_0@),
        forall|i: int| 0 <= i < old(v)@.len() ==> table_shape(#[trigger] old(v)@[i]@),
    ensures
        final(v)@ == old(v)@.push(b->Ok_0),
        forall|i: int| 0 <= i < final(v)@.len() ==> table_shape(#[trigger] final(v)@[i]@),
{
    v.push(b.unwrap());
}

/// The key press `c` with the modifier bits `bits`.
fn key(c: char, bits: u8) -> (r: KeyBindingPart)
    ensures
        r == (KeyBindingPart { code: KeyCode::Char(c), modifiers: KeyModifiers { bits } }),
{
    KeyBindingPart::new(KeyCode::Char(c), KeyModifiers::from_bits(bits))
}

/// A key press with no modifiers.
fn named(code: KeyCode) -> (r: KeyBindingPart)
    ensures
        r == (KeyBindingPart { code, modifiers: KeyModifiers { bits: 0 } }),
{
    KeyBindingPart::new(code, KeyModifiers::none())
}

/// An entry for the chord that `chars` spells.
pub open spec fn spelled(chars: Seq<char>, repeatable: bool, action: Action) -> ChordSpec {
    ChordSpec { keys: chord_of_chars(chars), repeatable, action }
}

/// An entry for a chord of one key press.
pub open spec fn single(part: KeyBindingPart, repeatable: bool, action: Action) -> ChordSpec {
    ChordSpec { keys: seq![part], repeatable, action }
}

/// The key press `code` with the modifier bits `bits`.
pub open spec fn press(code: KeyCode, bits: u8) -> KeyBindingPart {
    KeyBindingPart { code, modifiers: KeyModifiers { bits } }
}

/// The default bindings, in order.
pub open spec fn default_table() -> Seq<ChordSpec> {
    seq![
        spelled("l"@, false, Action::OpenSelected),
        spelled("j"@, true, Action::SelectionDown),
        spelled("k"@, true, Action::SelectionUp),
        spelled("o"@, true, Action::OpenRelDateFwd),
        spelled("b"@, true, Action::OpenRelDateBwd),
        spelled("gg"@, true, Action::SelectionTop),
        spelled("sn"@, false, Action::SortByNatural),
        spelled("ss"@, false, Action::SortBySize),
        spelled("sc"@, false, Action::SortByCtime),
        spelled("sm"@, false, Action::SortByMtime),
        spelled("sa"@, false, Action::SortByName),
        spelled("sr"@, false, Action::ReverseSort),
        single(press(KeyCode::Char('G'), SHIFT), true, Action::SelectionBottom),
        single(press(KeyCode::Enter, 0), false, Action::Nothing),
        single(press(KeyCode::Backspace, 0), false, Action::Nothing),
        single(press(KeyCode::Char('t'), CONTROL | ALT), false, Action::Nothing),
        single(press(KeyCode::Char('n'), CONTROL), false, Action::Nothing),
        single(press(KeyCode::Tab, 0), false, Action::Nothing),
    ]
}

/// The bindings of the small starter matcher, in order.
pub open spec fn starter_table() -> Seq<ChordSpec> {
    seq![
        spelled("j"@, true, Action::SelectionDown),
        spelled("k"@, true, Action::SelectionUp),
        spelled("gg"@, false, Action::SelectionTop),
        spelled("l"@, false, Action::OpenSelected),
    ]
}

/// The default bindings (see [`default_table`]): `l` opens the selected file;
/// `j`, `k`, `gg` and Shift-`G` move the selection down, up, to the top and
/// to the bottom; `o` and `b` open the note dated a count of days ahead or
/// back; `sn`, `ss`, `sc`, `sm`, `sa` sort by natural order, size, creation
/// time, modification time and name, and `sr` reverses the order. Enter,
/// Backspace, Control-Alt-`t`, Control-`n` and Tab are each claimed by a
/// binding of their own that does nothing. None of the chords is a strict
/// prefix of another.
pub fn keybindings() -> (r: Vec<KeyBinding>)
    ensures
        views(r@) == default_table(),
        prefix_free(views(r@)),
{
    let mut v: Vec<KeyBinding> = Vec::new();
    proof {
        reveal_strlit("l");
        reveal_strlit("j");
        reveal_strlit("k");
        reveal_strlit("o");
        reveal_strlit("b");
        reveal_strlit("gg");
        reveal_strlit("sn");
        reveal_strlit("ss");
        reveal_strlit("sc");
        reveal_strlit("sm");
        reveal_strlit("sa");
        reveal_strlit("sr");
    }
    register(&mut v, KeyBinding::new_from_chars("l", false, Action::OpenSelected));
    register(&mut v, KeyBinding::new_from_chars("j", true, Action::SelectionDown));
    register(&mut v, KeyBinding::new_from_chars("k", true, Action::SelectionUp));
    register(&mut v, KeyBinding::new_from_chars("o", true, Action::OpenRelDateFwd));
    register(&mut v, KeyBinding::new_from_chars("b", true, Action::OpenRelDateBwd));
    register(&mut v, KeyBinding::new_from_chars("gg", true, Action::SelectionTop));
    register(&mut v, KeyBinding::new_from_chars("sn", false, Action::SortByNatural));
    register(&mut v, KeyBinding::new_from_chars("ss", false, Action::SortBySize));
    register(&mut v, KeyBinding::new_from_chars("sc", false, Action::SortByCtime));
    register(&mut v, KeyBinding::new_from_chars("sm", false, Action::SortByMtime));
    register(&mut v, KeyBinding::new_from_chars("sa", false, Action::SortByName));
    register(&mut v, KeyBinding::new_from_chars("sr", false, Action::ReverseSort));
    register(&mut v, KeyBinding::new(vec![key('G', SHIFT)], true, Action::SelectionBottom));
    register(&mut v, KeyBinding::new(vec![named(KeyCode::Enter)], false, Action::Nothing));
    register(&mut v, KeyBinding::new(vec![named(KeyCode::Backspace)], false, Action::Nothing));
    register(&mut v, KeyBinding::new(vec![key('t', CONTROL | ALT)], false, Action::Nothing));
    register(&mut v, KeyBinding::new(vec![key('n', CONTROL)], false, Action::Nothing));
    register(&mut v, KeyBinding::new(vec![named(KeyCode::Tab)], false, Action::Nothing));
    proof {
        let bs = views(v@);
        assert forall|i: int| 0 <= i < bs.len() implies table_shape(#[trigger] bs[i]) by {
            assert(bs[i] == v@[i]@);
        }
        lemma_table_prefix_free(bs);
        let t = default_table();
        assert(bs[12].keys =~= t[12].keys);
        assert(bs[13].keys =~= t[13].keys);
        assert(bs[14].keys =~= t[14].keys);
        assert(bs[15].keys =~= t[15].keys);
        assert(bs[16].keys =~= t[16].keys);
        assert(bs[17].keys =~= t[17].keys);
        assert(bs =~= t);
    }
    v
}

/// A matcher, in the idle state, for four bindings: `j` and `k` (taking a
/// count) move the selection down and up, `gg` selects the first file and
/// `l` opens the selected one (see [`starter_table`]).
pub fn make_key_sm() -> (r: KeyStateMachine)
    ensures
        r.bindings() == starter_table(),
        prefix_free(r.bindings()),
        r@ == idle(4),
{
    let mut v: Vec<KeyBinding> = Vec::new();
    proof {
        reveal_strlit("j");
        reveal_strlit("k");
        reveal_strlit("gg");
        reveal_strlit("l");
    }
    register(&mut v, KeyBinding::new_from_chars("j", true, Action::SelectionDown));
    register(&mut v, KeyBinding::new_from_chars("k", true, Action::SelectionUp));
    register(&mut v, KeyBinding::new_from_chars("gg", false, Action::SelectionTop));
    register(&mut v, KeyBinding::new_from_chars("l", false, Action::OpenSelected));
    proof {
        let bs = views(v@);
        assert forall|i: int| 0 <= i < bs.len() implies table_shape(#[trigger] bs[i]) by {
            assert(bs[i] == v@[i]@);
        }
        lemma_table_prefix_free(bs);
        assert(bs =~= starter_table());
    }
    KeyStateMachine::new(v)
}

} // verus!
