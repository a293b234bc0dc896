use keynav::binding::{Action, ConfigError, KeyBinding, check_prefix_free};
use keynav::defaults::{keybindings, make_key_sm};
use keynav::key::{CONTROL, KeyBindingPart, KeyCode, KeyModifiers, SHIFT};
use keynav::machine::KeyStateMachine;

fn ch(c: char) -> KeyBindingPart {
    KeyBindingPart::new_char(c)
}

fn down_top() -> KeyStateMachine {
    let bindings = vec![
        KeyBinding::new_from_chars("j", true, Action::SelectionDown).unwrap(),
        KeyBinding::new_from_chars("gg", false, Action::SelectionTop).unwrap(),
    ];
    KeyStateMachine::build(bindings).unwrap()
}

fn feed(m: &mut KeyStateMachine, keys: &str) -> Vec<Option<Action>> {
    keys.chars().map(|c| m.register_event(ch(c)).map(|b| b.action())).collect()
}

#[test]
fn count_parsing_ten() {
    let mut m = down_top();
    assert_eq!(feed(&mut m, "10j"), vec![None, None, Some(Action::SelectionDown)]);
    assert_eq!(m.count(), 10);
}

#[test]
fn count_digits_are_recorded() {
    let mut m = down_top();
    feed(&mut m, "12");
    assert_eq!(m.current_keys(), &vec![ch('1'), ch('2')]);
    assert_eq!(m.count(), 12);
}

#[test]
fn leading_zero_leaves_count_unset() {
    let mut m = down_top();
    assert_eq!(m.register_event(ch('0')).map(|b| b.action()), None);
    assert_eq!(m.count(), 0);
    assert_eq!(feed(&mut m, "gg"), vec![None, Some(Action::SelectionTop)]);
    assert_eq!(m.count(), 0);
}

#[test]
fn zero_after_digit_counts() {
    let mut m = down_top();
    feed(&mut m, "20");
    assert_eq!(m.count(), 20);
}

#[test]
fn count_excludes_non_repeatable() {
    let mut m = down_top();
    assert_eq!(feed(&mut m, "2g"), vec![None, None]);
    assert_eq!(m.count(), 0);
    assert!(m.current_keys().is_empty());
    assert_eq!(feed(&mut m, "2j"), vec![None, Some(Action::SelectionDown)]);
    assert_eq!(m.count(), 2);
}

#[test]
fn count_of_one_keeps_non_repeatable() {
    let mut m = down_top();
    assert_eq!(feed(&mut m, "1gg"), vec![None, None, Some(Action::SelectionTop)]);
    assert_eq!(m.count(), 1);
}

#[test]
fn overflow_clamp_stops_growth() {
    let mut m = down_top();
    feed(&mut m, "429000000");
    assert_eq!(m.count(), 429_000_000);
    feed(&mut m, "1");
    assert_eq!(m.count(), 4_290_000_001);
    feed(&mut m, "999999");
    assert_eq!(m.count(), 4_290_000_001);
    assert_eq!(feed(&mut m, "j"), vec![Some(Action::SelectionDown)]);
    assert_eq!(m.count(), 4_290_000_001);
}

#[test]
fn overflow_many_nines_stays_below_ceiling() {
    let mut m = down_top();
    feed(&mut m, "99999999999999999999");
    assert_eq!(m.count(), 999_999_999);
    assert!(m.count() <= 4_290_000_009);
}

#[test]
fn end_to_end_scenario() {
    let mut m = down_top();
    assert_eq!(feed(&mut m, "g"), vec![None]);
    assert_eq!(feed(&mut m, "x"), vec![None]);
    assert!(m.current_keys().is_empty());
    assert_eq!(m.count(), 0);
    assert_eq!(feed(&mut m, "gg"), vec![None, Some(Action::SelectionTop)]);
    assert_eq!(m.count(), 0);
}

#[test]
fn unknown_key_resets_and_recovers() {
    let mut m = down_top();
    feed(&mut m, "3g");
    assert_eq!(feed(&mut m, "q"), vec![None]);
    assert_eq!(m.count(), 0);
    assert!(m.current_keys().is_empty());
    assert_eq!(feed(&mut m, "j"), vec![Some(Action::SelectionDown)]);
    assert_eq!(m.count(), 0);
}

#[test]
fn completed_chord_resets_on_next_key() {
    let mut m = down_top();
    feed(&mut m, "5j");
    assert_eq!(m.count(), 5);
    assert_eq!(feed(&mut m, "j"), vec![Some(Action::SelectionDown)]);
    assert_eq!(m.count(), 0);
}

#[test]
fn explicit_reset() {
    let mut m = down_top();
    feed(&mut m, "7g");
    m.reset();
    assert_eq!(m.count(), 0);
    assert!(m.current_keys().is_empty());
    assert_eq!(feed(&mut m, "gg"), vec![None, Some(Action::SelectionTop)]);
}

#[test]
fn modified_digit_is_a_chord_key() {
    let mut m = KeyStateMachine::new(vec![
        KeyBinding::new(vec![KeyBindingPart::new(KeyCode::Char('x'), KeyModifiers::from_bits(CONTROL))], false, Action::Nothing).unwrap(),
    ]);
    let ctrl_one = KeyBindingPart::new(KeyCode::Char('1'), KeyModifiers::from_bits(CONTROL));
    assert!(m.register_event(ctrl_one).is_none());
    assert_eq!(m.count(), 0);
}

#[test]
fn every_default_chord_completes() {
    let bindings = keybindings();
    assert_eq!(bindings.len(), 18);
    for b in bindings.iter() {
        let mut m = KeyStateMachine::build(keybindings()).unwrap();
        let keys = b.keys().clone();
        for (i, k) in keys.iter().enumerate() {
            let r = m.register_event(*k);
            if i + 1 < keys.len() {
                assert!(r.is_none());
            } else {
                let found = r.expect("chord completes");
                assert_eq!(found.keys(), b.keys());
                assert_eq!(found.action(), b.action());
                assert_eq!(found.repeatable(), b.repeatable());
            }
        }
    }
}

#[test]
fn default_shift_g_goes_to_bottom() {
    let mut m = KeyStateMachine::build(keybindings()).unwrap();
    let g = KeyBindingPart::new(KeyCode::Char('G'), KeyModifiers::from_bits(SHIFT));
    assert_eq!(m.register_event(g).map(|b| b.action()), Some(Action::SelectionBottom));
}

#[test]
fn default_count_before_sort_is_dropped() {
    let mut m = KeyStateMachine::build(keybindings()).unwrap();
    assert_eq!(feed(&mut m, "3sn"), vec![None, None, None]);
    assert_eq!(m.count(), 0);
}

#[test]
fn lowest_index_wins_a_tie() {
    let mut m = KeyStateMachine::new(vec![
        KeyBinding::new_from_chars("j", true, Action::SelectionDown).unwrap(),
        KeyBinding::new_from_chars("j", true, Action::SelectionUp).unwrap(),
    ]);
    assert_eq!(feed(&mut m, "j"), vec![Some(Action::SelectionDown)]);
}

#[test]
fn empty_chord_refused() {
    assert_eq!(KeyBinding::new(vec![], true, Action::Nothing).err(), Some(ConfigError::EmptyChord));
    assert_eq!(KeyBinding::new_from_chars("", true, Action::Nothing).err(), Some(ConfigError::EmptyChord));
}

#[test]
fn leading_digit_refused() {
    assert_eq!(KeyBinding::new_from_chars("1x", true, Action::Nothing).err(), Some(ConfigError::LeadingDigit));
    let ctrl_two = KeyBindingPart::new(KeyCode::Char('2'), KeyModifiers::from_bits(CONTROL));
    assert_eq!(KeyBinding::new(vec![ctrl_two], true, Action::Nothing).err(), Some(ConfigError::LeadingDigit));
    assert!(KeyBinding::new_from_chars("x1", true, Action::Nothing).is_ok());
}

#[test]
fn chars_constructor_spells_chord() {
    let b = KeyBinding::new_from_chars("dd", true, Action::Nothing).unwrap();
    assert_eq!(b.keys(), &vec![ch('d'), ch('d')]);
    assert!(b.repeatable());
}

#[test]
fn prefix_overlap_refused() {
    let bindings = vec![
        KeyBinding::new_from_chars("j", true, Action::SelectionDown).unwrap(),
        KeyBinding::new_from_chars("gg", false, Action::SelectionTop).unwrap(),
        KeyBinding::new_from_chars("g", false, Action::Nothing).unwrap(),
    ];
    assert_eq!(check_prefix_free(&bindings), Err(ConfigError::PrefixOverlap { shorter: 2, longer: 1 }));
    assert_eq!(KeyStateMachine::build(bindings).err(), Some(ConfigError::PrefixOverlap { shorter: 2, longer: 1 }));
}

#[test]
fn equal_chords_are_not_prefixes() {
    let bindings = vec![
        KeyBinding::new_from_chars("gg", true, Action::SelectionDown).unwrap(),
        KeyBinding::new_from_chars("gg", true, Action::SelectionUp).unwrap(),
    ];
    assert_eq!(check_prefix_free(&bindings), Ok(()));
}

#[test]
fn default_table_is_prefix_free() {
    assert_eq!(check_prefix_free(&keybindings()), Ok(()));
}

#[test]
fn default_reserved_keys_do_nothing() {
    let reserved = vec![
        KeyBindingPart::new(KeyCode::Enter, KeyModifiers::none()),
        KeyBindingPart::new(KeyCode::Backspace, KeyModifiers::none()),
        KeyBindingPart::new(KeyCode::Char('t'), KeyModifiers::from_bits(CONTROL | keynav::key::ALT)),
        KeyBindingPart::new(KeyCode::Char('n'), KeyModifiers::from_bits(CONTROL)),
        KeyBindingPart::new(KeyCode::Tab, KeyModifiers::none()),
    ];
    for p in reserved {
        let mut m = KeyStateMachine::build(keybindings()).unwrap();
        assert_eq!(m.register_event(p).map(|b| b.action()), Some(Action::Nothing));
    }
}

#[test]
fn starter_matcher_has_four_bindings() {
    let m = make_key_sm();
    let got: Vec<(Action, bool, usize)> =
        m.key_bindings().iter().map(|b| (b.action(), b.repeatable(), b.keys().len())).collect();
    assert_eq!(
        got,
        vec![
            (Action::SelectionDown, true, 1),
            (Action::SelectionUp, true, 1),
            (Action::SelectionTop, false, 2),
            (Action::OpenSelected, false, 1),
        ]
    );
    let mut m = make_key_sm();
    assert_eq!(feed(&mut m, "2g"), vec![None, None]);
    assert_eq!(m.count(), 0);
    assert_eq!(feed(&mut m, "l"), vec![Some(Action::OpenSelected)]);
}
