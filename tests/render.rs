use keynav::binding::{Action, KeyBinding};
use keynav::key::{ALT, CONTROL, KeyBindingPart, KeyCode, KeyModifiers, MediaKeyCode, ModifierKeyCode, SHIFT, SUPER};

fn part(code: KeyCode, bits: u8) -> KeyBindingPart {
    KeyBindingPart::new(code, KeyModifiers::from_bits(bits))
}

#[test]
fn render_plain_char() {
    assert_eq!(part(KeyCode::Char('a'), 0).render(), "a");
}

#[test]
fn render_shifted_char() {
    assert_eq!(part(KeyCode::Char('N'), SHIFT).render(), "N");
}

#[test]
fn render_control_f2() {
    assert_eq!(part(KeyCode::F(2), CONTROL).render(), "<C-F2>");
}

#[test]
fn render_tab() {
    assert_eq!(part(KeyCode::Tab, 0).render(), "<Tab>");
}

#[test]
fn render_function_key_numbers() {
    assert_eq!(part(KeyCode::F(12), 0).render(), "<F12>");
    assert_eq!(part(KeyCode::F(255), 0).render(), "<F255>");
    assert_eq!(part(KeyCode::F(0), 0).render(), "<F0>");
}

#[test]
fn render_modifier_order() {
    assert_eq!(part(KeyCode::Char('t'), CONTROL | ALT).render(), "<AC-t>");
    assert_eq!(part(KeyCode::Enter, SUPER | SHIFT | ALT).render(), "<ASW-Enter>");
}

#[test]
fn render_drops_shift_for_chars() {
    assert_eq!(part(KeyCode::Char('A'), CONTROL | SHIFT).render(), "<C-A>");
    assert_eq!(part(KeyCode::Up, SHIFT).render(), "<S-Up>");
}

#[test]
fn render_media_and_modifier_keys() {
    assert_eq!(part(KeyCode::Media(MediaKeyCode::PlayPause), 0).render(), "<MediaPlayPause>");
    assert_eq!(part(KeyCode::Modifier(ModifierKeyCode::LeftShift), 0).render(), "<ModifierLeftShift>");
}

#[test]
fn render_lowercase_with_shift_and_more_is_refused() {
    let p = part(KeyCode::Char('a'), CONTROL | SHIFT);
    assert!(!p.is_renderable());
    assert_eq!(p.try_render(), None);
    assert_eq!(part(KeyCode::Char('a'), CONTROL).try_render(), Some("<C-a>".to_string()));
}

#[test]
fn render_binding_concatenates() {
    let gg = KeyBinding::new_from_chars("gg", true, Action::SelectionTop).unwrap();
    assert_eq!(gg.render(), "gg");
    let mixed = KeyBinding::new(vec![part(KeyCode::Char('g'), 0), part(KeyCode::Char('x'), CONTROL), part(KeyCode::Esc, 0)], false, Action::Nothing).unwrap();
    assert_eq!(mixed.try_render(), Some("g<C-x><Esc>".to_string()));
    let bad = KeyBinding::new(vec![part(KeyCode::Char('g'), 0), part(KeyCode::Char('q'), CONTROL | SHIFT)], false, Action::Nothing).unwrap();
    assert_eq!(bad.try_render(), None);
}
