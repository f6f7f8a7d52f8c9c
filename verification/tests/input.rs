use ox_core::game::Action;
use ox_core::input::{synthetic_key, InputState, Key, KeyInput, MouseButton, NamedKey};
use ox_core::menu::{key_scroll_rows, key_starts_game, Overlay};

fn grabbed() -> InputState {
    let mut s = InputState::new();
    s.grabbed = true;
    s
}

fn press(s: &mut InputState, name: &str) {
    let ev = synthetic_key(name, true).expect("mapped key");
    s.key(&ev);
}

#[test]
fn enter_and_space_start_the_game_from_the_screens_offering_play() {
    for overlay in [Overlay::Title, Overlay::Pause] {
        assert!(key_starts_game(&Key::Named(NamedKey::Enter), overlay));
        assert!(key_starts_game(&Key::Named(NamedKey::Space), overlay));
    }
}

#[test]
fn enter_does_not_start_the_game_from_the_controls_screen() {
    assert!(!key_starts_game(&Key::Named(NamedKey::Enter), Overlay::Controls));
}

#[test]
fn the_arrow_keys_scroll_the_open_list() {
    assert_eq!(key_scroll_rows(&Key::Named(NamedKey::ArrowUp)), Some(-1));
    assert_eq!(key_scroll_rows(&Key::Named(NamedKey::ArrowDown)), Some(1));
    assert_eq!(key_scroll_rows(&Key::Named(NamedKey::Enter)), None);
    assert_eq!(key_scroll_rows(&Key::Character('w')), None);
}

#[test]
fn other_keys_never_start_the_game() {
    assert!(!key_starts_game(&Key::Named(NamedKey::Escape), Overlay::Title));
    assert!(!key_starts_game(&Key::Character('w'), Overlay::Title));
}

#[test]
fn releasing_the_button_off_view_drops_a_held_attack() {
    let mut s = grabbed();
    s.mouse(MouseButton::Left, true);
    assert!(s.input.attack);
    s.grabbed = false;
    s.mouse(MouseButton::Left, false);
    assert!(!s.input.attack);
}

#[test]
fn left_button_holds_attack_only_while_grabbed() {
    let mut s = InputState::new();
    s.mouse(MouseButton::Left, true);
    assert!(!s.input.attack);
    s.grabbed = true;
    s.mouse(MouseButton::Left, true);
    assert!(s.input.attack);
    s.mouse(MouseButton::Left, false);
    assert!(!s.input.attack);
}

#[test]
fn clicks_while_ungrabbed_queue_no_actions() {
    let mut s = InputState::new();
    s.mouse(MouseButton::Left, true);
    s.mouse(MouseButton::Right, true);
    s.mouse(MouseButton::Middle, true);
    assert!(s.actions.is_empty());
}

#[test]
fn right_and_middle_presses_queue_place_and_pick() {
    let mut s = grabbed();
    s.mouse(MouseButton::Right, true);
    s.mouse(MouseButton::Middle, true);
    s.mouse(MouseButton::Right, false);
    s.mouse(MouseButton::Other, true);
    assert_eq!(s.actions, vec![Action::Place, Action::Pick]);
}

#[test]
fn keys_are_ignored_while_ungrabbed() {
    let mut s = InputState::new();
    press(&mut s, "W");
    press(&mut s, "3");
    assert!(!s.input.forward);
    assert!(s.actions.is_empty());
}

#[test]
fn digits_select_slots_and_zero_selects_nothing() {
    let mut s = grabbed();
    press(&mut s, "3");
    press(&mut s, "0");
    press(&mut s, "9");
    assert_eq!(s.actions, vec![Action::Select(2), Action::Select(8)]);
}

#[test]
fn movement_keys_follow_press_and_release() {
    let mut s = grabbed();
    press(&mut s, "W");
    press(&mut s, "A");
    press(&mut s, "Space");
    press(&mut s, "Shift");
    assert!(s.input.forward && s.input.left && s.input.jump && s.input.sprint && s.input.down);
    s.key(&synthetic_key("W", false).unwrap());
    s.key(&synthetic_key("Shift", false).unwrap());
    assert!(!s.input.forward && !s.input.sprint && !s.input.down);
    assert!(s.input.left);
}

#[test]
fn letters_match_either_case_and_f_toggles_flight_on_press_only() {
    let mut s = grabbed();
    s.key(&KeyInput { key: Key::Character('S'), pressed: true });
    s.key(&KeyInput { key: Key::Character('d'), pressed: true });
    s.key(&KeyInput { key: Key::Character('F'), pressed: true });
    s.key(&KeyInput { key: Key::Character('f'), pressed: false });
    assert!(s.input.back && s.input.right);
    assert_eq!(s.actions, vec![Action::ToggleFly]);
}

#[test]
fn synthetic_keys_map_driver_names() {
    assert_eq!(synthetic_key("W", true), Some(KeyInput { key: Key::Character('w'), pressed: true }));
    assert_eq!(synthetic_key("Escape", false), Some(KeyInput { key: Key::Named(NamedKey::Escape), pressed: false }));
    assert_eq!(synthetic_key("7", true), Some(KeyInput { key: Key::Character('7'), pressed: true }));
    assert_eq!(synthetic_key("w", true), None);
    assert_eq!(synthetic_key("Spac", true), None);
    assert_eq!(synthetic_key("12", true), None);
}
