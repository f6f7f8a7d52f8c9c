use ox_core::input::{InputState, Key, KeyInput, MouseButton, NamedKey};
use ox_core::menu::{MenuButton, Overlay};
use ox_core::shell::{on_focus_lost, on_key, on_mouse, ShellAction};

fn press(key: Key) -> KeyInput {
    KeyInput { key, pressed: true }
}

#[test]
fn escape_always_escapes() {
    let esc = press(Key::Named(NamedKey::Escape));
    assert_eq!(on_key(true, None, esc), ShellAction::Escape);
    assert_eq!(on_key(false, Some(Overlay::Controls), esc), ShellAction::Escape);
    let release = KeyInput { key: Key::Named(NamedKey::Escape), pressed: false };
    assert_eq!(on_key(true, None, release), ShellAction::ForwardKey(release));
}

#[test]
fn keys_reach_the_game_only_in_the_world() {
    let w = press(Key::Character('w'));
    assert_eq!(on_key(true, None, w), ShellAction::ForwardKey(w));
    assert_eq!(on_key(false, Some(Overlay::Pause), w), ShellAction::Nothing);
}

#[test]
fn menus_scroll_with_the_arrows_and_start_with_enter_or_space() {
    let title = Some(Overlay::Title);
    assert_eq!(on_key(false, title, press(Key::Named(NamedKey::ArrowUp))), ShellAction::ScrollRows(-1));
    assert_eq!(on_key(false, title, press(Key::Named(NamedKey::ArrowDown))), ShellAction::ScrollRows(1));
    assert_eq!(on_key(false, title, press(Key::Named(NamedKey::Enter))), ShellAction::EnterWorld);
    assert_eq!(on_key(false, Some(Overlay::Pause), press(Key::Named(NamedKey::Space))), ShellAction::EnterWorld);
    assert_eq!(on_key(false, Some(Overlay::Controls), press(Key::Named(NamedKey::Enter))), ShellAction::Nothing);
    let release = KeyInput { key: Key::Named(NamedKey::Enter), pressed: false };
    assert_eq!(on_key(false, title, release), ShellAction::Nothing);
}

#[test]
fn menu_clicks_act_on_the_button_under_the_cursor() {
    let click = |hit| on_mouse(false, hit, None, MouseButton::Left, true);
    assert_eq!(click(Some(MenuButton::Play)), ShellAction::EnterWorld);
    assert_eq!(click(Some(MenuButton::Controls)), ShellAction::OpenControls);
    assert_eq!(click(Some(MenuButton::Back)), ShellAction::Escape);
    assert_eq!(click(None), ShellAction::Nothing);
}

#[test]
fn the_click_that_entered_the_world_keeps_its_double_out() {
    assert_eq!(on_mouse(true, None, Some(100), MouseButton::Left, true), ShellAction::Nothing);
    assert_eq!(
        on_mouse(true, None, Some(300), MouseButton::Left, true),
        ShellAction::ForwardMouse(MouseButton::Left, true)
    );
    assert_eq!(
        on_mouse(true, None, None, MouseButton::Right, false),
        ShellAction::ForwardMouse(MouseButton::Right, false)
    );
}

#[test]
fn losing_focus_pauses_only_the_world() {
    assert_eq!(on_focus_lost(true), ShellAction::Escape);
    assert_eq!(on_focus_lost(false), ShellAction::Nothing);
}

#[test]
fn a_menu_never_inherits_held_keys() {
    let mut s = InputState::new();
    s.sync_grab(true);
    s.key(&press(Key::Character('w')));
    s.mouse(MouseButton::Left, true);
    assert!(s.input.forward && s.input.attack);
    s.sync_grab(false);
    assert!(!s.grabbed);
    assert!(!s.input.forward && !s.input.attack);
}
