use ox_core::menu::{press_reaches_world, MenuButton, Overlay, ENTRY_GRACE_MS};

#[test]
fn the_second_press_of_a_double_click_on_play_never_reaches_the_world() {
    assert!(!press_reaches_world(Some(0)));
    assert!(!press_reaches_world(Some(ENTRY_GRACE_MS.saturating_sub(1))));
}

#[test]
fn a_press_reaches_the_world_once_the_grace_is_over() {
    assert!(press_reaches_world(Some(ENTRY_GRACE_MS)));
    assert!(press_reaches_world(Some(5000)));
}

#[test]
fn a_press_reaches_the_world_when_no_click_ever_entered_it() {
    assert!(press_reaches_world(None));
}

#[test]
fn the_grace_outlasts_a_double_click() {
    assert!(
        ENTRY_GRACE_MS >= 250,
        "shorter than the usual double-click gap"
    );
}

#[test]
fn the_title_and_pause_screens_open_the_controls_screen() {
    for kind in [Overlay::Title, Overlay::Pause] {
        assert_eq!(kind.buttons(), [MenuButton::Play, MenuButton::Controls]);
    }
    assert_eq!(Overlay::Controls.buttons(), [MenuButton::Back]);
}

#[test]
fn buttons_are_labelled() {
    assert_eq!(MenuButton::Play.label(), "PLAY");
    assert_eq!(MenuButton::Controls.label(), "CONTROLS");
    assert_eq!(MenuButton::Back.label(), "BACK");
}
