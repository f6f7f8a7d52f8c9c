use ox_core::menu::Overlay;
use ox_core::screens::{Screen, Screens};

fn controls() -> Screen<f32> {
    Screen::Controls { scroll: 0.0 }
}

fn scroll(screens: &Screens<f32>) -> f32 {
    match screens.top() {
        Some(Screen::Controls { scroll }) => scroll,
        _ => 0.0,
    }
}

#[test]
fn a_new_stack_shows_the_title_screen() {
    let screens: Screens<f32> = Screens::new();
    assert_eq!(screens.top(), Some(Screen::Title));
    assert_eq!(screens.overlay(), Some(Overlay::Title));
    assert!(!screens.playing());
}

#[test]
fn entering_the_world_empties_the_stack() {
    let mut screens: Screens<f32> = Screens::new();
    screens.enter_world();
    assert_eq!(screens.top(), None);
    assert_eq!(screens.overlay(), None);
    assert!(screens.playing());
}

#[test]
fn escape_opens_the_pause_menu_over_the_world() {
    let mut screens: Screens<f32> = Screens::new();
    screens.enter_world();
    screens.escape();
    assert_eq!(screens.top(), Some(Screen::Pause));
    assert_eq!(screens.overlay(), Some(Overlay::Pause));
    assert!(!screens.playing());
}

#[test]
fn escape_leaves_the_pause_menu_back_to_the_world() {
    let mut screens: Screens<f32> = Screens::new();
    screens.enter_world();
    screens.escape();
    screens.escape();
    assert!(screens.playing());
}

#[test]
fn escape_keeps_the_title_screen_up() {
    let mut screens: Screens<f32> = Screens::new();
    for _ in 0..3 {
        screens.escape();
    }
    assert_eq!(screens.top(), Some(Screen::Title));
    assert!(!screens.playing());
}

#[test]
fn the_controls_screen_returns_to_the_title_screen() {
    let mut screens = Screens::new();
    screens.open(controls());
    assert_eq!(screens.overlay(), Some(Overlay::Controls));
    screens.escape();
    assert_eq!(screens.top(), Some(Screen::Title));
}

#[test]
fn the_controls_screen_returns_to_the_pause_screen() {
    let mut screens = Screens::new();
    screens.enter_world();
    screens.escape();
    screens.open(controls());
    assert_eq!(screens.overlay(), Some(Overlay::Controls));
    screens.escape();
    assert_eq!(screens.top(), Some(Screen::Pause));
    assert!(!screens.playing());
}

#[test]
fn the_title_screen_never_comes_back_after_the_first_entry() {
    let mut screens: Screens<f32> = Screens::new();
    screens.enter_world();
    screens.escape();
    assert_eq!(screens.overlay(), Some(Overlay::Pause));
    screens.enter_world();
    screens.escape();
    assert_eq!(screens.overlay(), Some(Overlay::Pause));
}

#[test]
fn reopening_the_controls_screen_starts_at_the_top() {
    let mut screens = Screens::new();
    screens.open(controls());
    screens.set_scroll(90.0);
    assert_eq!(scroll(&screens), 90.0);
    screens.escape();
    screens.open(controls());
    assert_eq!(scroll(&screens), 0.0);
}

#[test]
fn screens_without_a_list_ignore_scroll_updates() {
    let mut screens: Screens<f32> = Screens::new();
    screens.set_scroll(100.0);
    assert_eq!(screens.top(), Some(Screen::Title));
    screens.enter_world();
    screens.set_scroll(100.0);
    assert!(screens.playing());
}
