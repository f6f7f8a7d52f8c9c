//! What the interactive shell does with one window event: the menu and
//! focus decisions between the window system and the simulation.

use vstd::prelude::*;
use crate::input::{Key, KeyInput, MouseButton, NamedKey};
use crate::menu::{MenuButton, Overlay, key_scroll_rows, key_starts_game, press_reaches_world, spec_buttons};

verus! {

/// The shell's answer to one window event.
#[derive(Clone, Copy, Debug, PartialEq, Eq, Structural)]
pub enum ShellAction {
    /// Nothing happens.
    Nothing,
    /// ESC: open the pause menu from the world, or leave the top menu.
    Escape,
    /// Leave every menu and give the world focus.
    EnterWorld,
    /// Open the controls screen over the current one.
    OpenControls,
    /// Scroll the open list by this many rows.
    ScrollRows(i32),
    /// Hand the key event to the game's input state.
    ForwardKey(KeyInput),
    /// Hand the mouse button event to the game's input state.
    ForwardMouse(MouseButton, bool),
}

/// The answer to a key event while `playing` (no menu open) or under
/// `overlay`: a pressed ESC always escapes; in the world every other key
/// goes to the game; in a menu, releases do nothing, the arrow keys
/// scroll, and Enter or Space enter the world from screens offering PLAY.
pub open spec fn spec_on_key(playing: bool, overlay: Option<Overlay>, event: KeyInput) -> ShellAction {
    if event.pressed && event.key == Key::Named(NamedKey::Escape) {
        ShellAction::Escape
    } else if playing {
        ShellAction::ForwardKey(event)
    } else if !event.pressed {
        ShellAction::Nothing
    } else if event.key == Key::Named(NamedKey::ArrowUp) {
        ShellAction::ScrollRows(-1i32)
    } else if event.key == Key::Named(NamedKey::ArrowDown) {
        ShellAction::ScrollRows(1i32)
    } else if overlay matches Some(o) && (event.key == Key::Named(NamedKey::Enter) || event.key == Key::Named(
        NamedKey::Space,
    )) && spec_buttons(o).contains(MenuButton::Play) {
        ShellAction::EnterWorld
    } else {
        ShellAction::Nothing
    }
}

/// Answers a key event.
pub fn on_key(playing: bool, overlay: Option<Overlay>, event: KeyInput) -> (r: ShellAction)
    ensures
        r == spec_on_key(playing, overlay, event),
{
    if event.pressed && event.key == Key::Named(NamedKey::Escape) {
        return ShellAction::Escape;
    }
    if playing {
        return ShellAction::ForwardKey(event);
    }
    if !event.pressed {
        return ShellAction::Nothing;
    }
    if let Some(rows) = key_scroll_rows(&event.key) {
        return ShellAction::ScrollRows(rows);
    }
    match overlay {
        Some(o) => {
            if key_starts_game(&event.key, o) {
                ShellAction::EnterWorld
            } else {
                ShellAction::Nothing
            }
        },
        None => ShellAction::Nothing,
    }
}

/// In a menu, a pressed key other than ESC and the arrows enters the world
/// exactly when it is Enter or Space and the screen offers PLAY; on every
/// such screen, whichever it is.
pub proof fn law_menu_keys_enter_the_world(o: Overlay, key: Key)
    requires
        key != Key::Named(NamedKey::Escape),
        key != Key::Named(NamedKey::ArrowUp),
        key != Key::Named(NamedKey::ArrowDown),
    ensures
        (spec_on_key(false, Some(o), (KeyInput { key, pressed: true })) == ShellAction::EnterWorld) <==> ((key
            == Key::Named(NamedKey::Enter) || key == Key::Named(NamedKey::Space)) && spec_buttons(o).contains(
            MenuButton::Play,
        )),
        (spec_on_key(false, Some(o), (KeyInput { key, pressed: true })) == ShellAction::EnterWorld)
            || (spec_on_key(false, Some(o), (KeyInput { key, pressed: true })) == ShellAction::Nothing),
{
}

/// Enter and Space are interchangeable in every menu, pressed or released.
pub proof fn law_enter_and_space_act_alike(o: Overlay, pressed: bool)
    ensures
        spec_on_key(false, Some(o), (KeyInput { key: Key::Named(NamedKey::Enter), pressed }))
            == spec_on_key(false, Some(o), (KeyInput { key: Key::Named(NamedKey::Space), pressed })),
{
}

/// Screens that offer PLAY answer every key event alike: a key press
/// cannot tell the title screen from the pause screen.
pub proof fn law_play_screens_answer_keys_alike(o1: Overlay, o2: Overlay, event: KeyInput)
    requires
        spec_buttons(o1).contains(MenuButton::Play),
        spec_buttons(o2).contains(MenuButton::Play),
    ensures
        spec_on_key(false, Some(o1), event) == spec_on_key(false, Some(o2), event),
{
}

/// The answer to a mouse button event: a press in a menu acts on the
/// button `hit` under the cursor; otherwise the event goes to the game
/// unless it falls within the grace after the click that entered the
/// world (`since_entry_ms` milliseconds ago, if any).
pub open spec fn spec_on_mouse(
    playing: bool,
    hit: Option<MenuButton>,
    since_entry_ms: Option<u64>,
    button: MouseButton,
    pressed: bool,
) -> ShellAction {
    if pressed && !playing {
        match hit {
            Some(MenuButton::Play) => ShellAction::EnterWorld,
            Some(MenuButton::Controls) => ShellAction::OpenControls,
            Some(MenuButton::Back) => ShellAction::Escape,
            None => ShellAction::Nothing,
        }
    } else if match since_entry_ms {
        None => true,
        Some(elapsed) => elapsed >= crate::menu::ENTRY_GRACE_MS,
    } {
        ShellAction::ForwardMouse(button, pressed)
    } else {
        ShellAction::Nothing
    }
}

/// Answers a mouse button event.
pub fn on_mouse(
    playing: bool,
    hit: Option<MenuButton>,
    since_entry_ms: Option<u64>,
    button: MouseButton,
    pressed: bool,
) -> (r: ShellAction)
    ensures
        r == spec_on_mouse(playing, hit, since_entry_ms, button, pressed),
{
    if pressed && !playing {
        return match hit {
            Some(MenuButton::Play) => ShellAction::EnterWorld,
            Some(MenuButton::Controls) => ShellAction::OpenControls,
            Some(MenuButton::Back) => ShellAction::Escape,
            None => ShellAction::Nothing,
        };
    }
    if press_reaches_world(since_entry_ms) {
        ShellAction::ForwardMouse(button, pressed)
    } else {
        ShellAction::Nothing
    }
}

/// The answer to the window losing focus: the world pauses; a menu stays.
pub fn on_focus_lost(playing: bool) -> (r: ShellAction)
    ensures
        r == if playing {
            ShellAction::Escape
        } else {
            ShellAction::Nothing
        },
{
    if playing {
        ShellAction::Escape
    } else {
        ShellAction::Nothing
    }
}

} // verus!
