//! Menu model: the full-screen overlays, the buttons of their columns,
//! and when a press after entering the world may reach it.

use vstd::prelude::*;
use crate::input::{Key, NamedKey};

verus! {

/// One button of a menu button column.
#[derive(Clone, Copy, Debug, PartialEq, Eq, Structural)]
pub enum MenuButton {
    /// Enters the world.
    Play,
    /// Opens the controls screen.
    Controls,
    /// Leaves the current screen.
    Back,
}

impl MenuButton {
    /// Text drawn on the button.
    pub fn label(self) -> (r: &'static str)
        ensures
            r@ == (match self {
                MenuButton::Play => "PLAY"@,
                MenuButton::Controls => "CONTROLS"@,
                MenuButton::Back => "BACK"@,
            }),
    {
        match self {
            MenuButton::Play => "PLAY",
            MenuButton::Controls => "CONTROLS",
            MenuButton::Back => "BACK",
        }
    }
}

/// Full-screen UI covering the game view.
#[derive(Clone, Copy, Debug, PartialEq, Eq, Structural)]
pub enum Overlay {
    /// Start screen shown before the first grab.
    Title,
    /// Screen over a run already started. The world keeps running under it.
    Pause,
    /// Controls screen, opened from the title or pause screen.
    Controls,
}

/// The buttons of `overlay`'s column, top to bottom.
pub open spec fn spec_buttons(overlay: Overlay) -> Seq<MenuButton> {
    match overlay {
        Overlay::Title | Overlay::Pause => seq![MenuButton::Play, MenuButton::Controls],
        Overlay::Controls => seq![MenuButton::Back],
    }
}

impl Overlay {
    /// Buttons of this overlay's column, top to bottom.
    pub fn buttons(self) -> (r: Vec<MenuButton>)
        ensures
            r@ == spec_buttons(self),
    {
        match self {
            Overlay::Title | Overlay::Pause => vec![MenuButton::Play, MenuButton::Controls],
            Overlay::Controls => vec![MenuButton::Back],
        }
    }
}

/// How long, in milliseconds, a click that entered the world keeps the
/// next press out of it. Longer than a double-click gap, so the second
/// press on PLAY cannot reach the game and break the block under the
/// crosshair.
pub const ENTRY_GRACE_MS: u64 = 300;

/// Whether a mouse press reaches the world, given the milliseconds since
/// the click that entered it (`None` when no click entered it). A press
/// within [`ENTRY_GRACE_MS`] of that click is the second half of a
/// double-click on a menu button, not an attack.
pub fn press_reaches_world(since_entry_ms: Option<u64>) -> (r: bool)
    ensures
        r == match since_entry_ms {
            None => true,
            Some(elapsed) => elapsed >= ENTRY_GRACE_MS,
        },
{
    match since_entry_ms {
        None => true,
        Some(elapsed) => elapsed >= ENTRY_GRACE_MS,
    }
}

/// Keyboard route into the world, for the frames where no cursor position
/// is known and no button can be hit: Enter or Space, on the screens
/// offering PLAY.
pub fn key_starts_game(key: &Key, overlay: Overlay) -> (r: bool)
    ensures
        r == ((*key == Key::Named(NamedKey::Enter) || *key == Key::Named(NamedKey::Space))
            && spec_buttons(overlay).contains(MenuButton::Play)),
{
    let starts = match key {
        Key::Named(NamedKey::Enter) | Key::Named(NamedKey::Space) => true,
        _ => false,
    };
    if !starts {
        return false;
    }
    let buttons = overlay.buttons();
    let mut i: usize = 0;
    while i < buttons.len()
        invariant
            buttons@ == spec_buttons(overlay),
            *key == Key::Named(NamedKey::Enter) || *key == Key::Named(NamedKey::Space),
            i <= buttons@.len(),
            forall|j: int| 0 <= j < i ==> buttons@[j] != MenuButton::Play,
        decreases buttons@.len() - i,
    {
        if buttons[i] == MenuButton::Play {
            assert(spec_buttons(overlay)[i as int] == MenuButton::Play);
            return true;
        }
        i = i + 1;
    }
    proof {
        if spec_buttons(overlay).contains(MenuButton::Play) {
            let j = choose|j: int| 0 <= j < buttons@.len() && buttons@[j] == MenuButton::Play;
            assert(buttons@[j] != MenuButton::Play);
        }
    }
    false
}

/// Rows a key scrolls the open list by, if it scrolls at all: up one row
/// for the up arrow, down one for the down arrow.
pub fn key_scroll_rows(key: &Key) -> (r: Option<i32>)
    ensures
        r == match *key {
            Key::Named(NamedKey::ArrowUp) => Some(-1i32),
            Key::Named(NamedKey::ArrowDown) => Some(1i32),
            _ => None,
        },
{
    match key {
        Key::Named(NamedKey::ArrowUp) => Some(-1),
        Key::Named(NamedKey::ArrowDown) => Some(1),
        _ => None,
    }
}

} // verus!
