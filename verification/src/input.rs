//! Logical key and mouse input translated into movement flags and queued
//! gameplay actions, independent of any window system's event types.

use vstd::prelude::*;
use crate::game::Action;
use crate::player::Input;
use vstd::string::StringSliceAdditionalSpecFns;

verus! {

/// A named key the game distinguishes; every other named key is `Other`.
#[derive(Clone, Copy, Debug, PartialEq, Eq, Structural)]
pub enum NamedKey {
    /// The space bar.
    Space,
    /// Either shift key.
    Shift,
    /// The escape key.
    Escape,
    /// The enter key.
    Enter,
    /// The up arrow.
    ArrowUp,
    /// The down arrow.
    ArrowDown,
    /// Any other named key.
    Other,
}

/// Logical key identity, as the keyboard layout produced it.
#[derive(Clone, Copy, Debug, PartialEq, Eq, Structural)]
pub enum Key {
    /// A key whose text is exactly this one character.
    Character(char),
    /// A named key.
    Named(NamedKey),
    /// A key with text of more or fewer than one character, or of no kind
    /// the game reads.
    Other,
}

/// A mouse button.
#[derive(Clone, Copy, Debug, PartialEq, Eq, Structural)]
pub enum MouseButton {
    /// The primary button.
    Left,
    /// The secondary button.
    Right,
    /// The wheel button.
    Middle,
    /// Any other button.
    Other,
}

/// One logical key press or release.
#[derive(Clone, Copy, Debug, PartialEq, Eq, Structural)]
pub struct KeyInput {
    /// Logical key identity.
    pub key: Key,
    /// Whether the key went down (`false`: released).
    pub pressed: bool,
}

/// Whether character `c` upper-cases to the letter F.
pub open spec fn is_fly_char(c: char) -> bool {
    c == 'f' || c == 'F'
}

/// Whether character `c` upper-cases to the letter W.
pub open spec fn is_forward_char(c: char) -> bool {
    c == 'w' || c == 'W'
}

/// Whether character `c` upper-cases to the letter S (the long s, U+017F,
/// upper-cases to S too).
pub open spec fn is_back_char(c: char) -> bool {
    c == 's' || c == 'S' || c == '\u{17f}'
}

/// Whether character `c` upper-cases to the letter A.
pub open spec fn is_left_char(c: char) -> bool {
    c == 'a' || c == 'A'
}

/// Whether character `c` upper-cases to the letter D.
pub open spec fn is_right_char(c: char) -> bool {
    c == 'd' || c == 'D'
}

/// Whether character `c` is an ASCII digit.
pub open spec fn is_digit_char(c: char) -> bool {
    '0' <= c <= '9'
}

/// The movement flags after the key event `(key, pressed)`.
pub open spec fn key_input(input: Input, key: Key, pressed: bool) -> Input {
    match key {
        Key::Character(c) => if is_forward_char(c) {
            Input { forward: pressed, ..input }
        } else if is_back_char(c) {
            Input { back: pressed, ..input }
        } else if is_left_char(c) {
            Input { left: pressed, ..input }
        } else if is_right_char(c) {
            Input { right: pressed, ..input }
        } else {
            input
        },
        Key::Named(NamedKey::Space) => Input { jump: pressed, ..input },
        Key::Named(NamedKey::Shift) => Input { sprint: pressed, down: pressed, ..input },
        _ => input,
    }
}

/// The actions the key event `(key, pressed)` queues: F toggles flight,
/// digits 1 to 9 select hotbar slots 0 to 8; releases queue nothing.
pub open spec fn key_actions(key: Key, pressed: bool) -> Seq<Action> {
    match key {
        Key::Character(c) => if pressed && is_fly_char(c) {
            seq![Action::ToggleFly]
        } else if pressed && is_digit_char(c) && c != '0' {
            seq![Action::Select((c as int - '1' as int) as usize)]
        } else {
            Seq::empty()
        },
        _ => Seq::empty(),
    }
}

/// The movement flags after a mouse event: a left release always drops
/// the attack; while grabbed, a left press holds it.
pub open spec fn mouse_input(input: Input, grabbed: bool, button: MouseButton, pressed: bool) -> Input {
    if button == MouseButton::Left && !pressed {
        Input { attack: false, ..input }
    } else if grabbed && button == MouseButton::Left && pressed {
        Input { attack: true, ..input }
    } else {
        input
    }
}

/// The actions a mouse event queues: while grabbed, a right press places
/// and a middle press picks.
pub open spec fn mouse_actions(grabbed: bool, button: MouseButton, pressed: bool) -> Seq<Action> {
    if grabbed && pressed && button == MouseButton::Right {
        seq![Action::Place]
    } else if grabbed && pressed && button == MouseButton::Middle {
        seq![Action::Pick]
    } else {
        Seq::empty()
    }
}

/// The key a driver names with `name`'s bytes: `W`, `A`, `S`, `D` and `F`
/// as their lower-case characters, `Space`, `Shift` and `Escape` as named
/// keys, and a single ASCII digit as itself.
pub open spec fn named_key(name: Seq<u8>) -> Option<Key> {
    if name == seq![87u8] {
        Some(Key::Character('w'))
    } else if name == seq![65u8] {
        Some(Key::Character('a'))
    } else if name == seq![83u8] {
        Some(Key::Character('s'))
    } else if name == seq![68u8] {
        Some(Key::Character('d'))
    } else if name == seq![70u8] {
        Some(Key::Character('f'))
    } else if name == seq![83u8, 112u8, 97u8, 99u8, 101u8] {
        Some(Key::Named(NamedKey::Space))
    } else if name == seq![83u8, 104u8, 105u8, 102u8, 116u8] {
        Some(Key::Named(NamedKey::Shift))
    } else if name == seq![69u8, 115u8, 99u8, 97u8, 112u8, 101u8] {
        Some(Key::Named(NamedKey::Escape))
    } else if name.len() == 1 && 48 <= name[0] <= 57 {
        Some(Key::Character(name[0] as char))
    } else {
        None
    }
}

/// The upper-case form of an ASCII lower-case letter; any other
/// character is its own upper-case form here.
pub open spec fn ascii_upper(c: char) -> char {
    if 'a' <= c <= 'z' {
        ((c as int) - 32) as char
    } else {
        c
    }
}

/// Keys ignore letter case: a letter and its upper-case form change the
/// movement flags and queue actions alike.
pub proof fn law_keys_ignore_letter_case(input: Input, c: char, pressed: bool)
    ensures
        key_input(input, Key::Character(c), pressed) == key_input(input, Key::Character(ascii_upper(c)), pressed),
        key_actions(Key::Character(c), pressed) == key_actions(Key::Character(ascii_upper(c)), pressed),
{
}

/// The letter keys W, S, A and D, in either case, set the forward, back,
/// left and right flags to whether the key is down and change nothing
/// else; F, in either case, toggles flight on a press.
pub proof fn law_letter_keys_drive_their_flags(input: Input, c: char, pressed: bool)
    ensures
        ascii_upper(c) == 'W' ==> key_input(input, Key::Character(c), pressed) == (Input { forward: pressed, ..input }),
        ascii_upper(c) == 'S' ==> key_input(input, Key::Character(c), pressed) == (Input { back: pressed, ..input }),
        ascii_upper(c) == 'A' ==> key_input(input, Key::Character(c), pressed) == (Input { left: pressed, ..input }),
        ascii_upper(c) == 'D' ==> key_input(input, Key::Character(c), pressed) == (Input { right: pressed, ..input }),
        ascii_upper(c) == 'F' ==> key_input(input, Key::Character(c), pressed) == input,
        ascii_upper(c) == 'F' && pressed ==> key_actions(Key::Character(c), pressed) == seq![Action::ToggleFly],
        ascii_upper(c) == 'F' && !pressed ==> key_actions(Key::Character(c), pressed) == Seq::<Action>::empty(),
{
}

/// Whether `b` holds exactly the bytes of `lit`.
fn bytes_are(b: &[u8], lit: &[u8]) -> (r: bool)
    ensures
        r == (b@ == lit@),
{
    if b.len() != lit.len() {
        return false;
    }
    let mut i: usize = 0;
    while i < b.len()
        invariant
            b@.len() == lit@.len(),
            i <= b@.len(),
            forall|j: int| 0 <= j < i ==> b@[j] == lit@[j],
        decreases b@.len() - i,
    {
        if b[i] != lit[i] {
            return false;
        }
        i = i + 1;
    }
    assert(b@ =~= lit@);
    true
}

/// Builds a [`KeyInput`] from a driver key name (`"W"`, `"Space"`, `"3"`);
/// `None` for names with no mapping.
pub fn synthetic_key(name: &str, pressed: bool) -> (r: Option<KeyInput>)
    ensures
        r == match named_key(name.spec_bytes()) {
            Some(key) => Some(KeyInput { key, pressed }),
            None => None,
        },
{
    let b = name.as_bytes();
    let w = [87u8];
    let a = [65u8];
    let s = [83u8];
    let d = [68u8];
    let f = [70u8];
    let space = [83u8, 112u8, 97u8, 99u8, 101u8];
    let shift = [83u8, 104u8, 105u8, 102u8, 116u8];
    let escape = [69u8, 115u8, 99u8, 97u8, 112u8, 101u8];
    assert(w@ =~= seq![87u8] && a@ =~= seq![65u8] && s@ =~= seq![83u8] && d@ =~= seq![68u8] && f@ =~= seq![70u8]);
    assert(space@ =~= seq![83u8, 112u8, 97u8, 99u8, 101u8]);
    assert(shift@ =~= seq![83u8, 104u8, 105u8, 102u8, 116u8]);
    assert(escape@ =~= seq![69u8, 115u8, 99u8, 97u8, 112u8, 101u8]);
    let key = if bytes_are(b, w.as_slice()) {
        Some(Key::Character('w'))
    } else if bytes_are(b, a.as_slice()) {
        Some(Key::Character('a'))
    } else if bytes_are(b, s.as_slice()) {
        Some(Key::Character('s'))
    } else if bytes_are(b, d.as_slice()) {
        Some(Key::Character('d'))
    } else if bytes_are(b, f.as_slice()) {
        Some(Key::Character('f'))
    } else if bytes_are(b, space.as_slice()) {
        Some(Key::Named(NamedKey::Space))
    } else if bytes_are(b, shift.as_slice()) {
        Some(Key::Named(NamedKey::Shift))
    } else if bytes_are(b, escape.as_slice()) {
        Some(Key::Named(NamedKey::Escape))
    } else if b.len() == 1 && 48 <= b[0] && b[0] <= 57 {
        Some(Key::Character(b[0] as char))
    } else {
        None
    };
    match key {
        Some(key) => Some(KeyInput { key, pressed }),
        None => None,
    }
}

/// Aggregated input state: movement snapshot, queued actions, grab flag.
pub struct InputState {
    /// Movement flags consumed by the simulation.
    pub input: Input,
    /// Actions queued since the last drain.
    pub actions: Vec<Action>,
    /// Whether the game view currently grabs keyboard and mouse.
    pub grabbed: bool,
}

impl Default for InputState {
    fn default() -> (r: Self)
        ensures
            r.input == crate::player::idle_input(),
            r.actions@ == Seq::<Action>::empty(),
            !r.grabbed,
    {
        Self::new()
    }
}

impl InputState {
    /// An idle state: nothing held, nothing queued, ungrabbed.
    pub fn new() -> (r: Self)
        ensures
            r.input == crate::player::idle_input(),
            r.actions@ == Seq::<Action>::empty(),
            !r.grabbed,
    {
        InputState { input: Input::default(), actions: Vec::new(), grabbed: false }
    }

    /// Mirrors the navigation state into the input gate: the view grabs
    /// input exactly while the world has focus, and a menu never inherits
    /// held keys.
    pub fn sync_grab(&mut self, playing: bool)
        ensures
            final(self).grabbed == playing,
            final(self).input == if playing {
                old(self).input
            } else {
                crate::player::idle_input()
            },
            final(self).actions@ == old(self).actions@,
    {
        self.grabbed = playing;
        if !playing {
            self.input = Input::default();
        }
    }

    /// Translates one key event into movement flags or queued actions.
    /// Ignored while the view is ungrabbed.
    pub fn key(&mut self, event: &KeyInput)
        ensures
            final(self).grabbed == old(self).grabbed,
            final(self).input == if old(self).grabbed {
                key_input(old(self).input, event.key, event.pressed)
            } else {
                old(self).input
            },
            final(self).actions@ == if old(self).grabbed {
                old(self).actions@ + key_actions(event.key, event.pressed)
            } else {
                old(self).actions@
            },
    {
        if !self.grabbed {
            return;
        }
        let pressed = event.pressed;
        let ghost before = self.actions@;
        match event.key {
            Key::Character(c) => {
                if c == 'f' || c == 'F' {
                    if pressed {
                        self.actions.push(Action::ToggleFly);
                    }
                } else if c == 'w' || c == 'W' {
                    self.input.forward = pressed;
                } else if c == 's' || c == 'S' || c == '\u{17f}' {
                    self.input.back = pressed;
                } else if c == 'a' || c == 'A' {
                    self.input.left = pressed;
                } else if c == 'd' || c == 'D' {
                    self.input.right = pressed;
                } else if pressed && '0' <= c && c <= '9' {
                    let n = (c as u32 - '0' as u32) as usize;
                    if n >= 1 {
                        self.actions.push(Action::Select(n - 1));
                    }
                }
            },
            Key::Named(NamedKey::Space) => {
                self.input.jump = pressed;
            },
            Key::Named(NamedKey::Shift) => {
                self.input.sprint = pressed;
                self.input.down = pressed;
            },
            _ => {},
        }
        assert(self.actions@ =~= before + key_actions(event.key, event.pressed));
    }

    /// Left press and release hold and drop the attack flag; right and
    /// middle presses queue place and pick. Ignored while the view is
    /// ungrabbed, except for the left release, which always drops the
    /// attack so a button let go off-view cannot leave it held.
    pub fn mouse(&mut self, button: MouseButton, pressed: bool)
        ensures
            final(self).grabbed == old(self).grabbed,
            final(self).input == mouse_input(old(self).input, old(self).grabbed, button, pressed),
            final(self).actions@ == old(self).actions@ + mouse_actions(old(self).grabbed, button, pressed),
    {
        let ghost before = self.actions@;
        if button == MouseButton::Left && !pressed {
            self.input.attack = false;
            assert(self.actions@ =~= before + mouse_actions(old(self).grabbed, button, pressed));
            return;
        }
        if !self.grabbed {
            assert(self.actions@ =~= before + mouse_actions(old(self).grabbed, button, pressed));
            return;
        }
        match (button, pressed) {
            (MouseButton::Left, true) => {
                self.input.attack = true;
            },
            (MouseButton::Right, true) => {
                self.actions.push(Action::Place);
            },
            (MouseButton::Middle, true) => {
                self.actions.push(Action::Pick);
            },
            _ => {},
        }
        assert(self.actions@ =~= before + mouse_actions(old(self).grabbed, button, pressed));
    }
}

} // verus!
