//! Menu navigation: the stack of open screens over the running world.
//!
//! The stack is generic over what the controls screen carries (its list's
//! scroll offset), which the navigation never inspects.

use vstd::prelude::*;
use crate::menu::Overlay;

verus! {

/// One menu the player can open. The world keeps running underneath.
#[derive(Clone, Copy, Debug, PartialEq)]
pub enum Screen<S> {
    /// Start screen, the root of the stack before the first entry.
    Title,
    /// Pause screen of a run already started.
    Pause,
    /// Controls screen, opened from the title or pause screen. It carries
    /// its own scroll offset, so reopening it starts afresh.
    Controls {
        /// How far the list is scrolled down.
        scroll: S,
    },
}

/// The overlay drawn for `screen`.
pub open spec fn overlay_of<S>(screen: Screen<S>) -> Overlay {
    match screen {
        Screen::Title => Overlay::Title,
        Screen::Pause => Overlay::Pause,
        Screen::Controls { .. } => Overlay::Controls,
    }
}

/// The stack after ESC: the world opens the pause menu, the title screen
/// stays, any other screen closes.
pub open spec fn escaped<S>(stack: Seq<Screen<S>>) -> Seq<Screen<S>> {
    if stack.len() == 0 {
        seq![Screen::Pause]
    } else if stack.last() is Title {
        stack
    } else {
        stack.drop_last()
    }
}

/// Open menus, innermost last. An empty stack gives the world focus.
pub struct Screens<S> {
    stack: Vec<Screen<S>>,
}

impl<S> View for Screens<S> {
    type V = Seq<Screen<S>>;

    closed spec fn view(&self) -> Seq<Screen<S>> {
        self.stack@
    }
}

impl<S: Copy> Screens<S> {
    /// A stack showing the title screen.
    pub fn new() -> (r: Self)
        ensures
            r@ == seq![Screen::<S>::Title],
    {
        let r = Screens { stack: vec![Screen::Title] };
        assert(r@ =~= seq![Screen::<S>::Title]);
        r
    }

    /// The screen the player interacts with, or `None` in the world.
    pub fn top(&self) -> (r: Option<Screen<S>>)
        ensures
            r == if self@.len() == 0 {
                None
            } else {
                Some(self@.last())
            },
    {
        let n = self.stack.len();
        if n == 0 {
            None
        } else {
            Some(self.stack[n - 1])
        }
    }

    /// Whether the world has focus with no menu over it.
    pub fn playing(&self) -> (r: bool)
        ensures
            r == (self@.len() == 0),
    {
        self.stack.len() == 0
    }

    /// Overlay the renderer draws for the current screen, or `None` in the
    /// world, where it draws the HUD.
    pub fn overlay(&self) -> (r: Option<Overlay>)
        ensures
            r == if self@.len() == 0 {
                None
            } else {
                Some(overlay_of(self@.last()))
            },
    {
        match self.top() {
            None => None,
            Some(Screen::Title) => Some(Overlay::Title),
            Some(Screen::Pause) => Some(Overlay::Pause),
            Some(Screen::Controls { .. }) => Some(Overlay::Controls),
        }
    }

    /// Opens `screen` over the current one.
    pub fn open(&mut self, screen: Screen<S>)
        ensures
            final(self)@ == old(self)@.push(screen),
    {
        self.stack.push(screen);
    }

    /// Leaves every menu and gives the world focus.
    pub fn enter_world(&mut self)
        ensures
            final(self)@ == Seq::<Screen<S>>::empty(),
    {
        self.stack.clear();
    }

    /// Applies ESC: opens the pause menu from the world, or leaves the top
    /// menu. The title screen is the root of the stack and stays.
    pub fn escape(&mut self)
        ensures
            final(self)@ == escaped(old(self)@),
    {
        match self.top() {
            None => {
                self.stack.push(Screen::Pause);
                assert(self@ =~= seq![Screen::<S>::Pause]);
            },
            Some(Screen::Title) => {},
            Some(_) => {
                self.stack.pop();
            },
        }
    }

    /// Replaces what the top screen carries, when it is the controls screen.
    pub fn set_scroll(&mut self, scroll: S)
        ensures
            final(self)@ == if old(self)@.len() > 0 && old(self)@.last() is Controls {
                old(self)@.drop_last().push(Screen::Controls { scroll })
            } else {
                old(self)@
            },
    {
        let n = self.stack.len();
        if n > 0 {
            if let Screen::Controls { .. } = self.stack[n - 1] {
                self.stack.set(n - 1, Screen::Controls { scroll });
                assert(self@ =~= old(self)@.drop_last().push(Screen::Controls { scroll }));
            }
        }
    }
}

/// ESC never removes the title screen from the bottom of the stack.
pub proof fn law_escape_keeps_the_title_root<S>(stack: Seq<Screen<S>>)
    requires
        stack.len() > 0,
        stack[0] is Title,
    ensures
        escaped(stack).len() > 0,
        escaped(stack)[0] is Title,
{
}

/// ESC undoes opening a pause or controls screen.
pub proof fn law_escape_closes_what_was_opened<S>(stack: Seq<Screen<S>>, screen: Screen<S>)
    requires
        screen !is Title,
    ensures
        escaped(stack.push(screen)) == stack,
{
    assert(stack.push(screen).drop_last() =~= stack);
}

/// Once the title screen has left the stack, ESC never brings it back.
pub proof fn law_title_never_returns<S>(stack: Seq<Screen<S>>)
    requires
        forall|i: int| 0 <= i < stack.len() ==> !(#[trigger] stack[i] is Title),
    ensures
        forall|i: int| 0 <= i < escaped(stack).len() ==> !(#[trigger] escaped(stack)[i] is Title),
{
}

/// From the world, ESC opens the pause menu, and a second ESC returns to
/// the world.
pub proof fn law_escape_toggles_pause_over_the_world<S>()
    ensures
        escaped(Seq::<Screen<S>>::empty()) == seq![Screen::<S>::Pause],
        escaped(seq![Screen::<S>::Pause]) == Seq::<Screen<S>>::empty(),
{
    assert(seq![Screen::<S>::Pause].drop_last() =~= Seq::<Screen<S>>::empty());
}

} // verus!
