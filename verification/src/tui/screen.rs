//! The render loop: what the keys do, and what is done in which order.
use vstd::prelude::*;

use crate::tui::view;

verus! {

/// Whether a key went down, is held, or went up.
#[derive(Clone, Copy, Debug, PartialEq, Eq, Structural)]
pub enum KeyEdge {
    Press,
    Repeat,
    Release,
}

#[derive(Clone, Copy, Debug, PartialEq, Eq, Structural)]
pub enum KeyName {
    Char(char),
    Tab,
    Other,
}

/// A key event. `control_alone` tells that Control and no other modifier is
/// held.
#[derive(Clone, Copy, Debug, PartialEq, Eq, Structural)]
pub struct Key {
    pub name: KeyName,
    pub edge: KeyEdge,
    pub control_alone: bool,
}

/// What a key asks for.
#[derive(Clone, Copy, Debug, PartialEq, Eq, Structural)]
pub enum Wish {
    Quit,
    Toggle,
    Nothing,
}

impl Key {
    /// Keys act when they go down and while they are held, never when they go
    /// up: `q`, `Q` and Control with `c` quit; `p`, `P` and Tab switch the body.
    pub open spec fn wish(self) -> Wish {
        if self.edge == KeyEdge::Release {
            Wish::Nothing
        } else if self.name == KeyName::Char('q') || self.name == KeyName::Char('Q') || (self.name
            == KeyName::Char('c') && self.control_alone) {
            Wish::Quit
        } else if self.name == KeyName::Char('p') || self.name == KeyName::Char('P') || self.name
            == KeyName::Tab {
            Wish::Toggle
        } else {
            Wish::Nothing
        }
    }

    pub fn asks(self) -> (w: Wish)
        ensures
            w == self.wish(),
    {
        match self.edge {
            KeyEdge::Release => Wish::Nothing,
            _ => match self.name {
                KeyName::Char(c) => {
                    if c == 'q' || c == 'Q' || (c == 'c' && self.control_alone) {
                        Wish::Quit
                    } else if c == 'p' || c == 'P' {
                        Wish::Toggle
                    } else {
                        Wish::Nothing
                    }
                },
                KeyName::Tab => Wish::Toggle,
                KeyName::Other => Wish::Nothing,
            },
        }
    }
}

/// What the loop does next.
#[derive(Clone, Copy, Debug, PartialEq, Eq, Structural)]
pub enum ScreenCall {
    /// Look whether the program is to stop.
    CheckCancel,
    /// Draw the screen with this body.
    Draw(view::View),
    /// Wait for an event, this many milliseconds at most.
    Poll(u64),
    /// Read the event that is there.
    Read,
    /// Leave the loop.
    Finish,
}

/// How the last call came out.
#[derive(Clone, Copy, Debug, PartialEq, Eq, Structural)]
pub enum ScreenEvent {
    Cancelled(bool),
    Drawn,
    Ready(bool),
    Pressed(Key),
    /// An event that is no key.
    OtherInput,
    /// The terminal failed.
    Failed,
}

/// The loop between two calls.
#[derive(Clone, Copy, Debug, PartialEq, Eq, Structural)]
pub struct ScreenLoop {
    pub view: view::View,
    pub call: ScreenCall,
}

/// How long to wait for a key, in milliseconds.
pub const POLL_MILLIS: u64 = 100;

impl ScreenLoop {
    /// Whether the event can be the outcome of the call under way.
    pub open spec fn expects(self, event: ScreenEvent) -> bool {
        match self.call {
            ScreenCall::CheckCancel => event is Cancelled,
            ScreenCall::Draw(_) => event is Drawn || event is Failed,
            ScreenCall::Poll(_) => event is Ready || event is Failed,
            ScreenCall::Read => event is Pressed || event is OtherInput || event is Failed,
            ScreenCall::Finish => false,
        }
    }

    /// The loop after the event: each round looks whether to stop, draws, and
    /// takes at most one key.
    pub open spec fn next(self, event: ScreenEvent) -> ScreenLoop {
        match event {
            ScreenEvent::Cancelled(stop) => ScreenLoop {
                view: self.view,
                call: if stop {
                    ScreenCall::Finish
                } else {
                    ScreenCall::Draw(self.view)
                },
            },
            ScreenEvent::Drawn => ScreenLoop {
                view: self.view,
                call: ScreenCall::Poll(POLL_MILLIS),
            },
            ScreenEvent::Ready(ready) => ScreenLoop {
                view: self.view,
                call: if ready {
                    ScreenCall::Read
                } else {
                    ScreenCall::CheckCancel
                },
            },
            ScreenEvent::Pressed(key) => match key.wish() {
                Wish::Quit => ScreenLoop { view: self.view, call: ScreenCall::Finish },
                Wish::Toggle => ScreenLoop {
                    view: self.view.other(),
                    call: ScreenCall::CheckCancel,
                },
                Wish::Nothing => ScreenLoop { view: self.view, call: ScreenCall::CheckCancel },
            },
            ScreenEvent::OtherInput => ScreenLoop {
                view: self.view,
                call: ScreenCall::CheckCancel,
            },
            ScreenEvent::Failed => ScreenLoop { view: self.view, call: ScreenCall::Finish },
        }
    }

    /// The loop begins with the board.
    pub fn start() -> (s: ScreenLoop)
        ensures
            s == (ScreenLoop { view: view::View::Board, call: ScreenCall::CheckCancel }),
    {
        ScreenLoop { view: view::View::Board, call: ScreenCall::CheckCancel }
    }

    pub fn advance(self, event: ScreenEvent) -> (s: ScreenLoop)
        requires
            self.expects(event),
        ensures
            s == self.next(event),
    {
        let view: view::View = self.view;
        match event {
            ScreenEvent::Cancelled(stop) => {
                if stop {
                    ScreenLoop { view, call: ScreenCall::Finish }
                } else {
                    ScreenLoop { view, call: ScreenCall::Draw(view) }
                }
            },
            ScreenEvent::Drawn => ScreenLoop { view, call: ScreenCall::Poll(POLL_MILLIS) },
            ScreenEvent::Ready(ready) => {
                if ready {
                    ScreenLoop { view, call: ScreenCall::Read }
                } else {
                    ScreenLoop { view, call: ScreenCall::CheckCancel }
                }
            },
            ScreenEvent::Pressed(key) => match key.asks() {
                Wish::Quit => ScreenLoop { view, call: ScreenCall::Finish },
                Wish::Toggle => ScreenLoop {
                    view: view.toggled(),
                    call: ScreenCall::CheckCancel,
                },
                Wish::Nothing => ScreenLoop { view, call: ScreenCall::CheckCancel },
            },
            ScreenEvent::OtherInput => ScreenLoop { view, call: ScreenCall::CheckCancel },
            ScreenEvent::Failed => ScreenLoop { view, call: ScreenCall::Finish },
        }
    }
}

/// Law: one keystroke acts once. Where a terminal reports a key going down and
/// then going up, the second event leaves the body as the first one made it.
pub proof fn law_release_changes_nothing(s: ScreenLoop, key: Key)
    requires
        key.edge == KeyEdge::Release,
    ensures
        s.next(ScreenEvent::Pressed(key)).view == s.view,
        s.next(ScreenEvent::Pressed(key)).call == ScreenCall::CheckCancel,
{
}

/// Law: nothing is drawn once the program is to stop.
pub proof fn law_no_drawing_after_cancel(s: ScreenLoop)
    ensures
        s.next(ScreenEvent::Cancelled(true)).call == ScreenCall::Finish,
        forall|event: ScreenEvent|
            !s.next(ScreenEvent::Cancelled(true)).expects(event),
{
}

/// Law: a key that goes down or is held quits where it is `q` or `Q`, or `c` with
/// Control alone, switches the body where it is `p`, `P` or Tab, and does nothing
/// else. A key that goes up does nothing.
pub proof fn law_keys_do_what_they_say(key: Key, w: Wish)
    requires
        call_ensures(Key::asks, (key,), w),
    ensures
        ({
            let down = key.edge == KeyEdge::Press || key.edge == KeyEdge::Repeat;
            let quits = key.name == KeyName::Char('q') || key.name == KeyName::Char('Q') || (
            key.name == KeyName::Char('c') && key.control_alone);
            let switches = key.name == KeyName::Char('p') || key.name == KeyName::Char('P')
                || key.name == KeyName::Tab;
            &&& w == Wish::Quit <==> down && quits
            &&& w == Wish::Toggle <==> down && switches
            &&& w == Wish::Nothing <==> !down || (!quits && !switches)
        }),
{
}

/// Law: the loop looks whether to stop, draws the body in view, waits a tenth of
/// a second for an event, and reads it where there is one. Then it begins again,
/// unless a key quits or the terminal fails. Only a key that switches changes the
/// body.
pub proof fn law_rounds_follow_one_order(s: ScreenLoop, event: ScreenEvent, t: ScreenLoop)
    requires
        s.expects(event),
        call_ensures(ScreenLoop::advance, (s, event), t),
    ensures
        s.call == ScreenCall::CheckCancel ==> {
            &&& event == ScreenEvent::Cancelled(true) ==> t.call == ScreenCall::Finish
            &&& event == ScreenEvent::Cancelled(false) ==> t.call == ScreenCall::Draw(s.view)
            &&& t.view == s.view
        },
        event == ScreenEvent::Drawn ==> t.call == ScreenCall::Poll(100) && t.view == s.view,
        event == ScreenEvent::Ready(true) ==> t.call == ScreenCall::Read && t.view == s.view,
        event == ScreenEvent::Ready(false) ==> t.call == ScreenCall::CheckCancel && t.view == s.view,
        event == ScreenEvent::OtherInput ==> t.call == ScreenCall::CheckCancel && t.view == s.view,
        event == ScreenEvent::Failed ==> t.call == ScreenCall::Finish,
        event matches ScreenEvent::Pressed(key) ==> {
            let down = key.edge == KeyEdge::Press || key.edge == KeyEdge::Repeat;
            let quits = key.name == KeyName::Char('q') || key.name == KeyName::Char('Q') || (
            key.name == KeyName::Char('c') && key.control_alone);
            let switches = key.name == KeyName::Char('p') || key.name == KeyName::Char('P')
                || key.name == KeyName::Tab;
            &&& t.call == ScreenCall::Finish <==> down && quits
            &&& t.call == ScreenCall::Finish || t.call == ScreenCall::CheckCancel
            &&& t.view != s.view <==> down && switches
        },
{
}

} // verus!
