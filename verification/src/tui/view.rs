//! Which body the screen shows, and what the keys do to it.
use vstd::prelude::*;
use vstd::view::View as _;

verus! {

/// Which body the main area is currently showing.
#[derive(Clone, Copy, Debug, PartialEq, Eq, Structural)]
pub enum View {
    Board,
    Stats,
}

impl View {
    /// The other body.
    pub open spec fn other(self) -> View {
        match self {
            View::Board => View::Stats,
            View::Stats => View::Board,
        }
    }

    pub fn toggled(self) -> (r: Self)
        ensures
            r == self.other(),
    {
        match self {
            View::Board => View::Stats,
            View::Stats => View::Board,
        }
    }

    /// What the masthead says about switching.
    pub open spec fn hint_text(self) -> Seq<char> {
        match self {
            View::Board => "p/tab: performance view"@,
            View::Stats => "p/tab: board view"@,
        }
    }

    pub fn hint(self) -> (r: &'static str)
        ensures
            r@ == self.hint_text(),
    {
        match self {
            View::Board => "p/tab: performance view",
            View::Stats => "p/tab: board view",
        }
    }
}

/// Law: switching shows another body, and switching again the first one.
pub proof fn law_toggling_twice(v: View)
    ensures
        v.other() != v,
        v.other().other() == v,
{
}

/// Law: the hint names the body that the key leads to.
pub proof fn law_hint_names_the_other_body(v: View, hint: &'static str, next: View)
    requires
        call_ensures(View::hint, (v,), hint),
        call_ensures(View::toggled, (v,), next),
    ensures
        next == View::Stats ==> v == View::Board && hint@ == "p/tab: performance view"@,
        next == View::Board ==> v == View::Stats && hint@ == "p/tab: board view"@,
{
}

} // verus!
