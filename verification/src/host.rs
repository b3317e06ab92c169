//! The host-facing alphabet: the keystrokes the controller interprets and
//! the fire-and-forget requests it hands back for the host to issue.
use vstd::prelude::*;

verus! {

/// One keystroke, as the host reports it.
#[derive(Clone, Copy, Debug)]
pub enum BareKey {
    Char(char),
    Left,
    Right,
    Up,
    Down,
    Tab,
    Enter,
    Backspace,
    Esc,
    /// Any key outside the alphabet above; always left unhandled.
    Other,
}

/// A side effect the controller asks the host to perform. The controller
/// never waits for completion; the host issues these after the transition.
#[derive(Debug, PartialEq)]
pub enum HostRequest {
    /// Kill the named live sessions.
    KillSessions(Vec<String>),
    /// Drop the named session from resurrectable history.
    ForgetSession(String),
    /// Make the named session the active one.
    SwitchSession(String),
    /// Close this UI instance.
    CloseSelf,
    /// Write the classification to persistent storage.
    Persist,
}

/// The mathematical image of a host request.
pub enum RequestView {
    KillSessions(Seq<Seq<char>>),
    ForgetSession(Seq<char>),
    SwitchSession(Seq<char>),
    CloseSelf,
    Persist,
}

impl DeepView for HostRequest {
    type V = RequestView;

    open spec fn deep_view(&self) -> RequestView {
        match self {
            HostRequest::KillSessions(names) => RequestView::KillSessions(names.deep_view()),
            HostRequest::ForgetSession(name) => RequestView::ForgetSession(name@),
            HostRequest::SwitchSession(name) => RequestView::SwitchSession(name@),
            HostRequest::CloseSelf => RequestView::CloseSelf,
            HostRequest::Persist => RequestView::Persist,
        }
    }
}

/// What one keystroke produced: whether the controller recognized it (and
/// the screen needs a redraw), and the requests for the host to issue.
pub struct KeyOutcome {
    pub handled: bool,
    pub requests: Vec<HostRequest>,
}

impl KeyOutcome {
    /// The outcome of a keystroke the current mode does not recognize.
    pub fn unhandled() -> (r: KeyOutcome)
        ensures
            !r.handled,
            r.requests.deep_view() == Seq::<RequestView>::empty(),
    {
        let r = KeyOutcome { handled: false, requests: Vec::new() };
        proof {
            assert(r.requests.deep_view() =~= Seq::<RequestView>::empty());
        }
        r
    }

    /// The outcome of a recognized keystroke with no external effect.
    pub fn handled() -> (r: KeyOutcome)
        ensures
            r.handled,
            r.requests.deep_view() == Seq::<RequestView>::empty(),
    {
        let r = KeyOutcome { handled: true, requests: Vec::new() };
        proof {
            assert(r.requests.deep_view() =~= Seq::<RequestView>::empty());
        }
        r
    }
}

} // verus!
