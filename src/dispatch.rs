//! The debounced dispatch of commands.
//!
//! A command is not run at once: it is armed, and runs only when the timer
//! that was started for it fires. Arming again, or a continuation line,
//! cancels what was armed before, so that a command whose text the server
//! split over several lines runs once, with its whole text.

use vstd::prelude::*;

verus! {

/// The quiet interval, in milliseconds, after which an armed command runs.
pub const QUIET_INTERVAL_MS: u64 = 256;

/// A command waiting for its timer: the token that its timer carries, the
/// snapshot of the sender taken when it was armed, its words, and whether the
/// local player sent it.
pub struct Armed<S> {
    pub token: u64,
    pub snapshot: S,
    pub args: Vec<String>,
    pub is_self: bool,
}

/// A command whose timer fired: what the router runs.
pub struct Dispatch<S> {
    pub snapshot: S,
    pub args: Vec<String>,
    pub is_self: bool,
}

/// The state of a dispatcher: the armed command, if any, and the token that
/// the next arming hands out.
pub struct DispatchState<S> {
    pub pending: Option<Armed<S>>,
    pub next_token: u64,
}

/// The token after `t`: tokens count up and wrap to zero.
pub open spec fn token_after(t: u64) -> u64 {
    if t == u64::MAX {
        0
    } else {
        (t + 1) as u64
    }
}

/// The state after a command is armed in `st`: it replaces whatever was armed.
pub open spec fn arm_step<S>(st: DispatchState<S>, snapshot: S, args: Vec<String>, is_self: bool) -> DispatchState<S> {
    DispatchState {
        pending: Some(Armed { token: st.next_token, snapshot, args, is_self }),
        next_token: token_after(st.next_token),
    }
}

/// Whether the timer with `token` finds its command still armed in `st`.
pub open spec fn fires<S>(st: DispatchState<S>, token: u64) -> bool {
    st.pending is Some && st.pending->0.token == token
}

/// The state after the timer with `token` went off in `st`.
pub open spec fn fire_step<S>(st: DispatchState<S>, token: u64) -> DispatchState<S> {
    if fires(st, token) {
        DispatchState { pending: None, next_token: st.next_token }
    } else {
        st
    }
}

/// The command that the timer with `token` runs in `st`, if any.
pub open spec fn fired<S>(st: DispatchState<S>, token: u64) -> Option<Dispatch<S>> {
    if fires(st, token) {
        let a = st.pending->0;
        Some(Dispatch { snapshot: a.snapshot, args: a.args, is_self: a.is_self })
    } else {
        None
    }
}

/// The state after the armed command, if any, is cancelled.
pub open spec fn cancel_step<S>(st: DispatchState<S>) -> DispatchState<S> {
    DispatchState { pending: None, next_token: st.next_token }
}

/// Whether the armed command's token differs from the next one handed out.
pub open spec fn well_formed<S>(st: DispatchState<S>) -> bool {
    st.pending is Some ==> st.pending->0.token != st.next_token
}

/// Holds at most one armed command of one chat connection.
pub struct Dispatcher<S> {
    state: DispatchState<S>,
}

impl<S> View for Dispatcher<S> {
    type V = DispatchState<S>;

    closed spec fn view(&self) -> DispatchState<S> {
        self.state
    }
}

impl<S> Dispatcher<S> {
    /// A dispatcher with nothing armed.
    pub fn new() -> (r: Self)
        ensures
            r@.pending is None,
            well_formed(r@),
    {
        Dispatcher { state: DispatchState { pending: None, next_token: 0 } }
    }

    /// Whether a command is armed.
    pub fn is_armed(&self) -> (r: bool)
        ensures
            r == self@.pending is Some,
    {
        self.state.pending.is_some()
    }

    /// Arms a command, cancelling the one armed before. The token returned is
    /// the one that the command's timer must carry.
    pub fn arm(&mut self, snapshot: S, args: Vec<String>, is_self: bool) -> (token: u64)
        ensures
            final(self)@ == arm_step(old(self)@, snapshot, args, is_self),
            token == old(self)@.next_token,
            well_formed(final(self)@),
    {
        let token = self.state.next_token;
        let next = if token == u64::MAX {
            0
        } else {
            token + 1
        };
        self.state = DispatchState {
            pending: Some(Armed { token, snapshot, args, is_self }),
            next_token: next,
        };
        token
    }

    /// Cancels the armed command, if any: its timer will find nothing to run.
    pub fn cancel(&mut self)
        ensures
            final(self)@ == cancel_step(old(self)@),
            well_formed(final(self)@),
    {
        self.state.pending = None;
    }

    /// The timer with `token` went off: the command armed with that token is
    /// taken out and returned; a timer whose command was cancelled or
    /// replaced finds nothing.
    pub fn fire(&mut self, token: u64) -> (r: Option<Dispatch<S>>)
        ensures
            r == fired(old(self)@, token),
            final(self)@ == fire_step(old(self)@, token),
            well_formed(old(self)@) ==> well_formed(final(self)@),
    {
        let current = match &self.state.pending {
            Some(a) => a.token == token,
            None => false,
        };
        if !current {
            return None;
        }
        match self.state.pending.take() {
            Some(a) => Some(Dispatch { snapshot: a.snapshot, args: a.args, is_self: a.is_self }),
            None => None,
        }
    }
}

/// Re-arming: when a second command is armed before the first one's timer
/// fires, the first timer runs nothing, the second runs the second command,
/// and once it has, no timer runs anything more, whichever token it carries.
pub proof fn law_rearm_runs_latest_once<S>(
    st: DispatchState<S>,
    s1: S,
    a1: Vec<String>,
    self1: bool,
    s2: S,
    a2: Vec<String>,
    self2: bool,
    late: u64,
)
    requires
        well_formed(st),
    ensures
        ({
            let st1 = arm_step(st, s1, a1, self1);
            let t1 = st.next_token;
            let st2 = arm_step(st1, s2, a2, self2);
            let t2 = st1.next_token;
            &&& fired(st2, t1) is None
            &&& fire_step(st2, t1) == st2
            &&& fired(st2, t2) == Some(Dispatch { snapshot: s2, args: a2, is_self: self2 })
            &&& fired(fire_step(st2, t2), late) is None
        }),
{
}

} // verus!
