//! The chat side of one connection: every received line goes through
//! reassembly, sender resolution and the keyword test, and the commands found
//! are armed for debounced dispatch.

use vstd::prelude::*;
use crate::color::views;
use crate::dispatch::{cancel_step, fire_step, fired, arm_step, well_formed, Dispatch, DispatchState, Dispatcher};
use crate::invocation::{extract_invocation, find_player_from_message, invocation_of, said_of, sender_view, Sender};
use crate::reassembly::{continues, merged_text, Reassembler};

verus! {

/// The kind of a received chat line; only normal chat can hold commands.
#[derive(PartialEq, Eq, Structural, Clone, Copy, Debug)]
pub enum MessageKind {
    Normal,
    Other,
}

/// A command found in chat: its sender and the words after the keyword.
pub struct Command {
    pub sender: Sender,
    pub args: Vec<String>,
}

/// A command as a value: the sender (`None` for the local player) and its words.
pub open spec fn command_view(c: Option<Command>) -> Option<(Option<Seq<char>>, Seq<Seq<char>>)> {
    match c {
        Some(c) => Some((sender_view(c.sender), views(c.args@))),
        None => None,
    }
}

/// The command that the reassembled message `text` holds, if any.
pub open spec fn command_of(text: Seq<char>, single_player: bool) -> Option<
    (Option<Seq<char>>, Seq<Seq<char>>),
> {
    match said_of(text, single_player) {
        Some((sender, said)) => match invocation_of(said) {
            Some(args) => Some((sender, args)),
            None => None,
        },
        None => None,
    }
}

/// The chat state of one connection: the held message and the armed command.
pub struct ChatCore<S> {
    reassembler: Reassembler,
    dispatcher: Dispatcher<S>,
}

impl<S> ChatCore<S> {
    /// The message held for continuation lines.
    pub closed spec fn held(&self) -> Option<Seq<char>> {
        self.reassembler@
    }

    /// The state of the debounced dispatch.
    pub closed spec fn dispatch_state(&self) -> DispatchState<S> {
        self.dispatcher@
    }

    /// A connection that holds no message and has nothing armed.
    pub fn new() -> (r: Self)
        ensures
            r.held() is None,
            r.dispatch_state().pending is None,
            well_formed(r.dispatch_state()),
    {
        ChatCore { reassembler: Reassembler::new(), dispatcher: Dispatcher::new() }
    }

    /// Takes one received line. A line that is not normal chat is ignored.
    /// Otherwise it is reassembled with the held message (a continuation also
    /// cancels the armed command, whose text it completes), and the command
    /// that the whole message addresses to `cef`, if any, is returned.
    pub fn handle_chat_received(&mut self, message: &str, kind: MessageKind, single_player: bool) -> (r: Option<Command>)
        ensures
            kind == MessageKind::Other ==> r is None && final(self).held() == old(self).held()
                && final(self).dispatch_state() == old(self).dispatch_state(),
            kind == MessageKind::Normal ==> {
                let text = merged_text(old(self).held(), message@);
                &&& final(self).held() == Some(text)
                &&& final(self).dispatch_state() == if continues(old(self).held(), message@) {
                    cancel_step(old(self).dispatch_state())
                } else {
                    old(self).dispatch_state()
                }
                &&& command_view(r) == command_of(text, single_player)
            },
            well_formed(old(self).dispatch_state()) ==> well_formed(final(self).dispatch_state()),
    {
        if kind != MessageKind::Normal {
            return None;
        }
        let joined = self.reassembler.reassemble(message);
        if joined.continued {
            self.dispatcher.cancel();
        }
        let said = match find_player_from_message(joined.text.as_str(), single_player) {
            Some(s) => s,
            None => return None,
        };
        match extract_invocation(said.text.as_str()) {
            Some(args) => Some(Command { sender: said.sender, args }),
            None => None,
        }
    }

    /// Arms a command with the snapshot of its sender, cancelling the one
    /// armed before; returns the token that its timer must carry.
    pub fn arm(&mut self, snapshot: S, args: Vec<String>, is_self: bool) -> (token: u64)
        ensures
            final(self).dispatch_state() == arm_step(old(self).dispatch_state(), snapshot, args, is_self),
            final(self).held() == old(self).held(),
            token == old(self).dispatch_state().next_token,
            well_formed(final(self).dispatch_state()),
    {
        self.dispatcher.arm(snapshot, args, is_self)
    }

    /// The timer with `token` went off: returns the command to run, if it is
    /// still the one armed.
    pub fn fire(&mut self, token: u64) -> (r: Option<Dispatch<S>>)
        ensures
            r == fired(old(self).dispatch_state(), token),
            final(self).dispatch_state() == fire_step(old(self).dispatch_state(), token),
            final(self).held() == old(self).held(),
            well_formed(old(self).dispatch_state()) ==> well_formed(final(self).dispatch_state()),
    {
        self.dispatcher.fire(token)
    }

    /// Cancels the armed command, if any.
    pub fn cancel(&mut self)
        ensures
            final(self).dispatch_state() == cancel_step(old(self).dispatch_state()),
            final(self).held() == old(self).held(),
            well_formed(final(self).dispatch_state()),
    {
        self.dispatcher.cancel()
    }
}

} // verus!
