//! The order in which the handler groups are asked to run a command, and
//! what is shown when a command fails.

use vstd::prelude::*;

verus! {

/// The groups of command handlers.
#[derive(PartialEq, Eq, Structural, Clone, Copy, Debug)]
pub enum HandlerGroup {
    /// Commands anyone may run.
    Static,
    /// Commands that only the local player may run.
    SelfCommands,
    /// Commands that change options.
    Options,
    /// Commands on screens in the world.
    Screens,
}

/// The groups asked, in order: the self and option groups only for a
/// command of the local player.
pub open spec fn route_order(is_self: bool) -> Seq<HandlerGroup> {
    if is_self {
        seq![HandlerGroup::Static, HandlerGroup::SelfCommands, HandlerGroup::Options, HandlerGroup::Screens]
    } else {
        seq![HandlerGroup::Static, HandlerGroup::Screens]
    }
}

/// What the router does next.
#[derive(PartialEq, Eq, Structural, Clone, Copy, Debug)]
pub enum RouteStep {
    /// Ask this group to run the command.
    Try(HandlerGroup),
    /// A group has run the command: stop.
    Handled,
    /// Every group declined the command.
    Unrecognized,
}

/// The next step after the groups asked so far answered `answers`, in
/// `route_order`: stop at the first group that claimed the command, else ask
/// the next group, else report the command as unrecognized.
pub open spec fn next_step(is_self: bool, answers: Seq<bool>) -> RouteStep {
    if answers.contains(true) {
        RouteStep::Handled
    } else if answers.len() < route_order(is_self).len() {
        RouteStep::Try(route_order(is_self)[answers.len() as int])
    } else {
        RouteStep::Unrecognized
    }
}

/// The groups asked, in order.
pub fn handler_groups(is_self: bool) -> (r: Vec<HandlerGroup>)
    ensures
        r@ == route_order(is_self),
{
    let r = if is_self {
        vec![HandlerGroup::Static, HandlerGroup::SelfCommands, HandlerGroup::Options, HandlerGroup::Screens]
    } else {
        vec![HandlerGroup::Static, HandlerGroup::Screens]
    };
    assert(r@ =~= route_order(is_self));
    r
}

/// The next step of routing a command, given the answers of the groups asked
/// so far (`true` where a group claimed the command).
pub fn route_step(is_self: bool, answers: &Vec<bool>) -> (r: RouteStep)
    ensures
        r == next_step(is_self, answers@),
{
    let mut i: usize = 0;
    while i < answers.len()
        invariant
            i <= answers.len(),
            forall|j: int| 0 <= j < i ==> !answers@[j],
        decreases answers.len() - i,
    {
        if answers[i] {
            assert(answers@.contains(true)) by {
                assert(answers@[i as int] == true);
            }
            return RouteStep::Handled;
        }
        i = i + 1;
    }
    assert(!answers@.contains(true));
    let order = handler_groups(is_self);
    if answers.len() < order.len() {
        RouteStep::Try(order[answers.len()])
    } else {
        RouteStep::Unrecognized
    }
}

/// The text shown for a failed command: only the local player is told, with
/// `cef command error: ` before the error's own text.
pub fn command_error_text(is_self: bool, error: &str) -> (r: Option<String>)
    ensures
        is_self ==> r is Some && r->0@ == "cef command error: "@ + error@,
        !is_self ==> r is None,
{
    if is_self {
        Some(String::from_str("cef command error: ").concat(error))
    } else {
        None
    }
}

} // verus!
