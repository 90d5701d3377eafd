use cef_chat::chat::{ChatCore, MessageKind};
use cef_chat::color::{chat_print_lines, format_multiline, get_last_color, remove_color, split_on};
use cef_chat::dispatch::Dispatcher;
use cef_chat::invocation::{extract_invocation, find_player_from_message, Sender};
use cef_chat::reassembly::{starts_with_marker, Reassembler};
use cef_chat::router::{command_error_text, handler_groups, route_step, HandlerGroup, RouteStep};

fn words(v: &[&str]) -> Vec<String> {
    v.iter().map(|s| s.to_string()).collect()
}

#[test]
fn last_color_takes_the_last_escape() {
    assert_eq!(get_last_color("&aHello &bworld"), Some('b'));
    assert_eq!(get_last_color("plain"), None);
    assert_eq!(get_last_color("&&x"), Some('x'));
    assert_eq!(get_last_color("ab&"), None);
    assert_eq!(get_last_color(""), None);
}

#[test]
fn remove_color_drops_escapes() {
    assert_eq!(remove_color("&aHi &bthere"), "Hi there");
    assert_eq!(remove_color("&&xy"), "y");
    assert_eq!(remove_color("no codes"), "no codes");
}

#[test]
fn split_on_keeps_empty_pieces() {
    assert_eq!(split_on("a b  c", ' '), words(&["a", "b", "", "c"]));
    assert_eq!(split_on("", '\n'), words(&[""]));
    assert_eq!(split_on("x\n", '\n'), words(&["x", ""]));
}

#[test]
fn format_multiline_carries_colour() {
    assert_eq!(
        format_multiline("&aone\ntwo\n&fthree\nfour"),
        words(&["&aone", "&atwo", "&a&fthree", "four"])
    );
    assert_eq!(format_multiline("single"), words(&["single"]));
}

#[test]
fn chat_print_lines_trims_then_formats() {
    assert_eq!(chat_print_lines("  &cerr\nmore  \n"), words(&["&cerr", "&cmore"]));
}

#[test]
fn format_twice_keeps_visible_text() {
    let x = "&ca\nb\n&ec";
    let once = format_multiline(x);
    assert_eq!(once, words(&["&ca", "&cb", "&c&ec"]));
    let twice = format_multiline(&once.join("\n"));
    assert_eq!(twice.len(), once.len());
    for (a, b) in once.iter().zip(twice.iter()) {
        assert_eq!(remove_color(a), remove_color(b));
    }
    assert_eq!(twice, words(&["&ca", "&c&cb", "&c&c&ec"]));
}

#[test]
fn continuation_fragments_accumulate() {
    let mut r = Reassembler::new();
    let first = r.reassemble("Joe: a long");
    assert_eq!(first.text, "Joe: a long");
    assert!(!first.continued);
    let second = r.reassemble("> &f message");
    assert_eq!(second.text, "Joe: a long message");
    assert!(second.continued);
    let third = r.reassemble("> &f that goes on");
    assert_eq!(third.text, "Joe: a long message that goes on");
    assert!(third.continued);
}

#[test]
fn new_line_replaces_held_message() {
    let mut r = Reassembler::new();
    r.reassemble("Ann: hello");
    let next = r.reassemble("Bob: > &f inside");
    assert_eq!(next.text, "Bob: > &f inside");
    assert!(!next.continued);
    let cont = r.reassemble("> &fmore");
    assert_eq!(cont.text, "Bob: > &f insidemore");
}

#[test]
fn continuation_without_held_message_stands_alone() {
    let mut r = Reassembler::new();
    let first = r.reassemble("> &fJoe: hi");
    assert_eq!(first.text, "Joe: hi");
    assert!(!first.continued);
    assert!(starts_with_marker("> &fx"));
    assert!(!starts_with_marker("> &ex"));
    assert!(!starts_with_marker("> &"));
}

#[test]
fn sender_is_split_at_first_separator() {
    let said = find_player_from_message("&]SpiralP: &faaa: b", false).unwrap();
    match said.sender {
        Sender::Named(n) => assert_eq!(n, "&]SpiralP"),
        Sender::Local => panic!("expected a named sender"),
    }
    assert_eq!(said.text, "&faaa: b");
    assert!(find_player_from_message("no separator here", false).is_none());
    let local = find_player_from_message("Joe: cef x", true).unwrap();
    assert!(matches!(local.sender, Sender::Local));
    assert_eq!(local.text, "Joe: cef x");
}

#[test]
fn keyword_is_tested_without_colours() {
    assert_eq!(extract_invocation("&acef create"), Some(words(&["create"])));
    assert_eq!(extract_invocation("cef"), Some(Vec::new()));
    assert_eq!(extract_invocation("cefx a"), None);
    assert_eq!(extract_invocation("Cef a"), None);
    assert_eq!(extract_invocation(""), None);
}

#[test]
fn single_player_command_runs_after_quiet_interval() {
    let mut core: ChatCore<u32> = ChatCore::new();
    let cmd = core.handle_chat_received("cef create ag", MessageKind::Normal, true).unwrap();
    assert!(matches!(cmd.sender, Sender::Local));
    assert_eq!(cmd.args, words(&["create", "ag"]));
    let token = core.arm(7, cmd.args, true);
    let run = core.fire(token).unwrap();
    assert_eq!(run.snapshot, 7);
    assert_eq!(run.args, words(&["create", "ag"]));
    assert!(run.is_self);
    assert!(core.fire(token).is_none());
    assert_eq!(route_step(true, &Vec::new()), RouteStep::Try(HandlerGroup::Static));
    assert_eq!(route_step(true, &vec![true]), RouteStep::Handled);
}

#[test]
fn continued_command_runs_once_with_whole_text() {
    let mut core: ChatCore<u32> = ChatCore::new();
    let first = core.handle_chat_received("> &fJoe: cef he", MessageKind::Normal, false).unwrap();
    assert_eq!(first.args, words(&["he"]));
    let t1 = core.arm(1, first.args, false);
    let second = core.handle_chat_received("> &flp", MessageKind::Normal, false).unwrap();
    match second.sender {
        Sender::Named(n) => assert_eq!(n, "Joe"),
        Sender::Local => panic!("expected a named sender"),
    }
    assert_eq!(second.args, words(&["help"]));
    assert!(core.fire(t1).is_none());
    let t2 = core.arm(2, second.args, false);
    assert!(core.fire(t1).is_none());
    let run = core.fire(t2).unwrap();
    assert_eq!(run.args, words(&["help"]));
    assert_eq!(run.snapshot, 2);
    assert!(core.fire(t2).is_none());
}

#[test]
fn unclaimed_command_is_reported_to_operator_only() {
    let declined = vec![false, false, false, false];
    assert_eq!(route_step(true, &declined), RouteStep::Unrecognized);
    assert_eq!(route_step(false, &vec![false, false]), RouteStep::Unrecognized);
    assert_eq!(route_step(false, &vec![false]), RouteStep::Try(HandlerGroup::Screens));
    assert_eq!(
        command_error_text(true, "command not handled? [\"badcmd\"]"),
        Some("cef command error: command not handled? [\"badcmd\"]".to_string())
    );
    assert_eq!(command_error_text(false, "anything"), None);
}

#[test]
fn handler_groups_in_priority_order() {
    assert_eq!(
        handler_groups(true),
        vec![HandlerGroup::Static, HandlerGroup::SelfCommands, HandlerGroup::Options, HandlerGroup::Screens]
    );
    assert_eq!(handler_groups(false), vec![HandlerGroup::Static, HandlerGroup::Screens]);
}

#[test]
fn other_lines_and_plain_chat_are_ignored() {
    let mut core: ChatCore<u32> = ChatCore::new();
    assert!(core.handle_chat_received("cef create", MessageKind::Other, true).is_none());
    assert!(core.handle_chat_received("Joe: hello", MessageKind::Normal, false).is_none());
    assert!(core.handle_chat_received("no separator", MessageKind::Normal, false).is_none());
}

#[test]
fn rearming_cancels_earlier_command() {
    let mut d: Dispatcher<u8> = Dispatcher::new();
    assert!(!d.is_armed());
    let t1 = d.arm(1, words(&["a"]), true);
    let t2 = d.arm(2, words(&["b"]), true);
    assert_ne!(t1, t2);
    assert!(d.fire(t1).is_none());
    assert!(d.is_armed());
    assert_eq!(d.fire(t2).unwrap().args, words(&["b"]));
    let t3 = d.arm(3, Vec::new(), false);
    d.cancel();
    assert!(d.fire(t3).is_none());
}
