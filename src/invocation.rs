//! From a reassembled chat message to a command invocation: who sent it, and
//! which words follow the `cef` keyword.

use vstd::prelude::*;
use crate::color::{pieces, remove_color, split_on, views, visible, lemma_pieces_nonempty};

verus! {

/// The word that addresses a message to this plugin.
pub open spec fn keyword() -> Seq<char> {
    seq!['c', 'e', 'f']
}

/// Whether `s` holds the separator `": "` at position `k`.
pub open spec fn is_separator_at(s: Seq<char>, k: int) -> bool {
    0 <= k && k + 1 < s.len() && s[k] == ':' && s[k + 1] == ' '
}

/// Whether `k` is the leftmost position of the separator `": "` in `s`.
pub open spec fn is_first_separator(s: Seq<char>, k: int) -> bool {
    is_separator_at(s, k) && forall|j: int| 0 <= j < k ==> !is_separator_at(s, j)
}

/// Who sent a message: the local player, or the player shown under a
/// (possibly decorated) nickname.
pub enum Sender {
    Local,
    Named(String),
}

/// A message with its sender told apart from what was said.
pub struct Said {
    pub sender: Sender,
    pub text: String,
}

/// The sender as a value: `None` for the local player, else the nickname.
pub open spec fn sender_view(s: Sender) -> Option<Seq<char>> {
    match s {
        Sender::Local => None,
        Sender::Named(n) => Some(n@),
    }
}

/// The sender of `message` and what it says. In a single-player game there is
/// no other player and the whole message is the local player's; otherwise
/// the nickname stands before the leftmost `": "` and the text after it.
pub open spec fn said_of(message: Seq<char>, single_player: bool) -> Option<
    (Option<Seq<char>>, Seq<char>),
> {
    if single_player {
        Some((None, message))
    } else if exists|k: int| is_first_separator(message, k) {
        let k = choose|k: int| is_first_separator(message, k);
        Some((Some(message.take(k)), message.skip(k + 2)))
    } else {
        None
    }
}

/// The words of a command addressed by `said`: the words after the first,
/// when that first word reads `cef` once its colour codes are dropped.
pub open spec fn invocation_of(said: Seq<char>) -> Option<Seq<Seq<char>>> {
    let words = pieces(said, ' ');
    if visible(words[0]) == keyword() {
        Some(words.drop_first())
    } else {
        None
    }
}

proof fn lemma_first_separator_unique(s: Seq<char>, a: int, b: int)
    requires
        is_first_separator(s, a),
        is_first_separator(s, b),
    ensures
        a == b,
{
}

/// The leftmost position of `": "` in `message`, if it holds one.
fn find_separator(message: &str) -> (r: Option<usize>)
    ensures
        r is Some ==> is_first_separator(message@, r->0 as int),
        r is None ==> forall|k: int| !is_separator_at(message@, k),
{
    let n = message.unicode_len();
    let mut k: usize = 0;
    while k < n && k + 1 < n
        invariant
            n == message@.len(),
            k <= n,
            forall|j: int| 0 <= j < k ==> !is_separator_at(message@, j),
        decreases n - k,
    {
        if message.get_char(k) == ':' && message.get_char(k + 1) == ' ' {
            return Some(k);
        }
        k = k + 1;
    }
    None
}

/// Splits a message into its sender and what was said; `None` where a
/// message of a multi-player game holds no `": "`.
pub fn find_player_from_message(message: &str, single_player: bool) -> (r: Option<Said>)
    ensures
        r is None <==> said_of(message@, single_player) is None,
        r is Some ==> said_of(message@, single_player) == Some(
            (sender_view(r->0.sender), r->0.text@),
        ),
{
    if single_player {
        return Some(Said { sender: Sender::Local, text: String::from_str(message) });
    }
    match find_separator(message) {
        Some(k) => {
            let n = message.unicode_len();
            let nick = String::from_str(message.substring_char(0, k));
            let text = String::from_str(message.substring_char(k + 2, n));
            proof {
                let c = choose|j: int| is_first_separator(message@, j);
                lemma_first_separator_unique(message@, c, k as int);
                assert(nick@ =~= message@.take(k as int));
                assert(text@ =~= message@.skip(k + 2));
            }
            Some(Said { sender: Sender::Named(nick), text })
        },
        None => None,
    }
}

/// Whether `s` is exactly the keyword.
fn is_keyword(s: &str) -> (r: bool)
    ensures
        r == (s@ == keyword()),
{
    if s.unicode_len() != 3 {
        return false;
    }
    let r = s.get_char(0) == 'c' && s.get_char(1) == 'e' && s.get_char(2) == 'f';
    assert(r == (s@ =~= keyword()));
    r
}

/// The command words of `said` when it is addressed with the keyword: `said`
/// is split at each single space, and the first word, once its colour codes
/// are dropped, must read `cef`; the words after it are returned.
pub fn extract_invocation(said: &str) -> (r: Option<Vec<String>>)
    ensures
        r is None <==> invocation_of(said@) is None,
        r is Some ==> invocation_of(said@) == Some(views(r->0@)),
{
    let mut words = split_on(said, ' ');
    proof {
        lemma_pieces_nonempty(said@, ' ');
    }
    assert(words@[0]@ == views(words@)[0]);
    let first = remove_color(words[0].as_str());
    if !is_keyword(first.as_str()) {
        return None;
    }
    let ghost all = views(words@);
    words.remove(0);
    assert(views(words@) =~= all.drop_first());
    Some(words)
}

} // verus!
