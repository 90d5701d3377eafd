//! Reassembly of messages that the server split over several chat lines.
//!
//! When a message is too long for one line the server sends the rest on a
//! new line that opens with the continuation marker `> &f`. The reassembler
//! keeps the most recent message and glues such a line onto it.

use vstd::prelude::*;

verus! {

/// The marker that opens a continuation line: `> ` and the colour code `&f`.
pub open spec fn continuation_marker() -> Seq<char> {
    seq!['>', ' ', '&', 'f']
}

/// Whether `line` opens with the continuation marker.
pub open spec fn is_continuation(line: Seq<char>) -> bool {
    line.len() >= 4 && line.take(4) == continuation_marker()
}

/// The text that a continuation line adds: the line without its marker.
pub open spec fn continuation_body(line: Seq<char>) -> Seq<char> {
    line.skip(4)
}

/// The message after `line` arrives while `pending` is held: a continuation
/// line is appended to the held message without its marker (and stands alone,
/// without its marker, when nothing is held); any other line stands alone.
pub open spec fn merged_text(pending: Option<Seq<char>>, line: Seq<char>) -> Seq<char> {
    if is_continuation(line) {
        match pending {
            Some(p) => p + continuation_body(line),
            None => continuation_body(line),
        }
    } else {
        line
    }
}

/// Whether `line` continues the held message.
pub open spec fn continues(pending: Option<Seq<char>>, line: Seq<char>) -> bool {
    is_continuation(line) && pending is Some
}

/// The message held after each of `lines` has arrived, in order, starting
/// from `pending`.
pub open spec fn feed(pending: Option<Seq<char>>, lines: Seq<Seq<char>>) -> Option<Seq<char>>
    decreases lines.len(),
{
    if lines.len() == 0 {
        pending
    } else {
        Some(merged_text(feed(pending, lines.drop_last()), lines.last()))
    }
}

/// The bodies of `fragments`, one after the other.
pub open spec fn concat_bodies(fragments: Seq<Seq<char>>) -> Seq<char>
    decreases fragments.len(),
{
    if fragments.len() == 0 {
        Seq::empty()
    } else {
        concat_bodies(fragments.drop_last()) + continuation_body(fragments.last())
    }
}

/// The result of one line: the whole message it belongs to, and whether it
/// continued the message held before.
pub struct Reassembled {
    pub text: String,
    pub continued: bool,
}

/// Holds the most recent message of one chat connection.
pub struct Reassembler {
    pending: Option<String>,
}

impl View for Reassembler {
    type V = Option<Seq<char>>;

    closed spec fn view(&self) -> Option<Seq<char>> {
        match self.pending {
            Some(s) => Some(s@),
            None => None,
        }
    }
}

/// Whether `line` opens with the continuation marker.
pub fn starts_with_marker(line: &str) -> (r: bool)
    ensures
        r == is_continuation(line@),
{
    let n = line.unicode_len();
    if n < 4 {
        return false;
    }
    let r = line.get_char(0) == '>' && line.get_char(1) == ' ' && line.get_char(2) == '&'
        && line.get_char(3) == 'f';
    assert(r == (line@.take(4) =~= continuation_marker()));
    r
}

impl Reassembler {
    /// A reassembler that holds no message.
    pub fn new() -> (r: Self)
        ensures
            r@ == None::<Seq<char>>,
    {
        Reassembler { pending: None }
    }

    /// Takes the next line: a continuation line is appended to the held
    /// message without its marker; any other line replaces the held message.
    /// The message that results is held and returned.
    pub fn reassemble(&mut self, line: &str) -> (r: Reassembled)
        ensures
            r.text@ == merged_text(old(self)@, line@),
            r.continued == continues(old(self)@, line@),
            final(self)@ == Some(r.text@),
    {
        let marked = starts_with_marker(line);
        let text = if marked {
            let body = line.substring_char(4, line.unicode_len());
            match &self.pending {
                Some(held) => {
                    let mut merged = held.clone();
                    merged.append(body);
                    Reassembled { text: merged, continued: true }
                },
                None => Reassembled { text: String::from_str(body), continued: false },
            }
        } else {
            Reassembled { text: String::from_str(line), continued: false }
        };
        self.pending = Some(text.text.clone());
        text
    }
}

/// A line without the marker replaces whatever message was held before:
/// the result is that line alone.
pub proof fn law_new_line_replaces(pending: Option<Seq<char>>, line: Seq<char>)
    requires
        !is_continuation(line),
    ensures
        merged_text(pending, line) == line,
        !continues(pending, line),
{
}

/// Continuation fragments accumulate: after a message `start` and any number
/// of continuation lines, the held message is `start` followed by the
/// fragments' bodies, whatever the number of fragments.
pub proof fn law_continuations_accumulate(start: Seq<char>, fragments: Seq<Seq<char>>)
    requires
        forall|i: int| 0 <= i < fragments.len() ==> is_continuation(#[trigger] fragments[i]),
    ensures
        feed(Some(start), fragments) == Some(start + concat_bodies(fragments)),
    decreases fragments.len(),
{
    if fragments.len() == 0 {
        assert(start + Seq::<char>::empty() =~= start);
    } else {
        let q = fragments.drop_last();
        assert forall|i: int| 0 <= i < q.len() implies is_continuation(#[trigger] q[i]) by {
            assert(q[i] == fragments[i]);
        }
        law_continuations_accumulate(start, q);
        assert(is_continuation(fragments[fragments.len() - 1]));
        assert(start + concat_bodies(q) + continuation_body(fragments.last()) =~= start
            + concat_bodies(fragments));
    }
}

/// Feeding lines in two batches holds the same message as feeding them at once.
pub proof fn law_feed_split(pending: Option<Seq<char>>, a: Seq<Seq<char>>, b: Seq<Seq<char>>)
    ensures
        feed(feed(pending, a), b) == feed(pending, a + b),
    decreases b.len(),
{
    if b.len() == 0 {
        assert(a + b =~= a);
    } else {
        law_feed_split(pending, a, b.drop_last());
        assert((a + b).drop_last() =~= a + b.drop_last());
        assert((a + b).last() == b.last());
    }
}

} // verus!
