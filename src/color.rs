//! Colour codes: `&` followed by one character selects a colour. These helpers
//! find the colour in effect at the end of a line, strip the codes, and carry a
//! colour run over the line breaks of a multi-line block.

use vstd::prelude::*;

verus! {

/// The colour code that resets to plain white; it is never carried over.
pub const RESET_COLOR: char = 'f';

/// Colour selected by the last escape of `s`, scanning from the left with
/// `amp` set when the previous character was an unconsumed `&`, and `last`
/// the colour seen so far. A `&` right after a `&` opens a fresh escape.
pub open spec fn color_scan(s: Seq<char>, amp: bool, last: Option<char>) -> Option<char>
    decreases s.len(),
{
    if s.len() == 0 {
        last
    } else if s[0] == '&' {
        color_scan(s.drop_first(), true, last)
    } else if amp {
        color_scan(s.drop_first(), false, Some(s[0]))
    } else {
        color_scan(s.drop_first(), false, last)
    }
}

/// The colour in effect at the end of `s`, if any escape selects one.
pub open spec fn last_color(s: Seq<char>) -> Option<char> {
    color_scan(s, false, None)
}

/// The characters of `s` that are shown, under the same scan as `color_scan`.
pub open spec fn strip_scan(s: Seq<char>, amp: bool) -> Seq<char>
    decreases s.len(),
{
    if s.len() == 0 {
        Seq::empty()
    } else if s[0] == '&' {
        strip_scan(s.drop_first(), true)
    } else if amp {
        strip_scan(s.drop_first(), false)
    } else {
        seq![s[0]] + strip_scan(s.drop_first(), false)
    }
}

/// The visible text of `s`: `s` without its colour escapes.
pub open spec fn visible(s: Seq<char>) -> Seq<char> {
    strip_scan(s, false)
}

/// `s` split at each `sep`, as `str::split` does with one character: `n`
/// separators give `n + 1` pieces, none of which holds `sep`.
pub open spec fn pieces(s: Seq<char>, sep: char) -> Seq<Seq<char>>
    decreases s.len(),
{
    if s.len() == 0 {
        seq![Seq::empty()]
    } else {
        let p = pieces(s.drop_last(), sep);
        if s.last() == sep {
            p.push(Seq::empty())
        } else {
            p.update(p.len() - 1, p.last().push(s.last()))
        }
    }
}

/// `s` split at each newline.
pub open spec fn split_lines(s: Seq<char>) -> Seq<Seq<char>> {
    pieces(s, '\n')
}

/// The pieces of `lines` joined with a newline between each two.
pub open spec fn join_lines(lines: Seq<Seq<char>>) -> Seq<char>
    decreases lines.len(),
{
    if lines.len() <= 1 {
        if lines.len() == 0 {
            Seq::empty()
        } else {
            lines[0]
        }
    } else {
        join_lines(lines.drop_last()) + seq!['\n'] + lines.last()
    }
}

/// `line` as emitted after a line that left `carry` in effect: a colour other
/// than the reset colour is repeated at its start.
pub open spec fn prefixed(line: Seq<char>, carry: Option<char>) -> Seq<char> {
    if carry is Some && carry->0 != RESET_COLOR {
        seq!['&', carry->0] + line
    } else {
        line
    }
}

/// The colour left in effect by the last emitted line, none before the first.
pub open spec fn carry_of(emitted: Seq<Seq<char>>) -> Option<char> {
    if emitted.len() == 0 {
        None
    } else {
        last_color(emitted.last())
    }
}

/// `lines` as emitted, each after the colour that the one before left.
pub open spec fn format_lines(lines: Seq<Seq<char>>) -> Seq<Seq<char>>
    decreases lines.len(),
{
    if lines.len() == 0 {
        Seq::empty()
    } else {
        let p = format_lines(lines.drop_last());
        p.push(prefixed(lines.last(), carry_of(p)))
    }
}

/// The lines that `text` is emitted as.
pub open spec fn formatted(text: Seq<char>) -> Seq<Seq<char>> {
    format_lines(split_lines(text))
}

/// What a sequence of strings holds, as character sequences.
pub open spec fn views(v: Seq<String>) -> Seq<Seq<char>> {
    v.map_values(|l: String| l@)
}

/// Whether `c` is white space as `char::is_whitespace` decides it.
pub uninterp spec fn white_space(c: char) -> bool;

/// `s` without its leading white space.
pub open spec fn trim_front(s: Seq<char>) -> Seq<char>
    decreases s.len(),
{
    if s.len() > 0 && white_space(s[0]) {
        trim_front(s.drop_first())
    } else {
        s
    }
}

/// `s` without its trailing white space.
pub open spec fn trim_back(s: Seq<char>) -> Seq<char>
    decreases s.len(),
{
    if s.len() > 0 && white_space(s.last()) {
        trim_back(s.drop_last())
    } else {
        s
    }
}

/// Relies on `str::trim`: it removes the leading and the trailing characters
/// for which `char::is_whitespace` holds, and nothing else.
#[verifier::external_body]
fn trim_str<'a>(s: &'a str) -> (r: &'a str)
    ensures
        r@ == trim_back(trim_front(s@)),
        r@.len() > 0 ==> !white_space(r@[0]) && !white_space(r@.last()),
{
    s.trim()
}

/// Relies on `String::push`: it appends the one character.
#[verifier::external_body]
fn push_char(s: &mut String, c: char)
    ensures
        final(s)@ == old(s)@.push(c),
{
    s.push(c)
}

/// The colour in effect at the end of `text`: the character after the last
/// `&` escape, if there is one.
pub fn get_last_color(text: &str) -> (r: Option<char>)
    ensures
        r == last_color(text@),
{
    let n = text.unicode_len();
    let mut last: Option<char> = None;
    let mut amp = false;
    let mut i: usize = 0;
    assert(text@.subrange(0, n as int) =~= text@);
    while i < n
        invariant
            n == text@.len(),
            i <= n,
            color_scan(text@.subrange(i as int, n as int), amp, last) == last_color(text@),
        decreases n - i,
    {
        let c = text.get_char(i);
        assert(text@.subrange(i as int, n as int).drop_first() =~= text@.subrange(
            i + 1,
            n as int,
        ));
        if c == '&' {
            amp = true;
        } else if amp {
            amp = false;
            last = Some(c);
        }
        i = i + 1;
    }
    assert(text@.subrange(n as int, n as int) =~= Seq::<char>::empty());
    last
}

/// `text` without its colour escapes: each `&` and the character after it
/// are dropped.
pub fn remove_color(text: &str) -> (r: String)
    ensures
        r@ == visible(text@),
{
    let n = text.unicode_len();
    let mut out = String::new();
    let mut amp = false;
    let mut i: usize = 0;
    assert(text@.subrange(0, n as int) =~= text@);
    assert(out@ + visible(text@) =~= visible(text@));
    while i < n
        invariant
            n == text@.len(),
            i <= n,
            out@ + strip_scan(text@.subrange(i as int, n as int), amp) == visible(text@),
        decreases n - i,
    {
        let c = text.get_char(i);
        assert(text@.subrange(i as int, n as int).drop_first() =~= text@.subrange(
            i + 1,
            n as int,
        ));
        if c == '&' {
            amp = true;
        } else if amp {
            amp = false;
        } else {
            assert(out@.push(c) + strip_scan(text@.subrange(i + 1, n as int), false) =~= out@
                + (seq![c] + strip_scan(text@.subrange(i + 1, n as int), false)));
            push_char(&mut out, c);
        }
        i = i + 1;
    }
    assert(text@.subrange(n as int, n as int) =~= Seq::<char>::empty());
    assert(out@ + Seq::<char>::empty() =~= out@);
    out
}

pub proof fn lemma_pieces_nonempty(s: Seq<char>, sep: char)
    ensures
        pieces(s, sep).len() >= 1,
    decreases s.len(),
{
    if s.len() > 0 {
        lemma_pieces_nonempty(s.drop_last(), sep);
    }
}

proof fn lemma_split_nonempty(s: Seq<char>)
    ensures
        split_lines(s).len() >= 1,
{
    lemma_pieces_nonempty(s, '\n');
}

/// Whether `s` holds no newline.
pub open spec fn single_line(s: Seq<char>) -> bool {
    forall|i: int| 0 <= i < s.len() ==> s[i] != '\n'
}

proof fn lemma_color_scan_source(s: Seq<char>, amp: bool, last: Option<char>)
    ensures
        color_scan(s, amp, last) == last || exists|k: int|
            0 <= k < s.len() && s[k] != '&' && color_scan(s, amp, last) == Some(s[k]),
    decreases s.len(),
{
    if s.len() > 0 {
        let t = s.drop_first();
        if s[0] == '&' {
            lemma_color_scan_source(t, true, last);
        } else if amp {
            lemma_color_scan_source(t, false, Some(s[0]));
        } else {
            lemma_color_scan_source(t, false, last);
        }
        if color_scan(s, amp, last) != last && color_scan(s, amp, last) != Some(s[0]) {
            let k = choose|k: int|
                0 <= k < t.len() && t[k] != '&' && color_scan(s, amp, last) == Some(t[k]);
            assert(s[k + 1] == t[k]);
        }
    }
}

/// The colour left by a single line is neither `&` nor a newline.
proof fn lemma_last_color_plain(s: Seq<char>)
    requires
        single_line(s),
    ensures
        last_color(s) != Some('&'),
        last_color(s) != Some('\n'),
{
    lemma_color_scan_source(s, false, None);
}

proof fn lemma_strip_escape(c: char, t: Seq<char>)
    requires
        c != '&',
    ensures
        visible(seq!['&', c] + t) == visible(t),
{
    let s = seq!['&', c] + t;
    assert(s.drop_first() =~= seq![c] + t);
    assert((seq![c] + t).drop_first() =~= t);
    assert(strip_scan(s, false) == strip_scan(seq![c] + t, true));
    assert(strip_scan(seq![c] + t, true) == strip_scan(t, false));
}

proof fn lemma_format_lines(lines: Seq<Seq<char>>)
    requires
        forall|i: int| 0 <= i < lines.len() ==> single_line(#[trigger] lines[i]),
    ensures
        format_lines(lines).len() == lines.len(),
        forall|i: int|
            0 <= i < lines.len() ==> visible(#[trigger] format_lines(lines)[i]) == visible(
                lines[i],
            ),
        forall|i: int| 0 <= i < lines.len() ==> single_line(#[trigger] format_lines(lines)[i]),
    decreases lines.len(),
{
    if lines.len() > 0 {
        let q = lines.drop_last();
        lemma_format_lines(q);
        let p = format_lines(q);
        let line = lines.last();
        let carry = carry_of(p);
        assert(single_line(line));
        if p.len() > 0 {
            lemma_last_color_plain(p.last());
        }
        if carry is Some && carry->0 != RESET_COLOR {
            lemma_strip_escape(carry->0, line);
            let e = seq!['&', carry->0] + line;
            assert forall|i: int| 0 <= i < e.len() implies e[i] != '\n' by {
                if i >= 2 {
                    assert(e[i] == line[i - 2]);
                }
            }
        }
        let f = format_lines(lines);
        assert forall|i: int| 0 <= i < lines.len() implies visible(#[trigger] f[i]) == visible(
            lines[i],
        ) && single_line(f[i]) by {
            if i < q.len() {
                assert(f[i] == p[i]);
                assert(lines[i] == q[i]);
            }
        }
    }
}

proof fn lemma_split_single(s: Seq<char>)
    ensures
        forall|i: int| 0 <= i < split_lines(s).len() ==> single_line(#[trigger] split_lines(s)[i]),
    decreases s.len(),
{
    lemma_split_nonempty(s);
    if s.len() > 0 {
        let t = s.drop_last();
        lemma_split_single(t);
        lemma_split_nonempty(t);
        let p = split_lines(t);
        if s.last() != '\n' {
            let l = p.last().push(s.last());
            assert(single_line(p[p.len() - 1]));
            assert forall|j: int| 0 <= j < l.len() implies l[j] != '\n' by {
                if j < p.last().len() {
                    assert(l[j] == p.last()[j]);
                }
            }
        }
        assert forall|i: int| 0 <= i < split_lines(s).len() implies single_line(
            #[trigger] split_lines(s)[i],
        ) by {
            if i < p.len() - 1 {
                assert(split_lines(s)[i] == p[i]);
            }
        }
    }
}

proof fn lemma_split_append(a: Seq<char>, b: Seq<char>)
    requires
        single_line(b),
    ensures
        split_lines(a + b) == split_lines(a).update(
            split_lines(a).len() - 1,
            split_lines(a).last() + b,
        ),
    decreases b.len(),
{
    lemma_split_nonempty(a);
    let p = split_lines(a);
    if b.len() == 0 {
        assert(a + b =~= a);
        assert(p.last() + b =~= p.last());
        assert(p.update(p.len() - 1, p.last()) =~= p);
    } else {
        let b0 = b.drop_last();
        assert(single_line(b0)) by {
            assert forall|j: int| 0 <= j < b0.len() implies b0[j] != '\n' by {
                assert(b0[j] == b[j]);
            }
        }
        lemma_split_append(a, b0);
        assert((a + b).drop_last() =~= a + b0);
        assert((a + b).last() == b.last());
        assert(b.last() != '\n');
        assert((p.last() + b0).push(b.last()) =~= p.last() + b);
        assert(split_lines(a + b) =~= p.update(p.len() - 1, p.last() + b));
    }
}

proof fn lemma_split_join(lines: Seq<Seq<char>>)
    requires
        lines.len() >= 1,
        forall|i: int| 0 <= i < lines.len() ==> single_line(#[trigger] lines[i]),
    ensures
        split_lines(join_lines(lines)) == lines,
    decreases lines.len(),
{
    if lines.len() == 1 {
        lemma_split_append(Seq::empty(), lines[0]);
        assert(Seq::<char>::empty() + lines[0] =~= lines[0]);
        assert(Seq::<char>::empty() + lines[0] =~= lines[0]);
        assert(split_lines(lines[0]) =~= lines);
    } else {
        let q = lines.drop_last();
        assert forall|i: int| 0 <= i < q.len() implies single_line(#[trigger] q[i]) by {
            assert(q[i] == lines[i]);
        }
        lemma_split_join(q);
        let a = join_lines(q) + seq!['\n'];
        assert(a.drop_last() =~= join_lines(q));
        assert(split_lines(a) == q.push(Seq::empty()));
        assert(single_line(lines.last()));
        lemma_split_append(a, lines.last());
        assert(join_lines(lines) == a + lines.last());
        assert(Seq::<char>::empty() + lines.last() =~= lines.last());
        assert(split_lines(join_lines(lines)) =~= lines);
    }
}

/// Formatting is idempotent on what is shown: formatting the newline-joined
/// output of `format_multiline` again gives as many lines, each with the same
/// visible characters as before.
pub proof fn law_format_idempotent(x: Seq<char>)
    ensures
        formatted(join_lines(formatted(x))).len() == formatted(x).len(),
        forall|i: int|
            0 <= i < formatted(x).len() ==> visible(
                #[trigger] formatted(join_lines(formatted(x)))[i],
            ) == visible(formatted(x)[i]),
{
    let parts = split_lines(x);
    lemma_split_single(x);
    lemma_split_nonempty(x);
    lemma_format_lines(parts);
    let out = formatted(x);
    lemma_split_join(out);
    lemma_format_lines(out);
}

/// The pieces of `text` between its occurrences of `sep`.
pub fn split_on(text: &str, sep: char) -> (r: Vec<String>)
    ensures
        views(r@) == pieces(text@, sep),
{
    let n = text.unicode_len();
    let mut done: Vec<String> = Vec::new();
    let mut cur = String::new();
    let mut i: usize = 0;
    proof {
        assert(text@.take(0) =~= Seq::<char>::empty());
        assert(views(done@).push(cur@) =~= seq![Seq::<char>::empty()]);
    }
    while i < n
        invariant
            n == text@.len(),
            i <= n,
            views(done@).push(cur@) == pieces(text@.take(i as int), sep),
        decreases n - i,
    {
        let c = text.get_char(i);
        proof {
            lemma_pieces_nonempty(text@.take(i as int), sep);
            assert(text@.take(i + 1).drop_last() =~= text@.take(i as int));
        }
        if c == sep {
            let line = cur;
            cur = String::new();
            done.push(line);
            assert(views(done@).push(cur@) =~= pieces(text@.take(i + 1), sep));
        } else {
            push_char(&mut cur, c);
            assert(views(done@).push(cur@) =~= pieces(text@.take(i + 1), sep));
        }
        i = i + 1;
    }
    done.push(cur);
    assert(text@.take(n as int) =~= text@);
    assert(views(done@) =~= pieces(text@, sep));
    done
}

/// The lines of `text`, each but the first opened with the colour that the
/// line before it left in effect, unless that colour is the reset colour.
pub fn format_multiline(text: &str) -> (r: Vec<String>)
    ensures
        views(r@) == formatted(text@),
{
    let lines = split_on(text, '\n');
    let mut out: Vec<String> = Vec::new();
    let mut carry: Option<char> = None;
    let mut i: usize = 0;
    while i < lines.len()
        invariant
            i <= lines.len(),
            views(lines@) == split_lines(text@),
            views(out@) == format_lines(views(lines@).take(i as int)),
            carry == carry_of(views(out@)),
        decreases lines.len() - i,
    {
        let line = &lines[i];
        let message = match carry {
            Some(c) if c != RESET_COLOR => {
                let mut m = String::new();
                push_char(&mut m, '&');
                push_char(&mut m, c);
                m.append(line.as_str());
                assert(m@ =~= seq!['&', c] + line@);
                m
            },
            _ => line.clone(),
        };
        carry = get_last_color(message.as_str());
        out.push(message);
        proof {
            assert(views(lines@).take(i + 1).drop_last() =~= views(lines@).take(i as int));
            assert(views(out@) =~= format_lines(views(lines@).take(i + 1)));
        }
        i = i + 1;
    }
    assert(views(lines@).take(lines.len() as int) =~= views(lines@));
    out
}

/// The lines that the message `s` is shown as: `s` without its surrounding
/// white space, formatted as `format_multiline` does.
pub fn chat_print_lines(s: &str) -> (r: Vec<String>)
    ensures
        views(r@) == formatted(trim_back(trim_front(s@))),
{
    format_multiline(trim_str(s))
}

} // verus!
