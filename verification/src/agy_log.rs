//! The error that the agent wrote to its own log and nowhere else: finding it
//! in the log's text, and making one clean line of it.
use vstd::prelude::*;
use vstd::slice::slice_subrange;
use crate::text;

verus! {

/// The most bytes that an error message takes.
pub const MAX_MESSAGE_BYTES: usize = 500;

/// The phrases that mark an error, the most specific one first.
pub open spec fn anchors() -> Seq<Seq<char>> {
    seq!["agent executor error:"@, "model unreachable:"@, "RESOURCE_EXHAUSTED"@]
}

/// The last of the lines in which `p` stands.
pub open spec fn last_line_with(ls: Seq<Seq<char>>, p: Seq<char>) -> Option<Seq<char>>
    decreases ls.len(),
{
    if ls.len() == 0 {
        None
    } else if text::contains(ls.last(), p) {
        Some(ls.last())
    } else {
        last_line_with(ls.drop_last(), p)
    }
}

/// `s` without the repetition that the logger puts behind it: what stands
/// before the first ".: ", with its full stop.
pub open spec fn unwrap_message(s: Seq<char>) -> Seq<char> {
    match text::find(s, ".: "@) {
        Some(k) => s.take(k) + "."@,
        None => s,
    }
}

/// The message of a line: from the anchor on, trimmed, unwrapped and clipped.
pub open spec fn clean_message(line: Seq<char>, anchor: Seq<char>) -> Seq<char> {
    match text::find(line, anchor) {
        Some(k) => text::clip(unwrap_message(text::trim(line.skip(k))), MAX_MESSAGE_BYTES as nat),
        None => seq![],
    }
}

/// The message of the last line that holds the given anchor.
pub open spec fn anchored_message(content: Seq<char>, anchor: Seq<char>) -> Option<Seq<char>> {
    match last_line_with(text::lines(content), anchor) {
        Some(line) => Some(clean_message(line, anchor)),
        None => None,
    }
}

/// The error message that a log's text holds: that of the most specific
/// anchor that stands in it.
pub open spec fn error_message(content: Seq<char>) -> Option<Seq<char>> {
    match anchored_message(content, anchors()[0]) {
        Some(m) => Some(m),
        None => match anchored_message(content, anchors()[1]) {
            Some(m) => Some(m),
            None => anchored_message(content, anchors()[2]),
        },
    }
}

/// The last of the lines in which `p` stands.
fn last_with<'a>(ls: &Vec<&'a [char]>, p: &[char]) -> (r: Option<&'a [char]>)
    ensures
        r is Some <==> last_line_with(text::slice_views(ls@), p@) is Some,
        r matches Some(line) ==> last_line_with(text::slice_views(ls@), p@) == Some(line@),
{
    let mut n: usize = ls.len();
    let ghost views = text::slice_views(ls@);
    assert(views.take(n as int) =~= views);
    while n > 0
        invariant
            n <= ls@.len(),
            views == text::slice_views(ls@),
            last_line_with(views, p@) == last_line_with(views.take(n as int), p@),
        decreases n,
    {
        let line: &'a [char] = ls[n - 1];
        assert(views.take(n as int).last() == line@);
        assert(views.take(n as int).drop_last() =~= views.take(n - 1));
        if text::position_of(line, p).is_some() {
            return Some(line);
        }
        n = n - 1;
    }
    None
}

/// The message of a line in which the anchor stands.
fn message_of(line: &[char], anchor: &[char]) -> (r: String)
    requires
        text::contains(line@, anchor@),
    ensures
        r@ == clean_message(line@, anchor@),
{
    let start: usize = match text::position_of(line, anchor) {
        Some(k) => k,
        None => 0,
    };
    proof {
        text::lemma_find_from(line@, anchor@, 0);
    }
    assert(line@.skip(start as int) =~= line@.subrange(start as int, line@.len() as int));
    let msg = text::trimmed(slice_subrange(line, start, line.len()));
    let mark = text::chars_of(".: ");
    match text::position_of(msg, mark.as_slice()) {
        Some(k) => {
            proof {
                text::lemma_find_from(msg@, ".: "@, 0);
                reveal_strlit(".: ");
            }
            assert(msg@.take(k as int) =~= msg@.subrange(0, k as int));
            let mut text = text::string_of(slice_subrange(msg, 0, k));
            text.append(".");
            let cs = text::chars_of(text.as_str());
            text::string_of(text::clipped(cs.as_slice(), MAX_MESSAGE_BYTES))
        },
        None => text::string_of(text::clipped(msg, MAX_MESSAGE_BYTES)),
    }
}

/// The message of the last line that holds the given anchor.
fn message_at(ls: &Vec<&[char]>, anchor: &str) -> (r: Option<String>)
    ensures
        text::opt_view(r) == (match last_line_with(text::slice_views(ls@), anchor@) {
            Some(line) => Some(clean_message(line, anchor@)),
            None => None,
        }),
{
    let p = text::chars_of(anchor);
    match last_with(ls, p.as_slice()) {
        Some(line) => {
            proof {
                lemma_last_line_with(text::slice_views(ls@), anchor@);
            }
            Some(message_of(line, p.as_slice()))
        },
        None => None,
    }
}

/// Finds in the text of the agent's log the error that ended its turn, as one
/// clean line. The most specific kind of error counts, and of several lines
/// of that kind the last.
pub fn extract_agy_error_message(content: &str) -> (r: Option<String>)
    ensures
        text::opt_view(r) == error_message(content@),
{
    let cs = text::chars_of(content);
    let ls = text::lines_of(cs.as_slice());
    match message_at(&ls, "agent executor error:") {
        Some(m) => Some(m),
        None => match message_at(&ls, "model unreachable:") {
            Some(m) => Some(m),
            None => message_at(&ls, "RESOURCE_EXHAUSTED"),
        },
    }
}

/// The line that `last_line_with` picks is one of the lines and holds the
/// pattern, no later line holds it, and it picks one if any line holds it.
pub proof fn lemma_last_line_with(ls: Seq<Seq<char>>, p: Seq<char>)
    ensures
        last_line_with(ls, p) matches Some(line) ==> text::contains(line, p) && exists|i: int|
            0 <= i < ls.len() && #[trigger] ls[i] == line && forall|j: int|
                i < j < ls.len() ==> !text::contains(#[trigger] ls[j], p),
        last_line_with(ls, p) is None ==> forall|i: int|
            0 <= i < ls.len() ==> !text::contains(#[trigger] ls[i], p),
    decreases ls.len(),
{
    if ls.len() > 0 {
        if text::contains(ls.last(), p) {
            assert(ls[ls.len() - 1] == ls.last());
        } else {
            let rest = ls.drop_last();
            lemma_last_line_with(rest, p);
            if let Some(line) = last_line_with(rest, p) {
                let i = choose|i: int|
                    0 <= i < rest.len() && #[trigger] rest[i] == line && forall|j: int|
                        i < j < rest.len() ==> !text::contains(#[trigger] rest[j], p);
                assert(ls[i] == line);
                assert forall|j: int| i < j < ls.len() implies !text::contains(#[trigger] ls[j], p) by {
                    if j < rest.len() {
                        assert(rest[j] == ls[j]);
                    }
                }
            } else {
                assert forall|j: int| 0 <= j < ls.len() implies !text::contains(
                    #[trigger] ls[j],
                    p,
                ) by {
                    if j < rest.len() {
                        assert(rest[j] == ls[j]);
                    }
                }
            }
        }
    }
}

/// What every anchor is made of: no white space at its ends, no replacement
/// character at its beginning, no full stop, no line end, and few enough bytes to survive clipping.
pub proof fn lemma_anchor(k: int)
    requires
        0 <= k < anchors().len(),
    ensures
        ({
            let p = anchors()[k];
            &&& p.len() > 0
            &&& p[0] != '\u{FFFD}'
            &&& !text::is_white_space(p[0])
            &&& !text::is_white_space(p.last())
            &&& text::lacks(p, '.')
            &&& text::lacks(p, '\n')
            &&& text::lacks(p, '\r')
            &&& text::byte_len(p) <= MAX_MESSAGE_BYTES
        }),
{
    reveal_strlit("agent executor error:");
    reveal_strlit("model unreachable:");
    reveal_strlit("RESOURCE_EXHAUSTED");
    let p = anchors()[k];
    assert(vstd::utf8::is_ascii_chars(p));
    vstd::utf8::is_ascii_chars_encode_utf8(p);
}

/// Unwrapping keeps a beginning without full stops and leaves no ".: ".
proof fn lemma_unwrap_message(s: Seq<char>, p: Seq<char>)
    requires
        text::starts_with(s, p),
        text::lacks(p, '.'),
    ensures
        text::starts_with(unwrap_message(s), p),
        !text::contains(unwrap_message(s), ".: "@),
        text::lacks(s, '\n') ==> text::lacks(unwrap_message(s), '\n'),
{
    reveal_strlit(".: ");
    reveal_strlit(".");
    text::lemma_find_from(s, ".: "@, 0);
    let u = unwrap_message(s);
    if let Some(k) = text::find(s, ".: "@) {
        assert(s.subrange(k, k + 3)[0] == s[k]);
        if k < p.len() {
            assert(s.subrange(0, p.len() as int)[k] == s[k]);
        }
        assert(u.subrange(0, p.len() as int) =~= s.subrange(0, p.len() as int));
        assert forall|j: int| !text::occurs_at(u, ".: "@, j) by {
            if text::occurs_at(u, ".: "@, j) {
                assert(u.subrange(j, j + 3)[2] == u[j + 2]);
                assert(u.subrange(j, j + 3) =~= s.subrange(j, j + 3));
                assert(text::occurs_at(s, ".: "@, j));
            }
        }
    } else {
        assert forall|j: int| !text::occurs_at(u, ".: "@, j) by {}
    }
}

/// The message of a line that holds an anchor begins with that anchor, takes
/// at most `MAX_MESSAGE_BYTES` bytes, holds no ".: " and no line feed.
pub proof fn lemma_clean_message(line: Seq<char>, k: int)
    requires
        0 <= k < anchors().len(),
        text::contains(line, anchors()[k]),
    ensures
        text::starts_with(clean_message(line, anchors()[k]), anchors()[k]),
        text::byte_len(clean_message(line, anchors()[k])) <= MAX_MESSAGE_BYTES,
        !text::contains(clean_message(line, anchors()[k]), ".: "@),
        text::lacks(line, '\n') ==> text::lacks(clean_message(line, anchors()[k]), '\n'),
{
    let p = anchors()[k];
    lemma_anchor(k);
    text::lemma_find_from(line, p, 0);
    let start = text::find(line, p)->0;
    let rest = line.skip(start);
    assert(rest.subrange(0, p.len() as int) =~= line.subrange(start, start + p.len()));
    text::lemma_trim_keeps_beginning(rest, p);
    text::lemma_trim_part(rest);
    let t = text::trim(rest);
    lemma_unwrap_message(t, p);
    let u = unwrap_message(t);
    let m = clean_message(line, p);
    text::lemma_clip_keeps_beginning(u, p, MAX_MESSAGE_BYTES as nat);
    text::lemma_clip(u, MAX_MESSAGE_BYTES as nat);
    if text::contains(m, ".: "@) {
        assert(m =~= u.subrange(0, m.len() as int));
        text::lemma_contains_part(u, 0, m.len() as int, ".: "@);
    }
    if text::lacks(line, '\n') {
        let (a, b) = choose|a: int, b: int|
            0 <= a <= b <= rest.len() && t == #[trigger] rest.subrange(a, b);
        assert forall|i: int| 0 <= i < t.len() implies #[trigger] t[i] != '\n' by {
            assert(t[i] == line[start + a + i]);
        }
        assert forall|i: int| 0 <= i < m.len() implies #[trigger] m[i] != '\n' by {
            assert(m[i] == u[i]);
        }
    }
}

/// Every message is clean: it begins with one of the anchors, takes at most
/// `MAX_MESSAGE_BYTES` bytes, is a single line, and does not repeat itself
/// behind ".: ".
pub proof fn law_message_is_clean(content: Seq<char>)
    ensures
        error_message(content) matches Some(m) ==> {
            &&& exists|k: int|
                0 <= k < anchors().len() && text::starts_with(m, #[trigger] anchors()[k])
            &&& text::byte_len(m) <= MAX_MESSAGE_BYTES
            &&& !text::contains(m, ".: "@)
            &&& text::lacks(m, '\n')
        },
{
    if error_message(content) is Some {
        let k: int = if anchored_message(content, anchors()[0]) is Some {
            0
        } else if anchored_message(content, anchors()[1]) is Some {
            1
        } else {
            2
        };
        let p = anchors()[k];
        lemma_last_line_with(text::lines(content), p);
        let line = last_line_with(text::lines(content), p)->0;
        let i = choose|i: int|
            0 <= i < text::lines(content).len() && #[trigger] text::lines(content)[i] == line
                && forall|j: int|
                i < j < text::lines(content).len() ==> !text::contains(
                    #[trigger] text::lines(content)[j],
                    p,
                );
        text::lemma_line_lacks_line_feed(content, i);
        lemma_clean_message(line, k);
    }
}

/// An anchor stands in one of the lines exactly if it stands in the text.
pub proof fn lemma_anchored_message_present(content: Seq<char>, k: int)
    requires
        0 <= k < anchors().len(),
    ensures
        anchored_message(content, anchors()[k]) is Some <==> text::contains(
            content,
            anchors()[k],
        ),
{
    lemma_anchor(k);
    text::lemma_contains_in_lines(content, anchors()[k]);
    lemma_last_line_with(text::lines(content), anchors()[k]);
}

/// A message is found exactly in the texts in which one of the anchors stands.
pub proof fn law_message_is_found(content: Seq<char>)
    ensures
        error_message(content) is Some <==> exists|k: int|
            0 <= k < anchors().len() && text::contains(content, #[trigger] anchors()[k]),
{
    lemma_anchored_message_present(content, 0);
    lemma_anchored_message_present(content, 1);
    lemma_anchored_message_present(content, 2);
}

/// The most specific anchor wins: a message begins with no anchor but the
/// first of those that stand in the text.
pub proof fn law_most_specific_anchor_wins(content: Seq<char>, k: int)
    requires
        0 <= k < anchors().len(),
        text::contains(content, anchors()[k]),
        forall|j: int| 0 <= j < k ==> !text::contains(content, #[trigger] anchors()[j]),
    ensures
        error_message(content) == anchored_message(content, anchors()[k]),
        error_message(content) is Some,
{
    lemma_anchored_message_present(content, 0);
    lemma_anchored_message_present(content, 1);
    lemma_anchored_message_present(content, 2);
}

/// Replacement characters in front of a text hide nothing in it: what begins
/// otherwise stands behind them, and where it stood.
proof fn lemma_replacements_in_front(g: Seq<char>, s: Seq<char>, p: Seq<char>)
    requires
        text::only_replacements(g),
        p.len() > 0,
        p[0] != '\u{FFFD}',
    ensures
        text::contains(g + s, p) <==> text::contains(s, p),
        text::find(g + s, p) == (match text::find(s, p) {
            Some(k) => Some(k + g.len()),
            None => None,
        }),
{
    let n = g.len() as int;
    let t = g + s;
    assert forall|j: int| #[trigger] text::occurs_at(t, p, j) == text::occurs_at(s, p, j - n) by {
        if 0 <= j < n && j + p.len() <= t.len() {
            assert(t.subrange(j, j + p.len())[0] == g[j]);
        }
        if n <= j && j + p.len() <= t.len() {
            assert(t.subrange(j, j + p.len()) =~= s.subrange(j - n, j - n + p.len()));
        }
    }
    text::lemma_find_from(s, p, 0);
    text::lemma_find_from(t, p, 0);
    if let Some(k) = text::find(s, p) {
        assert(text::occurs_at(t, p, k + n));
        assert forall|j: int| 0 <= j < k + n implies !#[trigger] text::occurs_at(t, p, j) by {
            if n <= j {
                assert(!text::occurs_at(s, p, j - n));
            }
        }
        text::lemma_find_from_is(t, p, 0, k + n);
        assert(text::contains(t, p));
        assert(text::contains(s, p));
    } else {
        assert forall|j: int| !#[trigger] text::occurs_at(t, p, j) by {
            assert(text::occurs_at(s, p, j - n) ==> 0 <= j - n);
        }
    }
}

/// The first line of a text takes up the replacement characters in front of it.
proof fn lemma_lines_behind_replacements(g: Seq<char>, s: Seq<char>)
    requires
        text::only_replacements(g),
        s.len() > 0,
    ensures
        text::lines(s).len() > 0,
        text::lines(g + s) == seq![g + text::lines(s)[0]] + text::lines(s).drop_first(),
{
    let t = g + s;
    let n = g.len() as int;
    lemma_replacements_in_front(g, s, seq!['\n']);
    text::lemma_find_from(s, seq!['\n'], 0);
    if let Some(k) = text::find(s, seq!['\n']) {
        text::lemma_occurs_char(s, '\n', k);
        let line = s.take(k);
        let rest = text::lines(s.skip(k + 1));
        assert(t.take(k + n) =~= g + line);
        assert(t.skip(k + n + 1) =~= s.skip(k + 1));
        assert(text::strip_carriage_return(g + line) =~= g + text::strip_carriage_return(line));
        assert(text::lines(s) == seq![text::strip_carriage_return(line)] + rest);
        assert(text::lines(s).drop_first() =~= rest);
        assert(text::lines(t) == seq![text::strip_carriage_return(g + line)] + rest);
    } else {
        assert(text::lines(s) == seq![s]);
        assert(text::lines(t) == seq![t]);
        assert(text::lines(s).drop_first() =~= seq![]);
        assert(seq![t] + seq![] =~= seq![t]);
    }
}

/// A log that is read from inside a character on loses nothing by it: the
/// replacement characters that the rest of that character gives change neither
/// whether a message is found nor which.
pub proof fn law_cut_character_hides_nothing(g: Seq<char>, content: Seq<char>)
    requires
        text::only_replacements(g),
    ensures
        error_message(g + content) == error_message(content),
{
    assert forall|k: int| 0 <= k < anchors().len() implies anchored_message(
        g + content,
        #[trigger] anchors()[k],
    ) == anchored_message(content, anchors()[k]) by {
        let p = anchors()[k];
        lemma_anchor(k);
        lemma_replacements_in_front(g, content, p);
        lemma_anchored_message_present(content, k);
        lemma_anchored_message_present(g + content, k);
        if content.len() > 0 {
            let all = text::lines(content);
            let line = all[0];
            let rest = all.drop_first();
            lemma_lines_behind_replacements(g, content);
            assert(all =~= seq![line] + rest);
            lemma_last_line_with_concat(seq![line], rest, p);
            lemma_last_line_with_concat(seq![g + line], rest, p);
            lemma_replacements_in_front(g, line, p);
            assert(seq![line].drop_last() =~= seq![]);
            assert(seq![g + line].drop_last() =~= seq![]);
            if let Some(at) = text::find(line, p) {
                text::lemma_find_from(line, p, 0);
                assert((g + line).skip(at + g.len()) =~= line.skip(at));
            }
        } else {
            if text::contains(content, p) {
                let j = choose|j: int| text::occurs_at(content, p, j);
            }
        }
    }
    assert(anchored_message(g + content, anchors()[0]) == anchored_message(content, anchors()[0]));
    assert(anchored_message(g + content, anchors()[1]) == anchored_message(content, anchors()[1]));
    assert(anchored_message(g + content, anchors()[2]) == anchored_message(content, anchors()[2]));
}

/// Whatever is read in front of an error does not hide it.
pub proof fn law_error_is_found_behind_anything(front: Seq<char>, content: Seq<char>)
    requires
        error_message(content) is Some,
    ensures
        error_message(front + content) is Some,
{
    law_message_is_found(content);
    law_message_is_found(front + content);
    let k = choose|k: int|
        0 <= k < anchors().len() && text::contains(content, #[trigger] anchors()[k]);
    let all = front + content;
    assert(all.subrange(front.len() as int, all.len() as int) =~= content);
    text::lemma_contains_part(all, front.len() as int, all.len() as int, anchors()[k]);
}

/// Looking through the lines of two texts: the second counts first.
pub proof fn lemma_last_line_with_concat(a: Seq<Seq<char>>, b: Seq<Seq<char>>, p: Seq<char>)
    ensures
        last_line_with(a + b, p) == (match last_line_with(b, p) {
            Some(line) => Some(line),
            None => last_line_with(a, p),
        }),
    decreases b.len(),
{
    if b.len() == 0 {
        assert(a + b =~= a);
    } else {
        assert((a + b).last() == b.last());
        assert((a + b).drop_last() =~= a + b.drop_last());
        lemma_last_line_with_concat(a, b.drop_last(), p);
    }
}

/// The last failure counts: what is written behind a text that ends with a
/// line feed decides for each anchor that stands in it, and changes nothing
/// for the others.
pub proof fn law_last_failure_counts(earlier: Seq<char>, later: Seq<char>, k: int)
    requires
        0 <= k < anchors().len(),
        earlier.len() > 0,
        earlier.last() == '\n',
    ensures
        text::contains(later, anchors()[k]) ==> anchored_message(earlier + later, anchors()[k])
            == anchored_message(later, anchors()[k]),
        !text::contains(later, anchors()[k]) ==> anchored_message(earlier + later, anchors()[k])
            == anchored_message(earlier, anchors()[k]),
{
    text::lemma_lines_concat(earlier, later);
    lemma_last_line_with_concat(text::lines(earlier), text::lines(later), anchors()[k]);
    lemma_anchored_message_present(later, k);
}

} // verus!
