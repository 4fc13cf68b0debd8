//! What of an answer is not to be shown: narration, in which the agent only says
//! what it is going to do, and the sign by which it asks for silence.
use vstd::prelude::*;
use crate::text;

verus! {

/// The line says what the agent is going to do, or nothing.
pub open spec fn announces(line: Seq<char>) -> bool {
    text::trim(line).len() == 0 || text::starts_with(text::trim(line), "I will "@)
}

/// The text is narration: it says something, and every line of it only says
/// what the agent is going to do.
pub open spec fn narrates(s: Seq<char>) -> bool {
    &&& text::trim(s).len() > 0
    &&& forall|i: int| 0 <= i < text::lines(s).len() ==> announces(#[trigger] text::lines(s)[i])
}

/// Whether the text is narration.
pub fn is_narration(s: &str) -> (r: bool)
    ensures
        r == narrates(s@),
{
    let cs = text::chars_of(s);
    if text::trimmed(cs.as_slice()).len() == 0 {
        return false;
    }
    let found = text::lines_of(cs.as_slice());
    let start = text::chars_of("I will ");
    for i in 0..found.len()
        invariant
            text::slice_views(found@) == text::lines(s@),
            start@ == "I will "@,
            forall|j: int| 0 <= j < i ==> announces(#[trigger] text::lines(s@)[j]),
    {
        assert(text::lines(s@)[i as int] == found@[i as int]@);
        let line = text::trimmed(found[i]);
        if line.len() > 0 && !text::begins_with(line, start.as_slice()) {
            assert(!announces(text::lines(s@)[i as int]));
            return false;
        }
    }
    assert(text::lines(s@).len() == found@.len());
    true
}

/// The parts without the narration that they begin with; the last part stays,
/// whatever it is.
pub open spec fn without_narration(parts: Seq<Seq<char>>) -> Seq<Seq<char>>
    decreases parts.len(),
{
    if parts.len() > 1 && narrates(parts[0]) {
        without_narration(parts.drop_first())
    } else {
        parts
    }
}

/// The parts, one to a line.
pub open spec fn joined(parts: Seq<Seq<char>>) -> Seq<char>
    decreases parts.len(),
{
    if parts.len() == 0 {
        seq![]
    } else if parts.len() == 1 {
        parts[0]
    } else {
        joined(parts.drop_last()) + "\n"@ + parts.last()
    }
}

/// Joins the parts from the given one on, one to a line.
fn join_from(parts: &[String], from: usize) -> (r: String)
    requires
        from <= parts@.len(),
    ensures
        r@ == joined(text::string_views(parts@).skip(from as int)),
{
    let ghost kept = text::string_views(parts@).skip(from as int);
    let mut r = String::new();
    assert(r@ =~= joined(kept.take(0)));
    for i in from..parts.len()
        invariant
            from <= parts@.len(),
            kept == text::string_views(parts@).skip(from as int),
            r@ == joined(kept.take(i - from)),
    {
        let ghost now = kept.take(i + 1 - from);
        proof {
            assert(now.drop_last() =~= kept.take(i - from));
            assert(now.last() == parts@[i as int]@);
        }
        if i > from {
            r.append("\n");
        } else {
            assert(now.drop_last() =~= seq![]);
            assert(r@ + parts@[i as int]@ =~= joined(now));
        }
        r.append(parts[i].as_str());
    }
    assert(kept.take(parts@.len() - from) =~= kept);
    r
}

/// An answer in whole, one part to a line.
pub fn join_parts(parts: &[String]) -> (r: String)
    ensures
        r@ == joined(text::string_views(parts@)),
{
    assert(text::string_views(parts@).skip(0) =~= text::string_views(parts@));
    join_from(parts, 0)
}

/// An answer without the narration that it begins with, one part to a line.
/// Its last part stays, whatever it is.
pub fn filter_narration(parts: &[String]) -> (r: String)
    ensures
        r@ == joined(without_narration(text::string_views(parts@))),
{
    let ghost views = text::string_views(parts@);
    let mut from: usize = 0;
    assert(views.skip(0) =~= views);
    while from < parts.len() && parts.len() - from > 1 && is_narration(parts[from].as_str())
        invariant
            views == text::string_views(parts@),
            from <= parts@.len(),
            without_narration(views.skip(from as int)) == without_narration(views),
        decreases parts@.len() - from,
    {
        assert(views.skip(from as int).drop_first() =~= views.skip(from + 1));
        from = from + 1;
    }
    join_from(parts, from)
}

/// The answer asks for silence.
pub open spec fn asks_for_silence(answer: Seq<char>) -> bool {
    answer == "<silent />"@
}

/// Only the sign for silence asks for it: with anything in front of it or behind
/// it, an answer does not.
pub proof fn law_only_the_sign_asks_for_silence(before: Seq<char>, behind: Seq<char>)
    ensures
        asks_for_silence(before + "<silent />"@ + behind) <==> before.len() == 0 && behind.len()
            == 0,
{
    let s = before + "<silent />"@ + behind;
    if before.len() == 0 && behind.len() == 0 {
        assert(s =~= "<silent />"@);
    } else {
        assert(s.len() > "<silent />"@.len());
    }
}

/// Whether an answer asks for silence: it is the sign for that and nothing else,
/// and is not to be posted.
pub fn is_silent(answer: &str) -> (r: bool)
    ensures
        r == (answer@ == "<silent />"@),
        r == asks_for_silence(answer@),
{
    text::same(answer, "<silent />")
}

/// A single part stays as it is.
pub proof fn law_single_part_is_kept(part: Seq<char>)
    ensures
        joined(without_narration(seq![part])) == part,
{
}

/// Narration in front of an answer leaves no trace.
pub proof fn law_leading_narration_is_dropped(
    narration: Seq<Seq<char>>,
    answer: Seq<Seq<char>>,
)
    requires
        forall|i: int| 0 <= i < narration.len() ==> narrates(#[trigger] narration[i]),
        answer.len() > 0,
    ensures
        without_narration(narration + answer) == without_narration(answer),
    decreases narration.len(),
{
    if narration.len() == 0 {
        assert(narration + answer =~= answer);
    } else {
        let rest = narration.drop_first();
        assert((narration + answer)[0] == narration[0]);
        assert((narration + answer).drop_first() =~= rest + answer);
        assert forall|i: int| 0 <= i < rest.len() implies narrates(#[trigger] rest[i]) by {
            assert(rest[i] == narration[i + 1]);
        }
        law_leading_narration_is_dropped(rest, answer);
    }
}

/// Nothing but leading narration is dropped: the parts from some point on stay,
/// all before it are narration, and it is the first that is not, or the last.
pub proof fn law_answer_is_kept(parts: Seq<Seq<char>>)
    requires
        parts.len() > 0,
    ensures
        exists|k: int|
            #![trigger parts.skip(k)]
            0 <= k < parts.len() && without_narration(parts) == parts.skip(k) && (k == parts.len()
                - 1 || !narrates(parts[k])) && forall|i: int|
                0 <= i < k ==> narrates(#[trigger] parts[i]),
    decreases parts.len(),
{
    if parts.len() > 1 && narrates(parts[0]) {
        let rest = parts.drop_first();
        law_answer_is_kept(rest);
        let k = choose|k: int|
            #![trigger rest.skip(k)]
            0 <= k < rest.len() && without_narration(rest) == rest.skip(k) && (k == rest.len() - 1
                || !narrates(rest[k])) && forall|i: int|
                0 <= i < k ==> narrates(#[trigger] rest[i]);
        assert(parts.skip(k + 1) =~= rest.skip(k));
        assert forall|i: int| 0 <= i < k + 1 implies narrates(#[trigger] parts[i]) by {
            if i > 0 {
                assert(parts[i] == rest[i - 1]);
            }
        }
    } else {
        assert(parts.skip(0) =~= parts);
    }
}

} // verus!
