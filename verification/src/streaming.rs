//! What a turn shows while it runs: which conversation it is bound to, and how
//! much of each step's text has been shown.
use std::collections::HashMap;
use vstd::prelude::*;
use vstd::slice::slice_subrange;
use crate::text;

verus! {

/// How far the output of a turn has been shown.
pub struct StreamingState {
    /// The conversation that the turn is bound to.
    conversation_id: Option<String>,
    /// The last step of earlier turns.
    base_step_idx: i64,
    /// The last step that was shown.
    last_step_idx: i64,
    /// How many characters of each step were shown.
    emitted: HashMap<i64, usize>,
    /// Whether anything was shown.
    had_updates: bool,
}

/// The state of a turn's output.
pub ghost struct StreamView {
    pub conversation_id: Option<Seq<char>>,
    pub base_step_idx: i64,
    pub last_step_idx: i64,
    pub emitted: Map<i64, usize>,
    pub had_updates: bool,
}

impl View for StreamingState {
    type V = StreamView;

    closed spec fn view(&self) -> StreamView {
        StreamView {
            conversation_id: text::opt_view(self.conversation_id),
            base_step_idx: self.base_step_idx,
            last_step_idx: self.last_step_idx,
            emitted: self.emitted@,
            had_updates: self.had_updates,
        }
    }
}

/// How many characters of a step were shown.
pub open spec fn shown(s: StreamView, idx: i64) -> nat {
    if s.emitted.contains_key(idx) {
        s.emitted[idx] as nat
    } else {
        0
    }
}

/// What a step shows that was not shown before: the rest of its text, if it
/// belongs to this turn and has grown.
pub open spec fn delta(s: StreamView, idx: i64, content: Seq<char>) -> Option<Seq<char>> {
    if idx > s.base_step_idx && content.len() > shown(s, idx) {
        Some(content.skip(shown(s, idx) as int))
    } else {
        None
    }
}

/// The state once that is shown.
pub open spec fn after_step(s: StreamView, idx: i64, content: Seq<char>) -> StreamView {
    if delta(s, idx, content) is Some {
        StreamView {
            last_step_idx: if idx > s.last_step_idx {
                idx
            } else {
                s.last_step_idx
            },
            emitted: s.emitted.insert(idx, content.len() as usize),
            had_updates: true,
            ..s
        }
    } else {
        s
    }
}

/// The first of the names that was not there before.
pub open spec fn first_new(names: Seq<Seq<char>>, before: Seq<Seq<char>>) -> Option<Seq<char>>
    decreases names.len(),
{
    if names.len() == 0 {
        None
    } else if !before.contains(names[0]) {
        Some(names[0])
    } else {
        first_new(names.drop_first(), before)
    }
}

/// The state at the start of a turn: nothing was shown, and nothing of what was
/// there before is to be.
pub open spec fn stream_begun(conversation_id: Option<Seq<char>>, step_idx: i64) -> StreamView {
    StreamView {
        conversation_id,
        base_step_idx: step_idx,
        last_step_idx: step_idx,
        emitted: Map::empty(),
        had_updates: false,
    }
}

/// The state once the conversations are known.
pub open spec fn stream_bound(
    s: StreamView,
    names: Seq<Seq<char>>,
    before: Seq<Seq<char>>,
) -> StreamView {
    if s.conversation_id is Some {
        s
    } else {
        StreamView { conversation_id: first_new(names, before), ..s }
    }
}

/// Whether the name is one of several.
fn is_among(name: &str, names: &Vec<String>) -> (r: bool)
    ensures
        r == text::string_views(names@).contains(name@),
{
    for i in 0..names.len()
        invariant
            forall|j: int| 0 <= j < i ==> #[trigger] text::string_views(names@)[j] != name@,
    {
        assert(text::string_views(names@)[i as int] == names@[i as int]@);
        if text::same(names[i].as_str(), name) {
            return true;
        }
    }
    false
}

impl StreamingState {
    /// The state at the start of a turn.
    pub fn new(conversation_id: Option<String>, step_idx: i64) -> (r: Self)
        ensures
            r@ == (StreamView {
                conversation_id: text::opt_view(conversation_id),
                base_step_idx: step_idx,
                last_step_idx: step_idx,
                emitted: Map::empty(),
                had_updates: false,
            }),
            r@ == stream_begun(text::opt_view(conversation_id), step_idx),
    {
        let r = StreamingState {
            conversation_id,
            base_step_idx: step_idx,
            last_step_idx: step_idx,
            emitted: HashMap::new(),
            had_updates: false,
        };
        assert(r.emitted@ =~= Map::empty());
        r
    }

    /// The conversation that the turn is bound to.
    pub fn conversation_id(&self) -> (r: Option<&str>)
        ensures
            match r {
                Some(id) => self@.conversation_id == Some(id@),
                None => self@.conversation_id is None,
            },
    {
        match &self.conversation_id {
            Some(id) => Some(id.as_str()),
            None => None,
        }
    }

    /// The last step that was shown.
    pub fn last_step_idx(&self) -> (r: i64)
        ensures
            r == self@.last_step_idx,
    {
        self.last_step_idx
    }

    /// Whether anything was shown.
    pub fn had_updates(&self) -> (r: bool)
        ensures
            r == self@.had_updates,
    {
        self.had_updates
    }

    /// Binds a turn that has no conversation yet to the first conversation
    /// that was not there before it.
    pub fn bind(&mut self, names: &Vec<String>, before: &Vec<String>)
        ensures
            final(self)@ == (if old(self)@.conversation_id is Some {
                old(self)@
            } else {
                StreamView {
                    conversation_id: first_new(
                        text::string_views(names@),
                        text::string_views(before@),
                    ),
                    ..old(self)@
                }
            }),
            final(self)@ == stream_bound(
                old(self)@,
                text::string_views(names@),
                text::string_views(before@),
            ),
    {
        if self.conversation_id.is_some() {
            return;
        }
        let ghost all = text::string_views(names@);
        let ghost known = text::string_views(before@);
        assert(all.skip(0) =~= all);
        let mut i: usize = 0;
        while i < names.len()
            invariant
                i <= names@.len(),
                all == text::string_views(names@),
                known == text::string_views(before@),
                self@ == old(self)@,
                self@.conversation_id is None,
                first_new(all.skip(i as int), known) == first_new(all, known),
            decreases names@.len() - i,
        {
            assert(all.skip(i as int)[0] == names@[i as int]@);
            if !is_among(names[i].as_str(), before) {
                self.conversation_id = Some(names[i].clone());
                return;
            }
            assert(all.skip(i as int).drop_first() =~= all.skip(i + 1));
            i = i + 1;
        }
    }

    /// Takes the text that a step has now, and returns what of it is new.
    pub fn emit(&mut self, idx: i64, content: &str) -> (r: Option<String>)
        ensures
            text::opt_view(r) == delta(old(self)@, idx, content@),
            final(self)@ == after_step(old(self)@, idx, content@),
    {
        broadcast use vstd::std_specs::hash::group_hash_axioms;

        let cs = text::chars_of(content);
        let sent: usize = match self.emitted.get(&idx) {
            Some(n) => *n,
            None => 0,
        };
        if idx <= self.base_step_idx || cs.len() <= sent {
            return None;
        }
        let rest = text::string_of(slice_subrange(cs.as_slice(), sent, cs.len()));
        assert(rest@ =~= content@.skip(sent as int));
        self.emitted.insert(idx, cs.len());
        if idx > self.last_step_idx {
            self.last_step_idx = idx;
        }
        self.had_updates = true;
        Some(rest)
    }
}

/// What was shown of a step after its text was taken several times.
pub open spec fn shown_text(s: StreamView, idx: i64, contents: Seq<Seq<char>>) -> Seq<char>
    decreases contents.len(),
{
    if contents.len() == 0 {
        seq![]
    } else {
        let before = contents.drop_last();
        shown_text(s, idx, before) + match delta(
            stream_after(s, idx, before),
            idx,
            contents.last(),
        ) {
            Some(d) => d,
            None => seq![],
        }
    }
}

/// The state after the text of a step was taken several times.
pub open spec fn stream_after(s: StreamView, idx: i64, contents: Seq<Seq<char>>) -> StreamView
    decreases contents.len(),
{
    if contents.len() == 0 {
        s
    } else {
        after_step(stream_after(s, idx, contents.drop_last()), idx, contents.last())
    }
}

/// A step whose text grows is shown whole, and no part of it twice: what was
/// shown, put together, is the text that it has last.
pub proof fn law_growing_text_is_shown_once(
    s: StreamView,
    idx: i64,
    contents: Seq<Seq<char>>,
)
    requires
        idx > s.base_step_idx,
        shown(s, idx) == 0,
        contents.len() > 0,
        forall|i: int|
            0 <= i < contents.len() ==> (#[trigger] contents[i]).len() <= usize::MAX,
        forall|i: int|
            #![trigger contents[i]]
            0 < i < contents.len() ==> contents[i - 1].is_prefix_of(contents[i]),
    ensures
        shown_text(s, idx, contents) == contents.last(),
        shown(stream_after(s, idx, contents), idx) == contents.last().len(),
        stream_after(s, idx, contents).base_step_idx == s.base_step_idx,
    decreases contents.len(),
{
    let before = contents.drop_last();
    let last = contents.last();
    assert(last == contents[contents.len() - 1]);
    if before.len() == 0 {
        assert(stream_after(s, idx, before) == s);
        assert(shown_text(s, idx, before) =~= seq![]);
        assert(last.skip(0) =~= last);
        assert(last.len() == 0 ==> last =~= seq![]);
        assert(seq![] + last =~= last);
    } else {
        assert forall|i: int| 0 <= i < before.len() implies (#[trigger] before[i]).len()
            <= usize::MAX by {
            assert(before[i] == contents[i]);
        }
        assert forall|i: int|
            #![trigger before[i]]
            0 < i < before.len() implies before[i - 1].is_prefix_of(before[i]) by {
            assert(before[i] == contents[i]);
            assert(before[i - 1] == contents[i - 1]);
        }
        law_growing_text_is_shown_once(s, idx, before);
        let prev = before.last();
        assert(prev == contents[contents.len() - 2]);
        assert(contents[contents.len() - 1 - 1].is_prefix_of(contents[contents.len() - 1]));
        assert(prev + last.skip(prev.len() as int) =~= last);
        assert(last.len() == prev.len() ==> prev + seq![] =~= last);
    }
}

/// Nothing of earlier turns is shown again.
pub proof fn law_earlier_steps_are_not_shown(s: StreamView, idx: i64, content: Seq<char>)
    requires
        idx <= s.base_step_idx,
    ensures
        delta(s, idx, content) is None,
        after_step(s, idx, content) == s,
{
}

} // verus!
