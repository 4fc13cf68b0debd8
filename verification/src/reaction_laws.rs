//! What holds of the status reactions over a whole turn.
use vstd::prelude::*;
use crate::reactions::{Slot, StatusReactionController};
use crate::reactions;

verus! {

/// The reactions on a message after an effect.
pub open spec fn reactions_after_one(
    on_message: Set<Seq<char>>,
    effect: reactions::EffectView,
) -> Set<Seq<char>> {
    match effect {
        reactions::EffectView::AddReaction(emoji) => on_message.insert(emoji),
        reactions::EffectView::RemoveReaction(emoji) => on_message.remove(emoji),
        _ => on_message,
    }
}

/// The reactions on a message after several effects.
pub open spec fn reactions_after(
    on_message: Set<Seq<char>>,
    effects: Seq<reactions::EffectView>,
) -> Set<Seq<char>>
    decreases effects.len(),
{
    if effects.len() == 0 {
        on_message
    } else {
        reactions_after_one(reactions_after(on_message, effects.drop_last()), effects.last())
    }
}

/// The timers' tasks after an effect.
pub open spec fn tasks_after_one(tasks: Set<Slot>, effect: reactions::EffectView) -> Set<Slot> {
    match effect {
        reactions::EffectView::Abort(slot) => tasks.remove(slot),
        reactions::EffectView::Start { slot, delay_ms } => tasks.insert(slot),
        _ => tasks,
    }
}

/// The timers' tasks after several effects.
pub open spec fn tasks_after(tasks: Set<Slot>, effects: Seq<reactions::EffectView>) -> Set<Slot>
    decreases effects.len(),
{
    if effects.len() == 0 {
        tasks
    } else {
        tasks_after_one(tasks_after(tasks, effects.drop_last()), effects.last())
    }
}

/// No task is started for a timer that has one.
pub open spec fn starts_are_free(tasks: Set<Slot>, effects: Seq<reactions::EffectView>) -> bool {
    forall|i: int|
        0 <= i < effects.len() ==> match #[trigger] effects[i] {
            reactions::EffectView::Start { slot, delay_ms } => !tasks_after(
                tasks,
                effects.take(i),
            ).contains(slot),
            _ => true,
        }
}

/// The reaction that the controller believes to stand on the message.
pub open spec fn status_reaction(s: reactions::ControllerState) -> Set<Seq<char>> {
    if s.current.len() == 0 {
        Set::empty()
    } else {
        set![s.current]
    }
}

/// The timers that have a task.
pub open spec fn tasks(s: reactions::ControllerState) -> Set<Slot> {
    Set::new(
        |slot: Slot|
            match slot {
                Slot::Debounce => s.debounce_set,
                Slot::SoftStall => s.soft_set,
                Slot::HardStall => s.hard_set,
                Slot::Heartbeat => s.heartbeat_set,
            },
    )
}

/// Every stage has an emoji, and so has what is to be shown next.
pub open spec fn has_emojis(s: reactions::ControllerState) -> bool {
    &&& s.emojis.queued.len() > 0
    &&& s.emojis.thinking.len() > 0
    &&& s.emojis.tool.len() > 0
    &&& s.emojis.coding.len() > 0
    &&& s.emojis.web.len() > 0
    &&& s.emojis.done.len() > 0
    &&& s.emojis.error.len() > 0
    &&& s.pending is Some ==> s.pending->0.len() > 0
}

/// The operation is one that the turn's course calls for, not a timer.
pub open spec fn is_request(op: reactions::Op) -> bool {
    match op {
        reactions::Op::Queued
        | reactions::Op::Thinking
        | reactions::Op::Tool(_)
        | reactions::Op::Done(_)
        | reactions::Op::Error
        | reactions::Op::Clear => true,
        _ => false,
    }
}

/// The effect is one that people see.
pub open spec fn is_visible(effect: reactions::EffectView) -> bool {
    match effect {
        reactions::EffectView::AddReaction(_)
        | reactions::EffectView::RemoveReaction(_)
        | reactions::EffectView::SendMessage(_) => true,
        _ => false,
    }
}

/// The effects stop timers or start them, and start the heartbeat only if it
/// has a delay.
pub open spec fn only_timers(
    timing: reactions::TimingView,
    effects: Seq<reactions::EffectView>,
) -> bool {
    forall|i: int|
        0 <= i < effects.len() ==> match #[trigger] effects[i] {
            reactions::EffectView::Abort(_) => true,
            reactions::EffectView::Start { slot, delay_ms } => slot == Slot::Heartbeat
                ==> timing.stall_text_ms is Some,
            _ => false,
        }
}

/// Effects on timers, one sequence after the other.
proof fn lemma_only_timers_concat(
    timing: reactions::TimingView,
    a: Seq<reactions::EffectView>,
    b: Seq<reactions::EffectView>,
)
    requires
        only_timers(timing, a),
        only_timers(timing, b),
    ensures
        only_timers(timing, a + b),
{
    let c = a + b;
    assert forall|i: int| 0 <= i < c.len() implies match #[trigger] c[i] {
        reactions::EffectView::Abort(_) => true,
        reactions::EffectView::Start { slot, delay_ms } => slot == Slot::Heartbeat
            ==> timing.stall_text_ms is Some,
        _ => false,
    } by {
        if i < a.len() {
            assert(c[i] == a[i]);
        } else {
            assert(c[i] == b[i - a.len()]);
        }
    }
}

/// Stopping all timers touches nothing else.
proof fn lemma_cancel_only_timers(s: reactions::ControllerState)
    ensures
        only_timers(s.timing, reactions::cancel_debounce(s).1),
        only_timers(s.timing, reactions::cancel_timers(s).1),
{
    let e1 = reactions::when(s.debounce_set, reactions::EffectView::Abort(Slot::Debounce));
    let e2 = reactions::when(s.soft_set, reactions::EffectView::Abort(Slot::SoftStall));
    let e3 = reactions::when(s.hard_set, reactions::EffectView::Abort(Slot::HardStall));
    let e4 = reactions::when(s.heartbeat_set, reactions::EffectView::Abort(Slot::Heartbeat));
    lemma_only_timers_concat(s.timing, e1, e2);
    lemma_only_timers_concat(s.timing, e1 + e2, e3);
    lemma_only_timers_concat(s.timing, e1 + e2 + e3, e4);
}

/// Restarting the stall timers touches nothing else.
proof fn lemma_reset_only_timers(s: reactions::ControllerState)
    ensures
        only_timers(s.timing, reactions::reset_stall_timers(s).1),
{
    let e1 = reactions::when(s.soft_set, reactions::EffectView::Abort(Slot::SoftStall));
    let e2 = reactions::when(s.hard_set, reactions::EffectView::Abort(Slot::HardStall));
    let e3 = reactions::when(s.heartbeat_set, reactions::EffectView::Abort(Slot::Heartbeat));
    let e4 = seq![
        reactions::EffectView::Start {
            slot: Slot::SoftStall,
            delay_ms: s.timing.stall_soft_ms,
        },
        reactions::EffectView::Start {
            slot: Slot::HardStall,
            delay_ms: s.timing.stall_hard_ms,
        },
    ];
    let e5 = reactions::when(
        s.timing.stall_text_ms is Some,
        reactions::EffectView::Start {
            slot: Slot::Heartbeat,
            delay_ms: s.timing.stall_text_ms->0,
        },
    );
    lemma_only_timers_concat(s.timing, e1, e2);
    lemma_only_timers_concat(s.timing, e1 + e2, e3);
    lemma_only_timers_concat(s.timing, e1 + e2 + e3, e4);
    lemma_only_timers_concat(s.timing, e1 + e2 + e3 + e4, e5);
}

/// Showing an emoji after the debounce delay touches nothing but timers.
proof fn lemma_debounced_only_timers(s: reactions::ControllerState, emoji: Seq<char>)
    ensures
        only_timers(s.timing, reactions::schedule_debounced(s, emoji).1),
{
    if s.finished || emoji == s.current {
        lemma_reset_only_timers(s);
    } else {
        let (quiet, aborts) = reactions::cancel_debounce(s);
        let armed = reactions::ControllerState {
            debounce_set: true,
            pending: Some(emoji),
            ..quiet
        };
        let start = seq![
            reactions::EffectView::Start {
                slot: Slot::Debounce,
                delay_ms: s.timing.debounce_ms,
            },
        ];
        lemma_cancel_only_timers(s);
        lemma_reset_only_timers(armed);
        lemma_only_timers_concat(s.timing, aborts, start);
        lemma_only_timers_concat(
            s.timing,
            aborts + start,
            reactions::reset_stall_timers(armed).1,
        );
    }
}

/// Effects on timers alone leave the reactions as they are.
proof fn lemma_timers_keep_reactions(
    r: Set<Seq<char>>,
    timing: reactions::TimingView,
    effects: Seq<reactions::EffectView>,
)
    requires
        only_timers(timing, effects),
    ensures
        reactions_after(r, effects) == r,
{
    lemma_no_reactions(r, effects);
}

/// Effects one after the other.
proof fn lemma_reactions_concat(
    r: Set<Seq<char>>,
    a: Seq<reactions::EffectView>,
    b: Seq<reactions::EffectView>,
)
    ensures
        reactions_after(r, a + b) == reactions_after(reactions_after(r, a), b),
    decreases b.len(),
{
    if b.len() == 0 {
        assert(a + b =~= a);
    } else {
        assert((a + b).drop_last() =~= a + b.drop_last());
        lemma_reactions_concat(r, a, b.drop_last());
    }
}

/// Effects without reactions leave the reactions as they are.
proof fn lemma_no_reactions(r: Set<Seq<char>>, effects: Seq<reactions::EffectView>)
    requires
        forall|i: int|
            0 <= i < effects.len() ==> !((#[trigger] effects[i]) is AddReaction)
                && !(effects[i] is RemoveReaction),
    ensures
        reactions_after(r, effects) == r,
    decreases effects.len(),
{
    if effects.len() > 0 {
        let rest = effects.drop_last();
        assert forall|i: int| 0 <= i < rest.len() implies !((#[trigger] rest[i]) is AddReaction)
            && !(rest[i] is RemoveReaction) by {
            assert(rest[i] == effects[i]);
        }
        lemma_no_reactions(r, rest);
        assert(effects.last() == effects[effects.len() - 1]);
    }
}

/// Showing an emoji puts it in the place of the one before.
proof fn lemma_show(s: reactions::ControllerState, others: Set<Seq<char>>, emoji: Seq<char>)
    requires
        emoji.len() > 0,
        !others.contains(s.current),
    ensures
        reactions_after(status_reaction(s).union(others), reactions::show(s, emoji).1)
            == set![emoji].union(others),
{
    let effects = reactions::show(s, emoji).1;
    let added = seq![reactions::EffectView::AddReaction(emoji)];
    reveal_with_fuel(reactions_after, 3);
    if s.current.len() > 0 && s.current != emoji {
        assert(effects.drop_last() =~= added);
        assert(effects.last() == reactions::EffectView::RemoveReaction(s.current));
    } else {
        assert(effects =~= added);
    }
    assert(added.drop_last().len() == 0);
    assert(reactions_after(status_reaction(s).union(others), effects) =~= set![emoji].union(
        others,
    ));
}

/// At any time one status reaction at most stands on the message, the one
/// that the controller remembers, beside others such as faces: if this holds
/// before an operation and all of its effects are carried out, it holds after,
/// and the others stay. When the turn is done, a face joins them.
pub proof fn law_one_status_reaction(
    s: reactions::ControllerState,
    others: Set<Seq<char>>,
    op: reactions::Op,
)
    requires
        has_emojis(s),
        !others.contains(s.current),
    ensures
        has_emojis(reactions::op_step(s, op).0),
        reactions_after(status_reaction(s).union(others), reactions::op_step(s, op).1)
            == status_reaction(reactions::op_step(s, op).0).union(
            match op {
                reactions::Op::Done(n) => if s.enabled {
                    others.insert(reactions::faces()[n as int % 8])
                } else {
                    others
                },
                _ => others,
            },
        ),
{
    reveal_strlit("🥱");
    reveal_strlit("😨");
    let r = status_reaction(s).union(others);
    assert(reactions_after(r, seq![]) == r);
    match op {
        reactions::Op::Queued => {
            if s.enabled && !s.finished && s.emojis.queued != s.current {
                lemma_immediate(s, others, s.emojis.queued);
            }
        },
        reactions::Op::Thinking => {
            let effects = reactions::schedule_debounced(s, s.emojis.thinking).1;
            lemma_debounced_only_timers(s, s.emojis.thinking);
            lemma_timers_keep_reactions(r, s.timing, effects);
        },
        reactions::Op::Tool(class) => {
            let emoji = reactions::class_emoji(class, s.emojis);
            lemma_debounced_only_timers(s, emoji);
            lemma_timers_keep_reactions(
                r,
                s.timing,
                reactions::schedule_debounced(s, emoji).1,
            );
        },
        reactions::Op::Done(n) => {
            let face = seq![reactions::EffectView::AddReaction(reactions::faces()[n as int % 8])];
            let (done, changes) = reactions::finish(s, s.emojis.done);
            lemma_finish(s, others, s.emojis.done);
            lemma_reactions_concat(r, changes, face);
            lemma_added(
                reactions_after(r, changes),
                reactions::faces()[n as int % 8],
            );
            assert(status_reaction(done).union(others).insert(reactions::faces()[n as int % 8])
                =~= status_reaction(done).union(
                others.insert(reactions::faces()[n as int % 8]),
            ));
        },
        reactions::Op::Error => {
            lemma_finish(s, others, s.emojis.error);
        },
        reactions::Op::Clear => {
            if s.enabled {
                lemma_clear(s, others);
                assert(status_reaction(reactions::op_step(s, op).0).union(others) =~= others);
            }
        },
        reactions::Op::ResetStallTimers => {
            lemma_reset_only_timers(s);
            lemma_timers_keep_reactions(r, s.timing, reactions::reset_stall_timers(s).1);
        },
        reactions::Op::DebounceFired => {
            if s.pending is Some && !s.finished {
                lemma_show(
                    reactions::ControllerState { pending: None, ..s },
                    others,
                    s.pending->0,
                );
            }
        },
        reactions::Op::SoftStallFired => {
            lemma_show(s, others, "🥱"@);
        },
        reactions::Op::HardStallFired => {
            lemma_show(s, others, "😨"@);
        },
        reactions::Op::HeartbeatFired(secs) => {
            lemma_no_reactions(r, reactions::op_step(s, op).1);
        },
    }
}

/// A reaction is added.
proof fn lemma_added(r: Set<Seq<char>>, emoji: Seq<char>)
    ensures
        reactions_after(r, seq![reactions::EffectView::AddReaction(emoji)]) == r.insert(emoji),
{
    let added = seq![reactions::EffectView::AddReaction(emoji)];
    assert(added.drop_last() =~= seq![]);
    assert(reactions_after(r, seq![]) == r);
}

/// Showing an emoji at once puts it in the place of the one before.
proof fn lemma_immediate(
    s: reactions::ControllerState,
    others: Set<Seq<char>>,
    emoji: Seq<char>,
)
    requires
        emoji.len() > 0,
        !others.contains(s.current),
        !s.finished,
        emoji != s.current,
    ensures
        reactions_after(status_reaction(s).union(others), reactions::apply_immediate(s, emoji).1)
            == set![emoji].union(others),
{
    let r = status_reaction(s).union(others);
    let (quiet, aborts) = reactions::cancel_debounce(s);
    let changes = reactions::show(quiet, emoji).1;
    let reset = seq![reactions::EffectView::ResetStallTimers];
    lemma_reactions_concat(r, aborts + changes, reset);
    lemma_reactions_concat(r, aborts, changes);
    lemma_cancel_only_timers(s);
    lemma_timers_keep_reactions(r, s.timing, aborts);
    lemma_show(quiet, others, emoji);
    lemma_no_reactions(set![emoji].union(others), reset);
}

/// Clearing leaves no status reaction.
proof fn lemma_clear(s: reactions::ControllerState, others: Set<Seq<char>>)
    requires
        s.enabled,
        !others.contains(s.current),
    ensures
        reactions_after(
            status_reaction(s).union(others),
            reactions::op_step(s, reactions::Op::Clear).1,
        ) == others,
{
    let r = status_reaction(s).union(others);
    let aborts = reactions::cancel_timers(s).1;
    let removed = reactions::when(
        s.current.len() > 0,
        reactions::EffectView::RemoveReaction(s.current),
    );
    lemma_reactions_concat(r, aborts, removed);
    lemma_cancel_only_timers(s);
    lemma_timers_keep_reactions(r, s.timing, aborts);
    assert(reactions_after(r, seq![]) == r);
    if s.current.len() > 0 {
        assert(removed.drop_last() =~= seq![]);
        assert(reactions_after(r, removed) =~= others);
    } else {
        assert(r =~= others);
    }
}

/// The end of a turn puts its emoji in the place of the one before.
proof fn lemma_finish(
    s: reactions::ControllerState,
    others: Set<Seq<char>>,
    emoji: Seq<char>,
)
    requires
        emoji.len() > 0,
        !others.contains(s.current),
    ensures
        reactions_after(status_reaction(s).union(others), reactions::finish(s, emoji).1)
            == status_reaction(reactions::finish(s, emoji).0).union(others),
{
    let r = status_reaction(s).union(others);
    if !s.finished {
        let (quiet, aborts) = reactions::cancel_timers(
            reactions::ControllerState { finished: true, ..s },
        );
        let changes = reactions::show(quiet, emoji).1;
        lemma_reactions_concat(r, aborts, changes);
        lemma_cancel_only_timers(reactions::ControllerState { finished: true, ..s });
        lemma_timers_keep_reactions(r, s.timing, aborts);
        lemma_show(quiet, others, emoji);
    }
}

/// A controller that is not enabled does nothing, whatever the turn does.
pub proof fn law_disabled_controller_does_nothing(
    s: reactions::ControllerState,
    op: reactions::Op,
)
    requires
        !s.enabled,
        is_request(op),
    ensures
        reactions::op_step(s, op).0 == s,
        reactions::op_step(s, op).1.len() == 0,
{
}

/// A turn that is over stays over, and nothing more is seen of it: no timer
/// and no further stage shows anything. Only the face of a turn that is done
/// again, and the removal of the last emoji, remain.
pub proof fn law_finished_turn_is_quiet(s: reactions::ControllerState, op: reactions::Op)
    requires
        s.finished,
    ensures
        reactions::op_step(s, op).0.finished,
        op !is Clear ==> reactions::op_step(s, op).0.current == s.current,
        op !is Clear && op !is Done ==> forall|i: int|
            0 <= i < reactions::op_step(s, op).1.len() ==> !is_visible(
                #[trigger] reactions::op_step(s, op).1[i],
            ),
        op is Done && s.enabled ==> reactions::op_step(s, op).1 == seq![
            reactions::EffectView::AddReaction(reactions::faces()[op->Done_0 as int % 8]),
        ],
{
}

/// The end of a turn stops every timer that has a task.
pub proof fn law_end_stops_timers(s: reactions::ControllerState, op: reactions::Op)
    requires
        s.enabled,
        !s.finished,
        op is Done || op is Error,
    ensures
        reactions::op_step(s, op).0.finished,
        tasks(reactions::op_step(s, op).0) == Set::<Slot>::empty(),
        forall|slot: Slot|
            #[trigger] tasks(s).contains(slot) ==> reactions::op_step(s, op).1.contains(
                reactions::EffectView::Abort(slot),
            ),
{
    let effects = reactions::op_step(s, op).1;
    assert(tasks(reactions::op_step(s, op).0) =~= Set::<Slot>::empty());
    assert forall|slot: Slot| #[trigger] tasks(s).contains(slot) implies effects.contains(
        reactions::EffectView::Abort(slot),
    ) by {
        let i: int = match slot {
            Slot::Debounce => 0,
            Slot::SoftStall => if s.debounce_set {
                1
            } else {
                0
            },
            Slot::HardStall => (if s.debounce_set {
                1int
            } else {
                0
            }) + (if s.soft_set {
                1int
            } else {
                0
            }),
            Slot::Heartbeat => (if s.debounce_set {
                1int
            } else {
                0
            }) + (if s.soft_set {
                1int
            } else {
                0
            }) + (if s.hard_set {
                1int
            } else {
                0
            }),
        };
        assert(effects[i] == reactions::EffectView::Abort(slot));
    }
}

/// Every sign of life restarts the heartbeat: the agent's thinking and its use
/// of a tool stop the timer and start it anew, with its whole delay.
pub proof fn law_activity_restarts_heartbeat(s: reactions::ControllerState, op: reactions::Op)
    requires
        s.enabled,
        op is Thinking || op is Tool,
        s.timing.stall_text_ms is Some,
    ensures
        reactions::op_step(s, op).1.last() == (reactions::EffectView::Start {
            slot: Slot::Heartbeat,
            delay_ms: s.timing.stall_text_ms->0,
        }),
        s.heartbeat_set ==> reactions::op_step(s, op).1.contains(
            reactions::EffectView::Abort(Slot::Heartbeat),
        ),
        reactions::op_step(s, op).0.heartbeat_set,
{
    let effects = reactions::op_step(s, op).1;
    if s.heartbeat_set {
        assert(effects[effects.len() - 4] == reactions::EffectView::Abort(Slot::Heartbeat));
    }
}

/// Without a delay for it there is no heartbeat: its timer is never started
/// and nothing is ever said.
pub proof fn law_no_heartbeat_unless_configured(s: reactions::ControllerState, op: reactions::Op)
    requires
        s.timing.stall_text_ms is None,
    ensures
        reactions::op_step(s, op).0.timing == s.timing,
        no_heartbeat(reactions::op_step(s, op).1),
{
    match op {
        reactions::Op::Queued => {
            let (quiet, aborts) = reactions::cancel_debounce(s);
            let changes = reactions::show(quiet, s.emojis.queued).1;
            lemma_cancel_only_timers(s);
            lemma_no_heartbeat_concat(aborts, changes);
            lemma_no_heartbeat_concat(
                aborts + changes,
                seq![reactions::EffectView::ResetStallTimers],
            );
        },
        reactions::Op::Thinking => {
            lemma_debounced_only_timers(s, s.emojis.thinking);
        },
        reactions::Op::Tool(class) => {
            lemma_debounced_only_timers(s, reactions::class_emoji(class, s.emojis));
        },
        reactions::Op::Done(n) => {
            lemma_finish_no_heartbeat(s, s.emojis.done);
            lemma_no_heartbeat_concat(
                reactions::finish(s, s.emojis.done).1,
                seq![reactions::EffectView::AddReaction(reactions::faces()[n as int % 8])],
            );
        },
        reactions::Op::Error => {
            lemma_finish_no_heartbeat(s, s.emojis.error);
        },
        reactions::Op::Clear => {
            lemma_cancel_only_timers(s);
            lemma_no_heartbeat_concat(
                reactions::cancel_timers(s).1,
                reactions::when(
                    s.current.len() > 0,
                    reactions::EffectView::RemoveReaction(s.current),
                ),
            );
        },
        reactions::Op::ResetStallTimers => {
            lemma_reset_only_timers(s);
        },
        _ => {},
    }
}

/// The effects say nothing, and do not start the heartbeat's timer.
pub open spec fn no_heartbeat(effects: Seq<reactions::EffectView>) -> bool {
    forall|i: int|
        0 <= i < effects.len() ==> match #[trigger] effects[i] {
            reactions::EffectView::Start { slot, delay_ms } => slot != Slot::Heartbeat,
            reactions::EffectView::Repeat { delay_ms } => false,
            reactions::EffectView::SendMessage(_) => false,
            _ => true,
        }
}

/// Effects without a heartbeat, one sequence after the other.
proof fn lemma_no_heartbeat_concat(
    a: Seq<reactions::EffectView>,
    b: Seq<reactions::EffectView>,
)
    requires
        no_heartbeat(a),
        no_heartbeat(b),
    ensures
        no_heartbeat(a + b),
{
    let c = a + b;
    assert forall|i: int| 0 <= i < c.len() implies match #[trigger] c[i] {
        reactions::EffectView::Start { slot, delay_ms } => slot != Slot::Heartbeat,
        reactions::EffectView::Repeat { delay_ms } => false,
        reactions::EffectView::SendMessage(_) => false,
        _ => true,
    } by {
        if i < a.len() {
            assert(c[i] == a[i]);
        } else {
            assert(c[i] == b[i - a.len()]);
        }
    }
}

/// The end of a turn comes without a heartbeat.
proof fn lemma_finish_no_heartbeat(s: reactions::ControllerState, emoji: Seq<char>)
    requires
        s.timing.stall_text_ms is None,
    ensures
        no_heartbeat(reactions::finish(s, emoji).1),
{
    if !s.finished {
        let (quiet, aborts) = reactions::cancel_timers(
            reactions::ControllerState { finished: true, ..s },
        );
        lemma_cancel_only_timers(reactions::ControllerState { finished: true, ..s });
        lemma_no_heartbeat_concat(aborts, reactions::show(quiet, emoji).1);
    }
}

/// A heartbeat that is due in a turn that goes on is said once, with the time
/// since the turn began, and comes again, after the same delay, exactly if it
/// is to be repeated.
pub proof fn law_heartbeat_is_said(s: reactions::ControllerState, secs: u64)
    requires
        !s.finished,
        s.timing.stall_text_ms is Some,
    ensures
        ({
            let (after, effects) = reactions::op_step(s, reactions::Op::HeartbeatFired(secs));
            &&& after == s
            &&& effects.len() == if s.timing.stall_text_repeat {
                2int
            } else {
                1
            }
            &&& effects[0] == reactions::EffectView::SendMessage(
                reactions::heartbeat_text(s.timing, secs as nat),
            )
            &&& s.timing.stall_text_repeat ==> effects[1] == (reactions::EffectView::Repeat {
                delay_ms: s.timing.stall_text_ms->0,
            })
        }),
{
}

/// The heartbeat's timer is started anew by the operation.
pub open spec fn restarts_heartbeat(s: reactions::ControllerState, op: reactions::Op) -> bool {
    match op {
        reactions::Op::ResetStallTimers => true,
        reactions::Op::Thinking | reactions::Op::Tool(_) => s.enabled,
        _ => false,
    }
}

/// When the heartbeat is due after effects that are carried out at the time
/// `now`, in milliseconds, if it was due at `due` before them.
pub open spec fn due_after(
    due: Option<nat>,
    now: nat,
    effects: Seq<reactions::EffectView>,
) -> Option<nat>
    decreases effects.len(),
{
    if effects.len() == 0 {
        due
    } else {
        match effects.last() {
            reactions::EffectView::Start { slot: Slot::Heartbeat, delay_ms } => Some(
                now + delay_ms as nat,
            ),
            reactions::EffectView::Repeat { delay_ms } => Some(now + delay_ms as nat),
            reactions::EffectView::Abort(Slot::Heartbeat) => None,
            _ => due_after(due, now, effects.drop_last()),
        }
    }
}

/// What is said by effects that are carried out at the time `now`.
pub open spec fn said_at(now: nat, effects: Seq<reactions::EffectView>) -> Seq<(nat, Seq<char>)>
    decreases effects.len(),
{
    if effects.len() == 0 {
        seq![]
    } else {
        let before = said_at(now, effects.drop_last());
        match effects.last() {
            reactions::EffectView::SendMessage(content) => before.push((now, content)),
            _ => before,
        }
    }
}

/// A turn in which nothing happens but the heartbeat.
pub ghost struct QuietTurn {
    pub state: reactions::ControllerState,
    /// When the heartbeat is due, in milliseconds since its timer was started.
    pub due: Option<nat>,
    /// What has been said, each with its time.
    pub said: Seq<(nat, Seq<char>)>,
}

/// The turn after the heartbeat was due `n` times, or as often as it is due at
/// all, since the operation started its timer. The turn was `age_ms` old then.
pub open spec fn quiet_turn(
    s: reactions::ControllerState,
    op: reactions::Op,
    age_ms: nat,
    n: nat,
) -> QuietTurn
    decreases n,
{
    if n == 0 {
        let (after, effects) = reactions::op_step(s, op);
        QuietTurn { state: after, due: due_after(None, 0, effects), said: seq![] }
    } else {
        let before = quiet_turn(s, op, age_ms, (n - 1) as nat);
        match before.due {
            Some(now) => {
                let secs = ((age_ms + now) / 1000) as u64;
                let (after, effects) = reactions::op_step(
                    before.state,
                    reactions::Op::HeartbeatFired(secs),
                );
                QuietTurn {
                    state: after,
                    due: due_after(None, now, effects),
                    said: before.said + said_at(now, effects),
                }
            },
            None => before,
        }
    }
}

/// The heartbeat that is said for the `k`th time since its timer was started:
/// after `k` delays, with the time since the turn began.
pub open spec fn nth_heartbeat(timing: reactions::TimingView, age_ms: nat, k: nat) -> (
    nat,
    Seq<char>,
) {
    let now = k * timing.stall_text_ms->0 as nat;
    (now, reactions::heartbeat_text(timing, (age_ms + now) / 1000))
}

/// The heartbeat is due after one delay, and what it depends on is as before.
proof fn lemma_restarted(s: reactions::ControllerState, op: reactions::Op)
    requires
        restarts_heartbeat(s, op),
        s.timing.stall_text_ms is Some,
    ensures
        due_after(None, 0, reactions::op_step(s, op).1) == Some(
            s.timing.stall_text_ms->0 as nat,
        ),
        reactions::op_step(s, op).0.timing == s.timing,
        reactions::op_step(s, op).0.finished == s.finished,
        reactions::op_step(s, op).0.current == s.current,
{
    assert(reactions::op_step(s, op).1.last() == (reactions::EffectView::Start {
        slot: Slot::Heartbeat,
        delay_ms: s.timing.stall_text_ms->0,
    }));
}

/// What one heartbeat says, and when the next is due.
proof fn lemma_heartbeat_fired(s: reactions::ControllerState, now: nat, secs: u64)
    requires
        !s.finished,
        s.timing.stall_text_ms is Some,
    ensures
        ({
            let (after, effects) = reactions::op_step(s, reactions::Op::HeartbeatFired(secs));
            &&& after == s
            &&& due_after(None, now, effects) == if s.timing.stall_text_repeat {
                Some(now + s.timing.stall_text_ms->0 as nat)
            } else {
                None
            }
            &&& said_at(now, effects) == seq![
                (now, reactions::heartbeat_text(s.timing, secs as nat)),
            ]
        }),
{
    let effects = reactions::op_step(s, reactions::Op::HeartbeatFired(secs)).1;
    let content = reactions::heartbeat_text(s.timing, secs as nat);
    let sent = seq![reactions::EffectView::SendMessage(content)];
    assert(sent.drop_last() =~= seq![]);
    assert(said_at(now, seq![]) =~= seq![]);
    assert(due_after(None, now, seq![]) is None);
    assert(said_at(now, sent) =~= seq![(now, content)]);
    if s.timing.stall_text_repeat {
        assert(effects.drop_last() =~= sent);
    } else {
        assert(effects =~= sent);
    }
}

/// While nothing else happens, the heartbeat is said whenever its delay has
/// passed once more since its timer was started: for the `k`th time after `k`
/// delays, with the time since the turn began. It is said again and again if it
/// is to be repeated, and once if not. Nothing else changes.
pub proof fn law_heartbeat_times(
    s: reactions::ControllerState,
    op: reactions::Op,
    age_ms: nat,
    n: nat,
)
    requires
        restarts_heartbeat(s, op),
        !s.finished,
        s.timing.stall_text_ms is Some,
        (age_ms + n * s.timing.stall_text_ms->0 as nat) / 1000 <= u64::MAX,
    ensures
        ({
            let m = s.timing.stall_text_ms->0 as nat;
            let turn = quiet_turn(s, op, age_ms, n);
            let times = if s.timing.stall_text_repeat || n == 0 {
                n
            } else {
                1
            };
            &&& turn.state == reactions::op_step(s, op).0
            &&& turn.state.current == s.current
            &&& turn.said == Seq::new(
                times,
                |i: int| nth_heartbeat(s.timing, age_ms, (i + 1) as nat),
            )
            &&& turn.due == if s.timing.stall_text_repeat || n == 0 {
                Some((n + 1) * m)
            } else {
                None
            }
        }),
    decreases n,
{
    let m = s.timing.stall_text_ms->0 as nat;
    let turn = quiet_turn(s, op, age_ms, n);
    lemma_restarted(s, op);
    if n == 0 {
        assert((0 + 1) * m == m);
        assert(turn.said =~= Seq::new(
            0,
            |i: int| nth_heartbeat(s.timing, age_ms, (i + 1) as nat),
        ));
    } else {
        let k = (n - 1) as nat;
        assert(k * m <= n * m) by (nonlinear_arith)
            requires
                k <= n,
        ;
        law_heartbeat_times(s, op, age_ms, k);
        let before = quiet_turn(s, op, age_ms, k);
        if let Some(now) = before.due {
            assert(now == n * m);
            let secs = ((age_ms + now) / 1000) as u64;
            lemma_heartbeat_fired(before.state, now, secs);
            assert((n + 1) * m == n * m + m) by (nonlinear_arith);
            assert(turn.said =~= before.said.push(nth_heartbeat(s.timing, age_ms, n)));
            assert(turn.said =~= Seq::new(
                n,
                |i: int| nth_heartbeat(s.timing, age_ms, (i + 1) as nat),
            ));
        } else {
            assert(turn == before);
        }
    }
}

/// The other timers leave the heartbeat alone: they neither start nor stop it,
/// say nothing, and change nothing that it depends on.
pub proof fn law_other_timers_leave_heartbeat(
    s: reactions::ControllerState,
    op: reactions::Op,
    due: Option<nat>,
    now: nat,
)
    requires
        op is DebounceFired || op is SoftStallFired || op is HardStallFired,
    ensures
        due_after(due, now, reactions::op_step(s, op).1) == due,
        said_at(now, reactions::op_step(s, op).1).len() == 0,
        reactions::op_step(s, op).0.timing == s.timing,
        reactions::op_step(s, op).0.finished == s.finished,
{
    let effects = reactions::op_step(s, op).1;
    reveal_with_fuel(due_after, 3);
    reveal_with_fuel(said_at, 3);
    if effects.len() == 2 {
        assert(effects.drop_last().len() == 1);
        assert(effects.drop_last().last() == effects[0]);
        assert(effects.drop_last().drop_last().len() == 0);
    } else if effects.len() == 1 {
        assert(effects.drop_last().len() == 0);
    }
}

/// The emoji of a stage that the agent goes through.
pub open spec fn stage_emoji(op: reactions::Op, emojis: reactions::EmojisView) -> Seq<char> {
    match op {
        reactions::Op::Tool(class) => reactions::class_emoji(class, emojis),
        _ => emojis.thinking,
    }
}

/// None of the effects is one that people see.
pub open spec fn is_invisible(effects: Seq<reactions::EffectView>) -> bool {
    forall|i: int| 0 <= i < effects.len() ==> !is_visible(#[trigger] effects[i])
}

/// The last stage wins: of two that come within the debounce delay, thinking or
/// a tool each, only the second is shown, unless it is what already stands
/// there. Nothing is seen before the timer fires; then the emoji of the second
/// is added, and the one before it is removed.
pub proof fn law_last_stage_wins(
    s: reactions::ControllerState,
    a: reactions::Op,
    b: reactions::Op,
)
    requires
        s.enabled,
        !s.finished,
        a is Thinking || a is Tool,
        b is Thinking || b is Tool,
        stage_emoji(b, s.emojis) != s.current,
    ensures
        ({
            let (first, first_effects) = reactions::op_step(s, a);
            let (second, second_effects) = reactions::op_step(first, b);
            let (fired, fired_effects) = reactions::op_step(second, reactions::Op::DebounceFired);
            let emoji = stage_emoji(b, s.emojis);
            &&& is_invisible(first_effects)
            &&& is_invisible(second_effects)
            &&& second.current == s.current
            &&& fired.current == emoji
            &&& fired_effects == seq![reactions::EffectView::AddReaction(emoji)]
                + reactions::when(
                s.current.len() > 0,
                reactions::EffectView::RemoveReaction(s.current),
            )
            &&& stage_emoji(a, s.emojis) != emoji ==> !(first_effects + second_effects
                + fired_effects).contains(
                reactions::EffectView::AddReaction(stage_emoji(a, s.emojis)),
            )
        }),
{
    let (first, first_effects) = reactions::op_step(s, a);
    let (second, second_effects) = reactions::op_step(first, b);
    let fired_effects = reactions::op_step(second, reactions::Op::DebounceFired).1;
    lemma_debounced_only_timers(s, stage_emoji(a, s.emojis));
    lemma_debounced_only_timers(first, stage_emoji(b, s.emojis));
    assert(is_invisible(first_effects));
    assert(is_invisible(second_effects));
    if stage_emoji(a, s.emojis) != stage_emoji(b, s.emojis) {
        let added = reactions::EffectView::AddReaction(stage_emoji(a, s.emojis));
        let all = first_effects + second_effects + fired_effects;
        assert forall|i: int| 0 <= i < all.len() implies all[i] != added by {
            let n = first_effects.len() as int;
            let m = second_effects.len() as int;
            if i < n {
                assert(all[i] == first_effects[i]);
            } else if i < n + m {
                assert(all[i] == second_effects[i - n]);
            } else {
                assert(all[i] == fired_effects[i - n - m]);
            }
        }
    }
}

/// Tasks of effects one after the other.
proof fn lemma_tasks_concat(
    t: Set<Slot>,
    a: Seq<reactions::EffectView>,
    b: Seq<reactions::EffectView>,
)
    ensures
        tasks_after(t, a + b) == tasks_after(tasks_after(t, a), b),
    decreases b.len(),
{
    if b.len() == 0 {
        assert(a + b =~= a);
    } else {
        assert((a + b).drop_last() =~= a + b.drop_last());
        lemma_tasks_concat(t, a, b.drop_last());
    }
}

/// Starts into free timers, one sequence after the other.
proof fn lemma_free_concat(
    t: Set<Slot>,
    a: Seq<reactions::EffectView>,
    b: Seq<reactions::EffectView>,
)
    requires
        starts_are_free(t, a),
        starts_are_free(tasks_after(t, a), b),
    ensures
        starts_are_free(t, a + b),
{
    let c = a + b;
    assert forall|i: int| 0 <= i < c.len() implies match #[trigger] c[i] {
        reactions::EffectView::Start { slot, delay_ms } => !tasks_after(t, c.take(i)).contains(
            slot,
        ),
        _ => true,
    } by {
        if i < a.len() {
            assert(c.take(i) =~= a.take(i));
            assert(c[i] == a[i]);
        } else {
            assert(c.take(i) =~= a + b.take(i - a.len()));
            lemma_tasks_concat(t, a, b.take(i - a.len()));
            assert(c[i] == b[i - a.len()]);
        }
    }
}

/// Effects that touch no timer.
proof fn lemma_no_tasks(t: Set<Slot>, effects: Seq<reactions::EffectView>)
    requires
        forall|i: int|
            0 <= i < effects.len() ==> !((#[trigger] effects[i]) is Start) && !(
            effects[i] is Abort),
    ensures
        tasks_after(t, effects) == t,
        starts_are_free(t, effects),
    decreases effects.len(),
{
    if effects.len() > 0 {
        let rest = effects.drop_last();
        assert forall|i: int| 0 <= i < rest.len() implies !((#[trigger] rest[i]) is Start) && !(
        rest[i] is Abort) by {
            assert(rest[i] == effects[i]);
        }
        lemma_no_tasks(t, rest);
        assert(effects.last() == effects[effects.len() - 1]);
    }
}

/// One effect, or none.
proof fn lemma_when(t: Set<Slot>, condition: bool, effect: reactions::EffectView)
    ensures
        tasks_after(t, reactions::when(condition, effect)) == (if condition {
            tasks_after_one(t, effect)
        } else {
            t
        }),
        effect !is Start ==> starts_are_free(t, reactions::when(condition, effect)),
        effect is Start && condition && !t.contains(effect->slot) ==> starts_are_free(
            t,
            reactions::when(condition, effect),
        ),
        effect is Start && !condition ==> starts_are_free(t, reactions::when(condition, effect)),
{
    let w = reactions::when(condition, effect);
    reveal_with_fuel(tasks_after, 2);
    if condition {
        assert(w.drop_last().len() == 0);
        assert(w.take(0).len() == 0);
        assert(w[0] == effect);
    }
}

/// Stopping the debounce timer.
proof fn lemma_cancel_debounce_tasks(s: reactions::ControllerState)
    ensures
        tasks_after(tasks(s), reactions::cancel_debounce(s).1) == tasks(
            reactions::cancel_debounce(s).0,
        ),
        starts_are_free(tasks(s), reactions::cancel_debounce(s).1),
{
    lemma_when(tasks(s), s.debounce_set, reactions::EffectView::Abort(Slot::Debounce));
    assert(tasks_after(tasks(s), reactions::cancel_debounce(s).1) =~= tasks(
        reactions::cancel_debounce(s).0,
    ));
}

/// Stopping all timers.
proof fn lemma_cancel_timers_tasks(s: reactions::ControllerState)
    ensures
        tasks_after(tasks(s), reactions::cancel_timers(s).1) == tasks(
            reactions::cancel_timers(s).0,
        ),
        starts_are_free(tasks(s), reactions::cancel_timers(s).1),
{
    let t = tasks(s);
    let e1 = reactions::when(s.debounce_set, reactions::EffectView::Abort(Slot::Debounce));
    let e2 = reactions::when(s.soft_set, reactions::EffectView::Abort(Slot::SoftStall));
    let e3 = reactions::when(s.hard_set, reactions::EffectView::Abort(Slot::HardStall));
    let e4 = reactions::when(s.heartbeat_set, reactions::EffectView::Abort(Slot::Heartbeat));
    lemma_when(t, s.debounce_set, reactions::EffectView::Abort(Slot::Debounce));
    let t1 = tasks_after(t, e1);
    lemma_when(t1, s.soft_set, reactions::EffectView::Abort(Slot::SoftStall));
    let t2 = tasks_after(t1, e2);
    lemma_when(t2, s.hard_set, reactions::EffectView::Abort(Slot::HardStall));
    let t3 = tasks_after(t2, e3);
    lemma_when(t3, s.heartbeat_set, reactions::EffectView::Abort(Slot::Heartbeat));
    lemma_tasks_concat(t, e1, e2);
    lemma_tasks_concat(t, e1 + e2, e3);
    lemma_tasks_concat(t, e1 + e2 + e3, e4);
    lemma_free_concat(t, e1, e2);
    lemma_free_concat(t, e1 + e2, e3);
    lemma_free_concat(t, e1 + e2 + e3, e4);
    assert(tasks_after(t3, e4) =~= tasks(reactions::cancel_timers(s).0));
}

/// Restarting the stall timers.
proof fn lemma_reset_tasks(s: reactions::ControllerState)
    ensures
        tasks_after(tasks(s), reactions::reset_stall_timers(s).1) == tasks(
            reactions::reset_stall_timers(s).0,
        ),
        starts_are_free(tasks(s), reactions::reset_stall_timers(s).1),
{
    let t = tasks(s);
    let soft = reactions::EffectView::Start {
        slot: Slot::SoftStall,
        delay_ms: s.timing.stall_soft_ms,
    };
    let hard = reactions::EffectView::Start {
        slot: Slot::HardStall,
        delay_ms: s.timing.stall_hard_ms,
    };
    let beat = reactions::EffectView::Start {
        slot: Slot::Heartbeat,
        delay_ms: s.timing.stall_text_ms->0,
    };
    let e1 = reactions::when(s.soft_set, reactions::EffectView::Abort(Slot::SoftStall));
    let e2 = reactions::when(s.hard_set, reactions::EffectView::Abort(Slot::HardStall));
    let e3 = reactions::when(s.heartbeat_set, reactions::EffectView::Abort(Slot::Heartbeat));
    let e4 = reactions::when(true, soft);
    let e5 = reactions::when(true, hard);
    let e6 = reactions::when(s.timing.stall_text_ms is Some, beat);
    lemma_when(t, s.soft_set, reactions::EffectView::Abort(Slot::SoftStall));
    let t1 = tasks_after(t, e1);
    lemma_when(t1, s.hard_set, reactions::EffectView::Abort(Slot::HardStall));
    let t2 = tasks_after(t1, e2);
    lemma_when(t2, s.heartbeat_set, reactions::EffectView::Abort(Slot::Heartbeat));
    let t3 = tasks_after(t2, e3);
    lemma_when(t3, true, soft);
    let t4 = tasks_after(t3, e4);
    lemma_when(t4, true, hard);
    let t5 = tasks_after(t4, e5);
    lemma_when(t5, s.timing.stall_text_ms is Some, beat);
    lemma_tasks_concat(t, e1, e2);
    lemma_tasks_concat(t, e1 + e2, e3);
    lemma_tasks_concat(t, e1 + e2 + e3, e4);
    lemma_tasks_concat(t, e1 + e2 + e3 + e4, e5);
    lemma_tasks_concat(t, e1 + e2 + e3 + e4 + e5, e6);
    lemma_free_concat(t, e1, e2);
    lemma_free_concat(t, e1 + e2, e3);
    lemma_free_concat(t, e1 + e2 + e3, e4);
    lemma_free_concat(t, e1 + e2 + e3 + e4, e5);
    lemma_free_concat(t, e1 + e2 + e3 + e4 + e5, e6);
    assert(reactions::reset_stall_timers(s).1 =~= e1 + e2 + e3 + e4 + e5 + e6);
    assert(tasks_after(t5, e6) =~= tasks(reactions::reset_stall_timers(s).0));
}

/// Every timer has one task at most, and the controller knows which have one:
/// a task is started only where there is none, and after the effects of an
/// operation the tasks are those that the controller remembers.
pub proof fn law_one_task_per_timer(s: reactions::ControllerState, op: reactions::Op)
    ensures
        starts_are_free(tasks(s), reactions::op_step(s, op).1),
        tasks_after(tasks(s), reactions::op_step(s, op).1) == tasks(reactions::op_step(s, op).0),
{
    let t = tasks(s);
    let (after, effects) = reactions::op_step(s, op);
    match op {
        reactions::Op::Queued => {
            if s.enabled && !s.finished && s.emojis.queued != s.current {
                let (quiet, aborts) = reactions::cancel_debounce(s);
                let changes = reactions::show(quiet, s.emojis.queued).1;
                let reset = seq![reactions::EffectView::ResetStallTimers];
                lemma_cancel_debounce_tasks(s);
                lemma_no_tasks(tasks(quiet), changes + reset);
                lemma_tasks_concat(t, aborts, changes + reset);
                lemma_free_concat(t, aborts, changes + reset);
                assert(effects =~= aborts + (changes + reset));
            } else {
                lemma_no_tasks(t, effects);
            }
            assert(tasks(after) =~= tasks_after(t, effects));
        },
        reactions::Op::Thinking => {
            lemma_debounced_tasks(s, s.emojis.thinking);
            lemma_no_tasks(t, seq![]);
        },
        reactions::Op::Tool(class) => {
            lemma_debounced_tasks(s, reactions::class_emoji(class, s.emojis));
            lemma_no_tasks(t, seq![]);
        },
        reactions::Op::Done(n) => {
            lemma_finish_tasks(s, s.emojis.done);
            let face = seq![reactions::EffectView::AddReaction(reactions::faces()[n as int % 8])];
            let (done, changes) = reactions::finish(s, s.emojis.done);
            lemma_no_tasks(tasks(done), face);
            lemma_tasks_concat(t, changes, face);
            lemma_free_concat(t, changes, face);
            lemma_no_tasks(t, seq![]);
        },
        reactions::Op::Error => {
            lemma_finish_tasks(s, s.emojis.error);
            lemma_no_tasks(t, seq![]);
        },
        reactions::Op::Clear => {
            let (quiet, aborts) = reactions::cancel_timers(s);
            let removed = reactions::when(
                s.current.len() > 0,
                reactions::EffectView::RemoveReaction(s.current),
            );
            lemma_cancel_timers_tasks(s);
            lemma_no_tasks(tasks(quiet), removed);
            lemma_tasks_concat(t, aborts, removed);
            lemma_free_concat(t, aborts, removed);
            lemma_no_tasks(t, seq![]);
            assert(tasks(after) =~= tasks_after(t, effects));
        },
        reactions::Op::ResetStallTimers => {
            lemma_reset_tasks(s);
        },
        _ => {
            lemma_no_tasks(t, effects);
            assert(tasks(after) =~= t);
        },
    }
}

/// Showing an emoji after the debounce delay.
proof fn lemma_debounced_tasks(s: reactions::ControllerState, emoji: Seq<char>)
    ensures
        starts_are_free(tasks(s), reactions::schedule_debounced(s, emoji).1),
        tasks_after(tasks(s), reactions::schedule_debounced(s, emoji).1) == tasks(
            reactions::schedule_debounced(s, emoji).0,
        ),
{
    let t = tasks(s);
    if s.finished || emoji == s.current {
        lemma_reset_tasks(s);
    } else {
        let (quiet, aborts) = reactions::cancel_debounce(s);
        let armed = reactions::ControllerState {
            debounce_set: true,
            pending: Some(emoji),
            ..quiet
        };
        let start = reactions::EffectView::Start {
            slot: Slot::Debounce,
            delay_ms: s.timing.debounce_ms,
        };
        let started = reactions::when(true, start);
        let resets = reactions::reset_stall_timers(armed).1;
        lemma_cancel_debounce_tasks(s);
        lemma_when(tasks(quiet), true, start);
        assert(tasks_after(tasks(quiet), started) =~= tasks(armed));
        lemma_reset_tasks(armed);
        lemma_tasks_concat(t, aborts, started);
        lemma_tasks_concat(t, aborts + started, resets);
        lemma_free_concat(t, aborts, started);
        lemma_free_concat(t, aborts + started, resets);
        assert(reactions::schedule_debounced(s, emoji).1 =~= aborts + started + resets);
    }
}

/// Ending a turn.
proof fn lemma_finish_tasks(s: reactions::ControllerState, emoji: Seq<char>)
    ensures
        starts_are_free(tasks(s), reactions::finish(s, emoji).1),
        tasks_after(tasks(s), reactions::finish(s, emoji).1) == tasks(
            reactions::finish(s, emoji).0,
        ),
{
    let t = tasks(s);
    if s.finished {
        lemma_no_tasks(t, reactions::finish(s, emoji).1);
    } else {
        let over = reactions::ControllerState { finished: true, ..s };
        let (quiet, aborts) = reactions::cancel_timers(over);
        let changes = reactions::show(quiet, emoji).1;
        assert(tasks(over) =~= t);
        lemma_cancel_timers_tasks(over);
        lemma_no_tasks(tasks(quiet), changes);
        lemma_tasks_concat(t, aborts, changes);
        lemma_free_concat(t, aborts, changes);
        assert(tasks(reactions::finish(s, emoji).0) =~= tasks(quiet));
    }
}

/// A new controller shows nothing and has no task.
pub proof fn law_new_controller_is_idle(
    enabled: bool,
    emojis: reactions::EmojisView,
    timing: reactions::TimingView,
)
    ensures
        status_reaction(StatusReactionController::initial(enabled, emojis, timing))
            == Set::<Seq<char>>::empty(),
        tasks(StatusReactionController::initial(enabled, emojis, timing))
            == Set::<Slot>::empty(),
{
    assert(tasks(StatusReactionController::initial(enabled, emojis, timing))
        =~= Set::<Slot>::empty());
}

} // verus!
