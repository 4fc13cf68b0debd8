//! What holds of each stage of a turn and of each timer: which emoji is shown,
//! which timers run on and how long, and what is said.
use vstd::prelude::*;
use crate::reactions::{Slot, StatusReactionController, ToolClass};
use crate::reactions;
use crate::text;
use crate::text_laws;

verus! {

/// The words by which a web tool is known.
pub open spec fn web_word(k: int) -> Seq<char> {
    if k == 0 {
        "web_search"@
    } else if k == 1 {
        "web_fetch"@
    } else if k == 2 {
        "web-search"@
    } else if k == 3 {
        "web-fetch"@
    } else {
        "browser"@
    }
}

/// The words by which a coding tool is known.
pub open spec fn coding_word(k: int) -> Seq<char> {
    if k == 0 {
        "exec"@
    } else if k == 1 {
        "process"@
    } else if k == 2 {
        "read"@
    } else if k == 3 {
        "write"@
    } else if k == 4 {
        "edit"@
    } else if k == 5 {
        "bash"@
    } else {
        "shell"@
    }
}

/// A tool is a web tool if any of the words for it stands anywhere in its name.
pub proof fn law_web_word_makes_a_web_tool(before: Seq<char>, k: int, behind: Seq<char>)
    requires
        0 <= k < 5,
    ensures
        reactions::tool_class(before + web_word(k) + behind) == ToolClass::Web,
{
    text_laws::law_occurrence(before, web_word(k), behind);
}

/// A tool is a coding tool if any of the words for it stands anywhere in its name
/// and none of the words for a web tool does.
pub proof fn law_coding_word_makes_a_coding_tool(before: Seq<char>, k: int, behind: Seq<char>)
    requires
        0 <= k < 7,
        forall|j: int|
            0 <= j < 5 ==> !text::contains(
                before + coding_word(k) + behind,
                #[trigger] web_word(j),
            ),
    ensures
        reactions::tool_class(before + coding_word(k) + behind) == ToolClass::Coding,
{
    let name = before + coding_word(k) + behind;
    text_laws::law_occurrence(before, coding_word(k), behind);
    assert(!text::contains(name, web_word(0)));
    assert(!text::contains(name, web_word(1)));
    assert(!text::contains(name, web_word(2)));
    assert(!text::contains(name, web_word(3)));
    assert(!text::contains(name, web_word(4)));
}

/// The kind of a tool says which words stand in its name: one for a web tool; one
/// for a coding tool and none for a web tool; or none at all.
pub proof fn law_kind_of_a_tool(name: Seq<char>)
    ensures
        ({
            let web = exists|j: int| 0 <= j < 5 && text::contains(name, #[trigger] web_word(j));
            let coding = exists|j: int|
                0 <= j < 7 && text::contains(name, #[trigger] coding_word(j));
            &&& reactions::tool_class(name) is Web <==> web
            &&& reactions::tool_class(name) is Coding <==> coding && !web
            &&& reactions::tool_class(name) is Other <==> !coding && !web
        }),
{
    assert(web_word(0) == "web_search"@);
    assert(web_word(1) == "web_fetch"@);
    assert(web_word(2) == "web-search"@);
    assert(web_word(3) == "web-fetch"@);
    assert(web_word(4) == "browser"@);
    assert(coding_word(0) == "exec"@);
    assert(coding_word(1) == "process"@);
    assert(coding_word(2) == "read"@);
    assert(coding_word(3) == "write"@);
    assert(coding_word(4) == "edit"@);
    assert(coding_word(5) == "bash"@);
    assert(coding_word(6) == "shell"@);
}

/// Each kind of tool has its own emoji.
pub proof fn law_emoji_of_a_tool(emojis: reactions::EmojisView)
    ensures
        reactions::class_emoji(ToolClass::Web, emojis) == emojis.web,
        reactions::class_emoji(ToolClass::Coding, emojis) == emojis.coding,
        reactions::class_emoji(ToolClass::Other, emojis) == emojis.tool,
{
}

/// A time is given in seconds up to a minute, in whole minutes up to an hour, and
/// in whole hours and the whole minutes beyond them from then on.
pub proof fn law_elapsed_time(hours: nat, minutes: nat, seconds: nat)
    requires
        minutes < 60,
        seconds < 60,
    ensures
        ({
            let shown = reactions::elapsed(hours * 3600 + minutes * 60 + seconds);
            &&& hours == 0 && minutes == 0 ==> shown == text::decimal(seconds) + seq!['s']
            &&& hours == 0 && minutes > 0 ==> shown == text::decimal(minutes) + seq!['m']
            &&& hours > 0 ==> shown == text::decimal(hours) + seq!['h'] + text::decimal(minutes)
                + seq!['m']
        }),
{
    reveal_strlit("s");
    reveal_strlit("m");
    reveal_strlit("h");
    assert("s"@ =~= seq!['s']);
    assert("m"@ =~= seq!['m']);
    assert("h"@ =~= seq!['h']);
    let secs = hours * 3600 + minutes * 60 + seconds;
    assert(secs / 60 == hours * 60 + minutes) by (nonlinear_arith)
        requires
            secs == hours * 3600 + minutes * 60 + seconds,
            seconds < 60,
    ;
    assert(secs / 3600 == hours) by (nonlinear_arith)
        requires
            secs == hours * 3600 + minutes * 60 + seconds,
            seconds < 60,
            minutes < 60,
    ;
    assert(secs % 3600 == minutes * 60 + seconds) by (nonlinear_arith)
        requires
            secs == hours * 3600 + minutes * 60 + seconds,
            seconds < 60,
            minutes < 60,
    ;
    assert((minutes * 60 + seconds) / 60 == minutes) by (nonlinear_arith)
        requires
            seconds < 60,
    ;
}

/// What a heartbeat says is the configured text, or else the usual one, with the
/// time in the place of every `{elapsed}`.
pub proof fn law_heartbeat_text(timing: reactions::TimingView, secs: nat)
    ensures
        timing.stall_text_template matches Some(t) ==> reactions::heartbeat_text(timing, secs)
            == text::replace_all(t, "{elapsed}"@, reactions::elapsed(secs)),
        timing.stall_text_template is None ==> reactions::heartbeat_text(timing, secs)
            == text::replace_all(
            "⏳ still working · elapsed {elapsed}"@,
            "{elapsed}"@,
            reactions::elapsed(secs),
        ),
{
}

/// The faces that a turn may end with.
pub proof fn law_faces(n: usize)
    ensures
        reactions::faces().len() == 8,
        ({
            let face = reactions::faces()[n as int % 8];
            &&& n % 8 == 0 ==> face == "😊"@
            &&& n % 8 == 1 ==> face == "😎"@
            &&& n % 8 == 2 ==> face == "🫡"@
            &&& n % 8 == 3 ==> face == "🤓"@
            &&& n % 8 == 4 ==> face == "😏"@
            &&& n % 8 == 5 ==> face == "✌️"@
            &&& n % 8 == 6 ==> face == "💪"@
            &&& n % 8 == 7 ==> face == "🦾"@
        }),
{
}

/// One effect or none.
pub open spec fn maybe(condition: bool, effect: reactions::EffectView) -> Seq<
    reactions::EffectView,
> {
    if condition {
        seq![effect]
    } else {
        Seq::empty()
    }
}

/// An emoji comes on the message, and another that stood there goes.
pub open spec fn exchange(old: Seq<char>, new: Seq<char>) -> Seq<reactions::EffectView> {
    seq![reactions::EffectView::AddReaction(new)] + maybe(
        old.len() > 0 && old != new,
        reactions::EffectView::RemoveReaction(old),
    )
}

/// The timers that signal a stall are stopped where they run, and started with
/// their whole delays; that of the heartbeat only if it has one.
pub open spec fn stall_restart(s: reactions::ControllerState) -> Seq<reactions::EffectView> {
    maybe(s.soft_set, reactions::EffectView::Abort(Slot::SoftStall)) + maybe(
        s.hard_set,
        reactions::EffectView::Abort(Slot::HardStall),
    ) + maybe(s.heartbeat_set, reactions::EffectView::Abort(Slot::Heartbeat)) + seq![
        reactions::EffectView::Start { slot: Slot::SoftStall, delay_ms: s.timing.stall_soft_ms },
        reactions::EffectView::Start { slot: Slot::HardStall, delay_ms: s.timing.stall_hard_ms },
    ] + maybe(
        s.timing.stall_text_ms is Some,
        reactions::EffectView::Start {
            slot: Slot::Heartbeat,
            delay_ms: s.timing.stall_text_ms->0,
        },
    )
}

/// All timers are stopped where they run.
pub open spec fn full_stop(s: reactions::ControllerState) -> Seq<reactions::EffectView> {
    maybe(s.debounce_set, reactions::EffectView::Abort(Slot::Debounce)) + maybe(
        s.soft_set,
        reactions::EffectView::Abort(Slot::SoftStall),
    ) + maybe(s.hard_set, reactions::EffectView::Abort(Slot::HardStall)) + maybe(
        s.heartbeat_set,
        reactions::EffectView::Abort(Slot::Heartbeat),
    )
}

/// A message that waits for its turn shows so at once: the emoji for that takes
/// the place of any other, no other is pending any more, and then the stall timers
/// begin anew. A turn that is over, or shows it already, is left alone.
pub proof fn law_waiting_shows_at_once(s: reactions::ControllerState)
    requires
        s.enabled,
    ensures
        ({
            let (after, effects) = reactions::op_step(s, reactions::Op::Queued);
            if s.finished || s.current == s.emojis.queued {
                after == s && effects.len() == 0
            } else {
                &&& effects == maybe(
                    s.debounce_set,
                    reactions::EffectView::Abort(Slot::Debounce),
                ) + exchange(s.current, s.emojis.queued) + seq![
                    reactions::EffectView::ResetStallTimers,
                ]
                &&& after == (reactions::ControllerState {
                    current: s.emojis.queued,
                    pending: None,
                    debounce_set: false,
                    ..s
                })
            }
        }),
{
}

/// Thinking, or a tool, is shown after the debounce delay, and takes the place of
/// what was to be shown; in every case the stall timers begin anew. A turn that is
/// over, or shows it already, only has its stall timers begun anew.
pub proof fn law_stage_shows_after_a_delay(
    s: reactions::ControllerState,
    op: reactions::Op,
    emoji: Seq<char>,
)
    requires
        s.enabled,
        match op {
            reactions::Op::Thinking => emoji == s.emojis.thinking,
            reactions::Op::Tool(ToolClass::Web) => emoji == s.emojis.web,
            reactions::Op::Tool(ToolClass::Coding) => emoji == s.emojis.coding,
            reactions::Op::Tool(ToolClass::Other) => emoji == s.emojis.tool,
            _ => false,
        },
    ensures
        ({
            let (after, effects) = reactions::op_step(s, op);
            let running = reactions::ControllerState {
                soft_set: true,
                hard_set: true,
                heartbeat_set: s.timing.stall_text_ms is Some,
                ..s
            };
            if s.finished || s.current == emoji {
                effects == stall_restart(s) && after == running
            } else {
                &&& effects == maybe(
                    s.debounce_set,
                    reactions::EffectView::Abort(Slot::Debounce),
                ) + seq![
                    reactions::EffectView::Start {
                        slot: Slot::Debounce,
                        delay_ms: s.timing.debounce_ms,
                    },
                ] + stall_restart(s)
                &&& after == (reactions::ControllerState {
                    pending: Some(emoji),
                    debounce_set: true,
                    ..running
                })
            }
        }),
{
}

/// The stall timers begin anew when that is asked for.
pub proof fn law_stall_timers_begin_anew(s: reactions::ControllerState)
    ensures
        reactions::op_step(s, reactions::Op::ResetStallTimers) == (
            reactions::ControllerState {
                soft_set: true,
                hard_set: true,
                heartbeat_set: s.timing.stall_text_ms is Some,
                ..s
            },
            stall_restart(s),
        ),
{
}

/// The end of a turn stops every timer and shows at once how the turn ended, in
/// the place of any other emoji; it is over from then on. Where it was over
/// before, nothing changes. A turn that is done shows a face as well, each time.
pub proof fn law_end_shows_at_once(s: reactions::ControllerState, n: usize)
    requires
        s.enabled,
    ensures
        ({
            let (failed, failed_effects) = reactions::op_step(s, reactions::Op::Error);
            let (done, done_effects) = reactions::op_step(s, reactions::Op::Done(n));
            let face = seq![
                reactions::EffectView::AddReaction(reactions::faces()[n as int % 8]),
            ];
            let over = reactions::ControllerState {
                finished: true,
                pending: None,
                debounce_set: false,
                soft_set: false,
                hard_set: false,
                heartbeat_set: false,
                ..s
            };
            if s.finished {
                failed == s && failed_effects.len() == 0 && done == s && done_effects == face
            } else {
                &&& failed == (reactions::ControllerState { current: s.emojis.error, ..over })
                &&& failed_effects == full_stop(s) + exchange(s.current, s.emojis.error)
                &&& done == (reactions::ControllerState { current: s.emojis.done, ..over })
                &&& done_effects == full_stop(s) + exchange(s.current, s.emojis.done) + face
            }
        }),
{
    let done_effects = reactions::op_step(s, reactions::Op::Done(n)).1;
    let face = seq![reactions::EffectView::AddReaction(reactions::faces()[n as int % 8])];
    if s.finished {
        assert(done_effects =~= face);
    }
}

/// Clearing stops every timer and takes the status emoji away; whether the turn
/// is over stays as it was.
pub proof fn law_clearing_takes_all_away(s: reactions::ControllerState)
    requires
        s.enabled,
    ensures
        reactions::op_step(s, reactions::Op::Clear) == (
            reactions::ControllerState {
                current: Seq::empty(),
                pending: None,
                debounce_set: false,
                soft_set: false,
                hard_set: false,
                heartbeat_set: false,
                ..s
            },
            full_stop(s) + maybe(
                s.current.len() > 0,
                reactions::EffectView::RemoveReaction(s.current),
            ),
        ),
{
}

/// A timer that fires shows its emoji in the place of any other, unless the turn
/// is over: the debounce timer what is pending, the others that nothing happens.
pub proof fn law_fired_timer_shows(s: reactions::ControllerState)
    ensures
        ({
            let (debounced, shown) = reactions::op_step(s, reactions::Op::DebounceFired);
            let (yawned, soft) = reactions::op_step(s, reactions::Op::SoftStallFired);
            let (worried, hard) = reactions::op_step(s, reactions::Op::HardStallFired);
            &&& s.pending matches Some(emoji) ==> debounced == (reactions::ControllerState {
                pending: None,
                current: if s.finished {
                    s.current
                } else {
                    emoji
                },
                ..s
            })
            &&& s.pending matches Some(emoji) ==> shown == (if s.finished {
                Seq::empty()
            } else {
                exchange(s.current, emoji)
            })
            &&& s.pending is None ==> debounced == s && shown.len() == 0
            &&& s.finished ==> yawned == s && soft.len() == 0 && worried == s && hard.len() == 0
            &&& !s.finished ==> {
                &&& yawned == (reactions::ControllerState { current: "🥱"@, ..s })
                &&& soft == exchange(s.current, "🥱"@)
                &&& worried == (reactions::ControllerState { current: "😨"@, ..s })
                &&& hard == exchange(s.current, "😨"@)
            }
        }),
{
}

/// A new controller begins with what it was given and with nothing shown, pending
/// or running.
pub proof fn law_new_controller(
    enabled: bool,
    emojis: reactions::EmojisView,
    timing: reactions::TimingView,
)
    ensures
        ({
            let s = StatusReactionController::initial(enabled, emojis, timing);
            &&& s.enabled == enabled && s.emojis == emojis && s.timing == timing
            &&& s.current.len() == 0 && !s.finished && s.pending is None
            &&& !s.debounce_set && !s.soft_set && !s.hard_set && !s.heartbeat_set
        }),
{
}

/// A heartbeat is said only in a turn that goes on and has one configured.
pub proof fn law_no_heartbeat_otherwise(s: reactions::ControllerState, secs: u64)
    requires
        s.finished || s.timing.stall_text_ms is None,
    ensures
        reactions::op_step(s, reactions::Op::HeartbeatFired(secs)) == (
            s,
            Seq::<reactions::EffectView>::empty(),
        ),
{
}

} // verus!
