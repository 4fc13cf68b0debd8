//! What holds of the agent adapter, whatever requests come and however the agent
//! process behaves.
use vstd::prelude::*;
use crate::adapter::StopReason;
use crate::adapter;
use crate::rpc::{ServeAction, ServeEvent, ServeLoop};
use crate::rpc;
use crate::streaming;
use crate::text;

verus! {

/// No output is lost or changed: in every state of the loop, with its input open
/// or closed, a line of output that is ready is written as it is, and the loop
/// goes on as before.
pub proof fn law_output_is_written(state: ServeLoop, line: String)
    ensures
        rpc::loop_action(state, ServeEvent::Output(line)) == ServeAction::Write(line),
        rpc::loop_after(state, ServeEvent::Output(line)) == state,
{
}

/// The lines that were written over several events.
pub open spec fn written(state: ServeLoop, events: Seq<ServeEvent>) -> Seq<String>
    decreases events.len(),
{
    if events.len() == 0 {
        seq![]
    } else {
        let rest = written(rpc::loop_after(state, events[0]), events.drop_first());
        match rpc::loop_action(state, events[0]) {
            ServeAction::Write(line) => seq![line] + rest,
            _ => rest,
        }
    }
}

/// The lines of output that were ready.
pub open spec fn ready(events: Seq<ServeEvent>) -> Seq<String>
    decreases events.len(),
{
    if events.len() == 0 {
        seq![]
    } else {
        match events[0] {
            ServeEvent::Output(line) => seq![line] + ready(events.drop_first()),
            _ => ready(events.drop_first()),
        }
    }
}

/// Over any sequence of events, the lines that are written are the lines of
/// output that were ready, all of them and in order.
pub proof fn law_all_output_is_written(state: ServeLoop, events: Seq<ServeEvent>)
    ensures
        written(state, events) == ready(events),
    decreases events.len(),
{
    if events.len() > 0 {
        law_all_output_is_written(rpc::loop_after(state, events[0]), events.drop_first());
    }
}

/// Every line of input is handled as it is while the input is open; only the end
/// of the input closes it, and nothing opens it again.
pub proof fn law_input_is_handled(state: ServeLoop, event: ServeEvent)
    ensures
        event matches ServeEvent::Input(line) ==> state.stdin_open ==> rpc::loop_action(state, event)
            == ServeAction::Handle(line),
        event !is Input ==> rpc::loop_action(state, event) !is Handle,
        rpc::loop_after(state, event).stdin_open <==> state.stdin_open && event !is InputClosed,
{
}

/// A turn counts until it is reported done, and only that report takes it off.
pub proof fn law_turns_are_counted(state: ServeLoop, event: ServeEvent)
    ensures
        event is TurnFinished && state.pending > 0 ==> rpc::loop_after(state, event).pending
            == state.pending - 1,
        event is TurnFinished && state.pending == 0 ==> rpc::loop_after(state, event).pending == 0,
        event !is TurnFinished ==> rpc::loop_after(state, event).pending == state.pending,
        state.is_over() <==> !state.stdin_open && state.pending == 0,
        rpc::loop_action(state, event) is Exit <==> event is OutputClosed && !state.stdin_open,
{
}

/// Each method leads to its own work, and to no other; a message without an id is
/// no request, and only a cancellation counts among those.
pub proof fn law_methods_are_routed(has_id: bool, method: Seq<char>)
    ensures
        ({
            let r = rpc::route_of(has_id, Some(method));
            let m = method;
            let cancel = m == "session/cancel"@;
            &&& r is CancelSession <==> cancel
            &&& cancel ==> r == (rpc::RouteView::CancelSession { reply: has_id })
            &&& r is Ignore <==> !has_id && !cancel
            &&& has_id && m == "initialize"@ ==> r is Initialize
            &&& has_id && m == "session/new"@ ==> r is NewSession
            &&& has_id && m == "session/load"@ ==> r is LoadSession
            &&& has_id && m == "session/prompt"@ ==> r is Prompt
            &&& has_id && m == "session/setConfigOption"@ ==> r is SetConfigOption
            &&& has_id && m == "session/set_config_option"@ ==> r is SetConfigOption
            &&& r is Initialize ==> has_id && m == "initialize"@
            &&& r is NewSession ==> has_id && m == "session/new"@
            &&& r is LoadSession ==> has_id && m == "session/load"@
            &&& r is Prompt ==> has_id && m == "session/prompt"@
            &&& r is SetConfigOption ==> has_id && (m == "session/setConfigOption"@ || m
                == "session/set_config_option"@)
            &&& r is MethodNotFound ==> has_id && r == rpc::RouteView::MethodNotFound(
                "method not found: "@ + m,
            )
            &&& rpc::is_deferred(r) <==> r is Initialize || r is NewSession || r is LoadSession
                || r is Prompt || r is SetConfigOption
        }),
        rpc::route_of(has_id, None) is Ignore,
{
    lemma_method_names_differ();
}

/// The names of the methods are all different.
proof fn lemma_method_names_differ()
    ensures
        "session/cancel"@ != "initialize"@,
        "session/cancel"@ != "session/new"@,
        "session/cancel"@ != "session/load"@,
        "session/cancel"@ != "session/prompt"@,
        "session/cancel"@ != "session/setConfigOption"@,
        "session/cancel"@ != "session/set_config_option"@,
        "initialize"@ != "session/new"@,
        "initialize"@ != "session/load"@,
        "initialize"@ != "session/prompt"@,
        "initialize"@ != "session/setConfigOption"@,
        "initialize"@ != "session/set_config_option"@,
        "session/new"@ != "session/load"@,
        "session/new"@ != "session/prompt"@,
        "session/new"@ != "session/setConfigOption"@,
        "session/new"@ != "session/set_config_option"@,
        "session/load"@ != "session/prompt"@,
        "session/load"@ != "session/setConfigOption"@,
        "session/load"@ != "session/set_config_option"@,
        "session/prompt"@ != "session/setConfigOption"@,
        "session/prompt"@ != "session/set_config_option"@,
{
    reveal_strlit("session/cancel");
    reveal_strlit("initialize");
    reveal_strlit("session/new");
    reveal_strlit("session/load");
    reveal_strlit("session/prompt");
    reveal_strlit("session/setConfigOption");
    reveal_strlit("session/set_config_option");
    assert("session/cancel"@.len() == 14);
    assert("initialize"@.len() == 10);
    assert("session/new"@.len() == 11);
    assert("session/load"@.len() == 12);
    assert("session/prompt"@.len() == 14);
    assert("session/setConfigOption"@.len() == 23);
    assert("session/set_config_option"@.len() == 25);
    assert("session/cancel"@[8] != "session/prompt"@[8]);
}

/// The turn of a session can be cancelled from its beginning until it is over,
/// and by what was given for it last; other sessions are not touched. A turn
/// without a session cannot be cancelled.
pub proof fn law_running_turn_can_be_cancelled<T>(
    active: Map<Seq<char>, T>,
    session_id: Seq<char>,
    flag: T,
    other: Seq<char>,
)
    requires
        other != session_id,
    ensures
        ({
            let begun = rpc::registered(active, session_id, flag);
            let over = rpc::released(begun, session_id);
            &&& session_id.len() > 0 ==> begun.contains_key(session_id) && begun[session_id] == flag
            &&& session_id.len() > 0 ==> !over.contains_key(session_id)
            &&& session_id.len() == 0 ==> begun == active && over == active
            &&& begun.contains_key(other) <==> active.contains_key(other)
            &&& over.contains_key(other) <==> active.contains_key(other)
            &&& active.contains_key(other) ==> begun[other] == active[other] && over[other]
                == active[other]
        }),
{
}

/// The models are those that the agent named, if it named any; else those that
/// were kept, even if there are none; else those that are built in.
pub proof fn law_models(fetched: Vec<String>, cached: Option<Vec<String>>, fallback: Vec<String>)
    ensures
        ({
            let (source, models) = rpc::chosen_models(fetched, cached, fallback);
            &&& fetched@.len() > 0 ==> source is Fetched && models == fetched
            &&& fetched@.len() == 0 && cached is Some ==> source is Cached && Some(models) == cached
            &&& fetched@.len() == 0 && cached is None ==> source is Fallback && models == fallback
        }),
{
}

/// How a turn goes: it is started, or fails to be; it runs until its process
/// exits, or is killed when the turn is cancelled; then its output is read to the
/// end. What was cancelled stays so.
pub proof fn law_course_of_a_turn(error: Seq<char>, exit: adapter::ExitView)
    ensures
        adapter::turn_step(
            adapter::TurnView::Starting,
            adapter::EventView::SpawnFailed(error),
        ) == (
            adapter::TurnView::Done,
            adapter::ActionView::Respond(
                adapter::OutputView {
                    reply: adapter::ReplyView::Failed {
                        code: -32000i64,
                        message: "failed to run agy: "@ + error,
                    },
                    session_update: None,
                },
            ),
        ),
        adapter::turn_step(adapter::TurnView::Starting, adapter::EventView::Spawned) == (
            adapter::TurnView::Running,
            adapter::ActionView::AwaitExit,
        ),
        adapter::turn_step(adapter::TurnView::Running, adapter::EventView::CancelRequested) == (
            adapter::TurnView::Stopping,
            adapter::ActionView::KillAndAwaitExit,
        ),
        adapter::turn_step(adapter::TurnView::Running, adapter::EventView::Exited(exit)) == (
            adapter::TurnView::Draining { was_cancelled: false, exit },
            adapter::ActionView::Drain,
        ),
        adapter::turn_step(adapter::TurnView::Stopping, adapter::EventView::Exited(exit)) == (
            adapter::TurnView::Draining { was_cancelled: true, exit },
            adapter::ActionView::Drain,
        ),
{
}

/// What a turn is answered whose process is gone and whose output is read. The
/// session is brought up to date in every case; the reply is an error exactly if
/// waiting failed, or if the process failed uncancelled and showed nothing; and
/// only where it did well uncancelled and showed nothing are the logs asked.
pub proof fn law_answer_after_exit(
    was_cancelled: bool,
    exit: adapter::ExitView,
    report: adapter::ReportView,
)
    ensures
        ({
            let (turn, action) = adapter::turn_step(
                adapter::TurnView::Draining { was_cancelled, exit },
                adapter::EventView::Drained(report),
            );
            let update = Some((report.conversation_id, report.last_step_idx));
            let stderr = text::lossy_utf8(report.stderr);
            match exit {
                adapter::ExitView::WaitFailed(error) => {
                    &&& turn is Done
                    &&& action == adapter::ActionView::Respond(
                        adapter::OutputView {
                            reply: adapter::ReplyView::Failed {
                                code: -32000i64,
                                message: "failed to wait for agy: "@ + error,
                            },
                            session_update: update,
                        },
                    )
                },
                adapter::ExitView::Exited { success, status } => {
                    &&& was_cancelled ==> turn is Done && action == adapter::ActionView::Respond(
                        adapter::OutputView {
                            reply: adapter::ReplyView::Stopped(StopReason::Cancelled),
                            session_update: update,
                        },
                    )
                    &&& !was_cancelled && report.had_updates ==> turn is Done && action
                        == adapter::ActionView::Respond(
                        adapter::OutputView {
                            reply: adapter::ReplyView::Stopped(
                                if success {
                                    StopReason::EndTurn
                                } else {
                                    StopReason::Error
                                },
                            ),
                            session_update: update,
                        },
                    )
                    &&& !was_cancelled && !report.had_updates && !success ==> turn is Done && action
                        == adapter::ActionView::Respond(
                        adapter::OutputView {
                            reply: adapter::ReplyView::Failed {
                                code: -32000i64,
                                message: if stderr.len() == 0 {
                                    "agy exited with status: "@ + status
                                } else {
                                    "agy failed: "@ + text::trim_end(stderr)
                                },
                            },
                            session_update: update,
                        },
                    )
                    &&& !was_cancelled && !report.had_updates && success ==> turn == (
                    adapter::TurnView::Scanning {
                        conversation_id: report.conversation_id,
                        last_step_idx: report.last_step_idx,
                    }) && action is ScanLogs
                },
            }
        }),
{
}

/// What the logs say is the answer: an error that they hold is reported as it is,
/// and without one the turn has ended. The session is brought up to date.
pub proof fn law_answer_after_scan(
    conversation_id: Option<Seq<char>>,
    last_step_idx: i64,
    found: Option<Seq<char>>,
)
    ensures
        adapter::turn_step(
            adapter::TurnView::Scanning { conversation_id, last_step_idx },
            adapter::EventView::LogsScanned(found),
        ) == (
            adapter::TurnView::Done,
            adapter::ActionView::Respond(
                adapter::OutputView {
                    reply: match found {
                        Some(details) => adapter::ReplyView::Failed {
                            code: -32603i64,
                            message: details,
                        },
                        None => adapter::ReplyView::Stopped(StopReason::EndTurn),
                    },
                    session_update: Some((conversation_id, last_step_idx)),
                },
            ),
        ),
{
}

/// An event that does not fit where a turn stands changes nothing.
pub proof fn law_stray_event_changes_nothing(turn: adapter::TurnView, event: adapter::EventView)
    requires
        match turn {
            adapter::TurnView::Starting => event !is SpawnFailed && event !is Spawned,
            adapter::TurnView::Running => event !is CancelRequested && event !is Exited,
            adapter::TurnView::Stopping => event !is Exited,
            adapter::TurnView::Draining { was_cancelled, exit } => event !is Drained,
            adapter::TurnView::Scanning { conversation_id, last_step_idx } => event
                !is LogsScanned,
            adapter::TurnView::Done => true,
        },
    ensures
        adapter::turn_step(turn, event) == (turn, adapter::ActionView::Nothing),
{
}

/// The names of the reasons in the protocol.
pub proof fn law_stop_reason_names(reason: StopReason)
    ensures
        reason is Cancelled ==> reason.name() == "cancelled"@,
        reason is Error ==> reason.name() == "error"@,
        reason is EndTurn ==> reason.name() == "end_turn"@,
{
}

/// A turn that was bound to a conversation is always kept on disk, with its
/// session's id, that conversation and its last step, whether its session is
/// known or not and whatever the session's model is; the model is that of the
/// session. A turn that was bound to none is not kept.
pub proof fn law_bound_turn_is_persisted(
    sessions: Map<Seq<char>, adapter::SessionView>,
    id: Seq<char>,
    bound: Option<Seq<char>>,
    step: i64,
)
    ensures
        ({
            let kept = adapter::persisted_after(sessions, id, Some((bound, step)));
            &&& kept is Some <==> bound is Some
            &&& kept matches Some(p) ==> p.session_id == id && Some(p.conversation_id) == bound
                && p.last_step_idx == step
            &&& kept matches Some(p) ==> sessions.contains_key(id) ==> p.model_id
                == sessions[id].model_id
            &&& kept matches Some(p) ==> !sessions.contains_key(id) ==> p.model_id is None
        }),
        adapter::persisted_after(sessions, id, None) is None,
{
}

/// A turn changes its own session and no other: it binds a session that is bound
/// to nothing, moves to its last step if it was bound to a conversation, and
/// leaves the model. No session comes or goes.
pub proof fn law_turn_moves_its_session(
    sessions: Map<Seq<char>, adapter::SessionView>,
    id: Seq<char>,
    bound: Option<Seq<char>>,
    step: i64,
    other: Seq<char>,
)
    ensures
        ({
            let after = adapter::sessions_after(sessions, id, Some((bound, step)));
            &&& after.dom() == sessions.dom()
            &&& sessions.contains_key(other) && other != id ==> after[other] == sessions[other]
            &&& sessions.contains_key(id) ==> {
                &&& sessions[id].conversation_id is Some ==> after[id].conversation_id
                    == sessions[id].conversation_id
                &&& sessions[id].conversation_id is None ==> after[id].conversation_id == bound
                &&& bound is Some ==> after[id].last_step_idx == step
                &&& bound is None ==> after[id].last_step_idx == sessions[id].last_step_idx
                &&& after[id].model_id == sessions[id].model_id
            }
        }),
        adapter::sessions_after(sessions, id, None) == sessions,
{
    let after = adapter::sessions_after(sessions, id, Some((bound, step)));
    assert(after.dom() =~= sessions.dom());
}

/// What a session was bound to in one turn is what the next one finds, and what
/// was kept on disk of the first is that.
pub proof fn law_session_goes_on(
    sessions: Map<Seq<char>, adapter::SessionView>,
    id: Seq<char>,
    bound: Seq<char>,
    step: i64,
)
    requires
        sessions.contains_key(id),
        sessions[id].conversation_id is None,
    ensures
        ({
            let after = adapter::sessions_after(sessions, id, Some((Some(bound), step)));
            let kept = adapter::persisted_after(after, id, Some((Some(bound), step)));
            &&& kept is Some
            &&& after[id].conversation_id == Some(kept->0.conversation_id)
            &&& after[id].last_step_idx == kept->0.last_step_idx
            &&& after[id].model_id == kept->0.model_id
        }),
{
}

/// How many characters of a step were shown.
pub open spec fn shown_before(s: streaming::StreamView, idx: i64) -> int {
    if s.emitted.contains_key(idx) {
        s.emitted[idx] as int
    } else {
        0
    }
}

/// A step of this turn shows what its text has beyond what was shown of it: with
/// what was shown in front, the new part is the text. A step of an earlier turn,
/// and one that has not grown, shows nothing.
pub proof fn law_new_part_is_shown(s: streaming::StreamView, idx: i64, content: Seq<char>)
    requires
        content.len() <= usize::MAX,
    ensures
        ({
            let n = shown_before(s, idx);
            let d = streaming::delta(s, idx, content);
            let after = streaming::after_step(s, idx, content);
            &&& d is Some <==> idx > s.base_step_idx && content.len() > n
            &&& d matches Some(new) ==> content == content.take(n) + new
            &&& d is Some ==> {
                &&& shown_before(after, idx) == content.len()
                &&& after.had_updates
                &&& after.last_step_idx >= idx && after.last_step_idx >= s.last_step_idx
                &&& after.last_step_idx == idx || after.last_step_idx == s.last_step_idx
                &&& after.conversation_id == s.conversation_id
                &&& after.base_step_idx == s.base_step_idx
            }
            &&& d is None ==> after == s
        }),
{
    let n = shown_before(s, idx);
    if content.len() > n {
        assert(content =~= content.take(n) + content.skip(n));
    }
}

/// What one step shows leaves the other steps as they were.
pub proof fn law_steps_are_shown_apart(
    s: streaming::StreamView,
    idx: i64,
    content: Seq<char>,
    other: i64,
)
    requires
        other != idx,
    ensures
        shown_before(streaming::after_step(s, idx, content), other) == shown_before(s, other),
{
}

/// A turn begins with nothing shown, at the last step of earlier turns; none of
/// their steps is shown, and each of its own is shown whole at first.
pub proof fn law_turn_begins_with_nothing_shown(
    conversation_id: Option<Seq<char>>,
    step_idx: i64,
    idx: i64,
    content: Seq<char>,
)
    ensures
        ({
            let s = streaming::stream_begun(conversation_id, step_idx);
            &&& s.conversation_id == conversation_id
            &&& s.last_step_idx == step_idx
            &&& !s.had_updates
            &&& idx <= step_idx ==> streaming::delta(s, idx, content) is None
            &&& idx > step_idx && content.len() > 0 ==> streaming::delta(s, idx, content) == Some(
                content,
            )
        }),
{
    assert(content.skip(0) =~= content);
}

/// A turn that is bound stays bound, and binding changes nothing else.
pub proof fn law_binding_is_kept(
    s: streaming::StreamView,
    names: Seq<Seq<char>>,
    before: Seq<Seq<char>>,
)
    ensures
        ({
            let bound = streaming::stream_bound(s, names, before);
            &&& s.conversation_id is Some ==> bound == s
            &&& s.conversation_id is None ==> bound.conversation_id == streaming::first_new(
                names,
                before,
            )
            &&& bound.base_step_idx == s.base_step_idx
            &&& bound.last_step_idx == s.last_step_idx
            &&& bound.emitted == s.emitted
            &&& bound.had_updates == s.had_updates
        }),
{
}

/// A turn is bound to the first conversation that was not there before it: of
/// some known ones, a new one and any others, to the new one. Where all are
/// known, it is bound to none.
pub proof fn law_new_conversation_is_bound(
    known: Seq<Seq<char>>,
    name: Seq<char>,
    others: Seq<Seq<char>>,
    before: Seq<Seq<char>>,
)
    requires
        forall|i: int| 0 <= i < known.len() ==> before.contains(#[trigger] known[i]),
    ensures
        !before.contains(name) ==> streaming::first_new(known + seq![name] + others, before)
            == Some(name),
        streaming::first_new(known, before) is None,
    decreases known.len(),
{
    let all = known + seq![name] + others;
    if known.len() > 0 {
        let rest = known.drop_first();
        assert forall|i: int| 0 <= i < rest.len() implies before.contains(#[trigger] rest[i]) by {
            assert(rest[i] == known[i + 1]);
        }
        law_new_conversation_is_bound(rest, name, others, before);
        assert(all[0] == known[0]);
        assert(all.drop_first() =~= rest + seq![name] + others);
    } else {
        assert(all[0] == name);
    }
}

} // verus!
