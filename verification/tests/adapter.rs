use openab::adapter::{
    drained, Adapter, ExitReport, PromptAction, PromptEvent, PromptOutput, PromptTurn, Reply,
    Session, StopReason, TurnReport, INTERNAL_ERROR, SERVER_ERROR,
};
use openab::rpc::{
    choose_models, is_message_line, route, CancelRegistry, ModelSource, Route, ServeAction,
    ServeEvent, ServeLoop, METHOD_NOT_FOUND,
};

fn exited(success: bool, status: &str) -> ExitReport {
    ExitReport::Exited {
        success,
        status: status.to_string(),
    }
}

fn report(had_updates: bool, stderr: &[u8]) -> TurnReport {
    TurnReport {
        conversation_id: Some("conv".to_string()),
        last_step_idx: 7,
        had_updates,
        stderr: stderr.to_vec(),
    }
}

/// Takes a turn through the events and returns its answer.
fn answer(events: Vec<PromptEvent>) -> PromptOutput {
    let mut turn = PromptTurn::Starting;
    let mut output = None;
    for event in events {
        let (next, action) = Adapter::execute_prompt(turn, event);
        turn = next;
        if let PromptAction::Respond(o) = action {
            assert!(output.is_none(), "answered twice");
            output = Some(o);
        }
    }
    assert!(matches!(turn, PromptTurn::Done));
    output.expect("no answer")
}

fn failure(output: PromptOutput) -> (i64, String) {
    match output.reply {
        Reply::Failed { code, message } => (code, message),
        Reply::Stopped(reason) => panic!("stopped: {reason:?}"),
    }
}

fn reason(output: PromptOutput) -> StopReason {
    match output.reply {
        Reply::Stopped(reason) => reason,
        Reply::Failed { code, message } => panic!("failed: {code} {message}"),
    }
}

#[test]
fn spawn_failure_is_answered() {
    let output = answer(vec![PromptEvent::SpawnFailed("no such file".to_string())]);
    assert!(output.session_update.is_none());
    assert_eq!(
        failure(output),
        (SERVER_ERROR, "failed to run agy: no such file".to_string())
    );
    assert_eq!(SERVER_ERROR, -32000);
}

#[test]
fn wait_failure_is_answered() {
    let output = answer(vec![
        PromptEvent::Spawned,
        PromptEvent::Exited(ExitReport::WaitFailed("gone".to_string())),
        PromptEvent::Drained(report(true, b"")),
    ]);
    assert_eq!(output.session_update, Some((Some("conv".to_string()), 7)));
    assert_eq!(
        failure(output),
        (SERVER_ERROR, "failed to wait for agy: gone".to_string())
    );
}

#[test]
fn failing_process_without_output_is_an_error() {
    let output = answer(vec![
        PromptEvent::Spawned,
        PromptEvent::Exited(exited(false, "exit status: 2")),
        PromptEvent::Drained(report(false, b"")),
    ]);
    assert_eq!(
        failure(output),
        (
            SERVER_ERROR,
            "agy exited with status: exit status: 2".to_string()
        )
    );
    let output = answer(vec![
        PromptEvent::Spawned,
        PromptEvent::Exited(exited(false, "exit status: 2")),
        PromptEvent::Drained(report(false, b"bad \xFF flag\n")),
    ]);
    assert_eq!(
        failure(output),
        (SERVER_ERROR, "agy failed: bad \u{FFFD} flag".to_string())
    );
}

#[test]
fn failing_process_with_output_stops_with_error() {
    let output = answer(vec![
        PromptEvent::Spawned,
        PromptEvent::Exited(exited(false, "exit status: 2")),
        PromptEvent::Drained(report(true, b"oops")),
    ]);
    assert_eq!(output.session_update, Some((Some("conv".to_string()), 7)));
    let reason = reason(output);
    assert_eq!(reason, StopReason::Error);
    assert_eq!(reason.as_str(), "error");
}

#[test]
fn swallowed_error_is_reported() {
    let output = answer(vec![
        PromptEvent::Spawned,
        PromptEvent::Exited(exited(true, "exit status: 0")),
        PromptEvent::Drained(report(false, b"")),
        PromptEvent::LogsScanned(Some("RESOURCE_EXHAUSTED".to_string())),
    ]);
    assert_eq!(output.session_update, Some((Some("conv".to_string()), 7)));
    assert_eq!(
        failure(output),
        (INTERNAL_ERROR, "RESOURCE_EXHAUSTED".to_string())
    );
    assert_eq!(INTERNAL_ERROR, -32603);
}

#[test]
fn silent_turn_with_clean_logs_ends() {
    let output = answer(vec![
        PromptEvent::Spawned,
        PromptEvent::Exited(exited(true, "exit status: 0")),
        PromptEvent::Drained(report(false, b"")),
        PromptEvent::LogsScanned(None),
    ]);
    let reason = reason(output);
    assert_eq!(reason, StopReason::EndTurn);
    assert_eq!(reason.as_str(), "end_turn");
}

#[test]
fn turn_with_output_ends_without_a_scan() {
    let output = answer(vec![
        PromptEvent::Spawned,
        PromptEvent::Exited(exited(true, "exit status: 0")),
        PromptEvent::Drained(report(true, b"")),
    ]);
    assert_eq!(reason(output), StopReason::EndTurn);
}

#[test]
fn cancelled_turn_is_answered_as_cancelled() {
    for success in [true, false] {
        let output = answer(vec![
            PromptEvent::Spawned,
            PromptEvent::CancelRequested,
            PromptEvent::Exited(exited(success, "signal: 9")),
            PromptEvent::Drained(report(false, b"")),
        ]);
        let reason = reason(output);
        assert_eq!(reason, StopReason::Cancelled);
        assert_eq!(reason.as_str(), "cancelled");
    }
}

#[test]
fn events_out_of_place_change_nothing() {
    let (turn, action) = Adapter::execute_prompt(PromptTurn::Starting, PromptEvent::CancelRequested);
    assert!(matches!(turn, PromptTurn::Starting));
    assert!(matches!(action, PromptAction::Nothing));
    let (turn, action) = Adapter::execute_prompt(PromptTurn::Done, PromptEvent::Spawned);
    assert!(matches!(turn, PromptTurn::Done));
    assert!(matches!(action, PromptAction::Nothing));
}

#[test]
fn actions_of_a_turn() {
    let (turn, action) = Adapter::execute_prompt(PromptTurn::Starting, PromptEvent::Spawned);
    assert!(matches!(action, PromptAction::AwaitExit));
    let (turn, action) = Adapter::execute_prompt(turn, PromptEvent::CancelRequested);
    assert!(matches!(action, PromptAction::KillAndAwaitExit));
    let (turn, action) =
        Adapter::execute_prompt(turn, PromptEvent::Exited(exited(true, "exit status: 0")));
    assert!(matches!(action, PromptAction::Drain));
    assert!(matches!(
        turn,
        PromptTurn::Draining {
            was_cancelled: true,
            ..
        }
    ));
    let (turn, action) = drained(false, exited(true, "exit status: 0"), report(false, b""), "");
    assert!(matches!(action, PromptAction::ScanLogs));
    assert!(matches!(
        turn,
        PromptTurn::Scanning {
            last_step_idx: 7,
            ..
        }
    ));
}

fn session(conversation: Option<&str>, step: i64) -> Session {
    Session {
        conversation_id: conversation.map(|c| c.to_string()),
        last_step_idx: step,
        model_id: Some("model".to_string()),
    }
}

#[test]
fn session_is_bound_and_kept() {
    let mut adapter = Adapter::new();
    adapter.put_session("a", session(None, -1));
    adapter.put_session("b", session(Some("other"), 3));

    let kept = adapter
        .finish_prompt("a", Some((Some("conv".to_string()), 5)))
        .unwrap();
    assert_eq!(kept.session_id, "a");
    assert_eq!(kept.conversation_id, "conv");
    assert_eq!(kept.last_step_idx, 5);
    assert_eq!(kept.model_id.as_deref(), Some("model"));
    let a = adapter.session("a").unwrap();
    assert_eq!(a.conversation_id.as_deref(), Some("conv"));
    assert_eq!(a.last_step_idx, 5);
    assert_eq!(a.model_id.as_deref(), Some("model"));
    let b = adapter.session("b").unwrap();
    assert_eq!(b.conversation_id.as_deref(), Some("other"));
    assert_eq!(b.last_step_idx, 3);
}

#[test]
fn bound_session_keeps_its_conversation() {
    let mut adapter = Adapter::new();
    adapter.put_session("a", session(Some("first"), 1));
    let kept = adapter
        .finish_prompt("a", Some((Some("second".to_string()), 9)))
        .unwrap();
    assert_eq!(kept.conversation_id, "second");
    let a = adapter.session("a").unwrap();
    assert_eq!(a.conversation_id.as_deref(), Some("first"));
    assert_eq!(a.last_step_idx, 9);
}

#[test]
fn unbound_turn_changes_nothing() {
    let mut adapter = Adapter::new();
    adapter.put_session("a", session(None, 1));
    assert!(adapter.finish_prompt("a", Some((None, 9))).is_none());
    assert!(adapter.finish_prompt("a", None).is_none());
    let a = adapter.session("a").unwrap();
    assert!(a.conversation_id.is_none());
    assert_eq!(a.last_step_idx, 1);
}

#[test]
fn unknown_session_is_kept_without_a_model() {
    let mut adapter = Adapter::new();
    let kept = adapter
        .finish_prompt("x", Some((Some("conv".to_string()), 2)))
        .unwrap();
    assert_eq!(kept.session_id, "x");
    assert!(kept.model_id.is_none());
    assert!(adapter.session("x").is_none());
}

#[test]
fn routes() {
    assert_eq!(route(true, Some("initialize")), Route::Initialize);
    assert_eq!(route(true, Some("session/new")), Route::NewSession);
    assert_eq!(route(true, Some("session/load")), Route::LoadSession);
    assert_eq!(route(true, Some("session/prompt")), Route::Prompt);
    assert_eq!(
        route(true, Some("session/setConfigOption")),
        Route::SetConfigOption
    );
    assert_eq!(
        route(true, Some("session/set_config_option")),
        Route::SetConfigOption
    );
    assert_eq!(
        route(true, Some("session/cancel")),
        Route::CancelSession { reply: true }
    );
    assert_eq!(
        route(true, Some("nope")),
        Route::MethodNotFound("method not found: nope".to_string())
    );
    assert_eq!(METHOD_NOT_FOUND, -32601);
    assert_eq!(route(true, None), Route::Ignore);
}

#[test]
fn notifications_are_not_answered() {
    assert_eq!(route(false, Some("session/prompt")), Route::Ignore);
    assert_eq!(route(false, Some("nope")), Route::Ignore);
    assert_eq!(
        route(false, Some("session/cancel")),
        Route::CancelSession { reply: false }
    );
    assert_eq!(route(false, None), Route::Ignore);
}

#[test]
fn deferred_routes() {
    assert!(Route::Prompt.deferred());
    assert!(Route::Initialize.deferred());
    assert!(!Route::CancelSession { reply: true }.deferred());
    assert!(!Route::Ignore.deferred());
    assert!(!Route::MethodNotFound(String::new()).deferred());
}

#[test]
fn blank_lines_are_no_messages() {
    assert!(is_message_line("{}"));
    assert!(!is_message_line(""));
    assert!(!is_message_line(" \t\u{3000}\r"));
}

#[test]
fn loop_waits_for_turns() {
    let mut state = ServeLoop::new();
    assert!(!state.over());
    assert_eq!(
        state.step(ServeEvent::Input("x".to_string())),
        ServeAction::Handle("x".to_string())
    );
    state.turn_started();
    state.turn_started();
    assert_eq!(state.step(ServeEvent::InputClosed), ServeAction::Nothing);
    assert!(!state.over());
    assert_eq!(
        state.step(ServeEvent::Output("line".to_string())),
        ServeAction::Write("line".to_string())
    );
    assert_eq!(state.step(ServeEvent::TurnFinished), ServeAction::Nothing);
    assert!(!state.over());
    assert_eq!(state.step(ServeEvent::TurnFinished), ServeAction::Nothing);
    assert!(state.over());
    // One report too many does no harm.
    assert_eq!(state.step(ServeEvent::TurnFinished), ServeAction::Nothing);
    assert_eq!(state.pending, 0);
}

#[test]
fn end_of_output_ends_a_loop_without_input() {
    let mut state = ServeLoop::new();
    state.turn_started();
    assert_eq!(state.step(ServeEvent::OutputClosed), ServeAction::Nothing);
    state.step(ServeEvent::InputClosed);
    assert_eq!(state.step(ServeEvent::OutputClosed), ServeAction::Exit);
    assert_eq!(
        state.step(ServeEvent::Input("late".to_string())),
        ServeAction::Nothing
    );
}

#[test]
fn cancellations_are_found_by_session() {
    let mut registry: CancelRegistry<u32> = CancelRegistry::new();
    registry.register("a", 1);
    registry.register("b", 2);
    registry.register("", 3);
    assert_eq!(registry.lookup("a"), Some(&1));
    assert_eq!(registry.lookup(""), None);
    registry.register("a", 4);
    assert_eq!(registry.lookup("a"), Some(&4));
    registry.release("a");
    registry.release("");
    assert_eq!(registry.lookup("a"), None);
    assert_eq!(registry.lookup("b"), Some(&2));
}

fn names(list: &[&str]) -> Vec<String> {
    list.iter().map(|s| s.to_string()).collect()
}

#[test]
fn models_come_from_the_best_source() {
    assert_eq!(
        choose_models(names(&["x"]), Some(names(&["y"])), names(&["z"])),
        (ModelSource::Fetched, names(&["x"]))
    );
    assert_eq!(
        choose_models(vec![], Some(vec![]), names(&["z"])),
        (ModelSource::Cached, vec![])
    );
    assert_eq!(
        choose_models(vec![], None, names(&["z"])),
        (ModelSource::Fallback, names(&["z"]))
    );
}
