use axum::http::header::AUTHORIZATION;
use axum::http::{HeaderMap, HeaderValue};
use openab::http::{
    admit_prompt, authorized_by, bearer_authorized, begin_run, handle_prompt, run_prompt, run_server,
    validate_prompt_request, HandleAction, HandleEvent, HttpConfig, PromptRequest, PromptResponse,
    PromptStage, RunAction, RunEvent, Status, MAX_PROMPT, MAX_SESSION_ID,
};
use openab::startup::{allowed_channels, check_config, expand_variables, session_ttl_secs};

fn prompt_request(session_id: &str, prompt: &str) -> PromptRequest {
    PromptRequest {
        session_id: session_id.to_string(),
        prompt: prompt.to_string(),
    }
}

#[test]
fn bearer_authorized_accepts_valid_token_case_insensitive_scheme() {
    let mut headers = HeaderMap::new();
    headers.insert(AUTHORIZATION, "bEaReR secret".parse().unwrap());

    assert!(bearer_authorized(&headers, "secret"));
}

#[test]
fn bearer_authorized_rejects_missing_wrong_or_wrong_scheme() {
    assert!(!bearer_authorized(&HeaderMap::new(), "secret"));

    let mut headers = HeaderMap::new();
    headers.insert(AUTHORIZATION, "Bearer nope".parse().unwrap());
    assert!(!bearer_authorized(&headers, "secret"));

    headers.insert(AUTHORIZATION, "Basic secret".parse().unwrap());
    assert!(!bearer_authorized(&headers, "secret"));
}

#[test]
fn bearer_authorized_allows_empty_token_for_internal_tests_only() {
    assert!(bearer_authorized(&HeaderMap::new(), ""));
}

#[test]
fn validate_prompt_request_accepts_valid_payload() {
    assert!(validate_prompt_request(&prompt_request("session", "hello")).is_ok());
}

#[test]
fn validate_prompt_request_rejects_empty_fields() {
    let err = validate_prompt_request(&prompt_request("", "hello")).unwrap_err();
    assert_eq!(err.status, Status::BadRequest);

    let err = validate_prompt_request(&prompt_request("session", "")).unwrap_err();
    assert_eq!(err.status, Status::BadRequest);
}

#[test]
fn validate_prompt_request_rejects_large_payloads() {
    let err = validate_prompt_request(&prompt_request(&"s".repeat(MAX_SESSION_ID + 1), "hello"))
        .unwrap_err();
    assert_eq!(err.status, Status::BadRequest);

    let err = validate_prompt_request(&prompt_request("session", &"p".repeat(MAX_PROMPT + 1)))
        .unwrap_err();
    assert_eq!(err.status, Status::PayloadTooLarge);
}

fn with_header(value: &[u8]) -> HeaderMap<HeaderValue> {
    let mut headers = HeaderMap::new();
    headers.insert(AUTHORIZATION, HeaderValue::from_bytes(value).unwrap());
    headers
}

#[test]
fn token_is_all_behind_the_first_space() {
    assert!(bearer_authorized(&with_header(b"Bearer a b"), "a b"));
    assert!(bearer_authorized(&with_header(b"Bearer  a"), " a"));
    assert!(!bearer_authorized(&with_header(b"Bearer  a"), "a"));
    assert!(!bearer_authorized(&with_header(b"Bearer"), "Bearer"));
    assert!(!bearer_authorized(&with_header(b"Bearer "), "x"));
    assert!(!bearer_authorized(&with_header(b"Bearer secret2"), "secret"));
    assert!(!bearer_authorized(&with_header(b"Bearer secre"), "secret"));
    assert!(!bearer_authorized(&with_header(b"Bearers secret"), "secret"));
    assert!(!bearer_authorized(&with_header(b"secret"), "secret"));
}

#[test]
fn header_bytes_decide() {
    assert!(authorized_by(Some(b"BEARER secret"), "secret"));
    assert!(!authorized_by(Some(b"Bearer Secret"), "secret"));
    assert!(!authorized_by(Some(b"Bearer\tsecret"), "secret"));
    assert!(!authorized_by(Some(b""), "secret"));
    assert!(!authorized_by(None, "secret"));
    assert!(authorized_by(None, ""));
    // Bytes above ASCII are no text, even where they are the token's own.
    assert!(!authorized_by(Some("Bearer é".as_bytes()), "é"));
}

#[test]
fn every_end_stops_listening() {
    let own = |error: Option<&str>| RunEvent::Notification {
        id: Some(2),
        error: error.map(|e| e.to_string()),
        text: None,
    };
    let ends = vec![
        RunEvent::NotSent("x".to_string()),
        own(Some("x")),
        own(None),
        RunEvent::Closed,
    ];
    for end in ends {
        let mut reset = false;
        let mut run = begin_run(&mut reset);
        run_prompt(&mut run, RunEvent::Sent(2));
        let action = run_prompt(&mut run, end);
        assert!(matches!(
            action,
            RunAction::Finish(_) | RunAction::StopAndFail(_)
        ));
    }
}

#[test]
fn first_of_several_headers_counts() {
    let mut headers = with_header(b"Bearer one");
    headers.append(AUTHORIZATION, HeaderValue::from_static("Bearer two"));
    assert!(bearer_authorized(&headers, "one"));
    assert!(!bearer_authorized(&headers, "two"));
    headers.insert("x-other", HeaderValue::from_static("Bearer three"));
    assert!(!bearer_authorized(&headers, "three"));
}

#[test]
fn header_bytes_that_are_no_text_present_nothing() {
    for b in 0u8..=255 {
        let mut value = b"Bearer x".to_vec();
        value.push(b);
        if let Ok(header) = HeaderValue::from_bytes(&value) {
            let is_text = header.to_str().is_ok();
            let mut headers = HeaderMap::new();
            headers.insert(AUTHORIZATION, header);
            let token: String = vec!['x', b as char].iter().collect();
            assert_eq!(bearer_authorized(&headers, &token), is_text, "byte {b}");
        }
    }
}

#[test]
fn messages_of_refused_prompts() {
    let err = validate_prompt_request(&prompt_request("", "")).unwrap_err();
    assert_eq!(err.message, "session_id and prompt are required");
    let err = validate_prompt_request(&prompt_request(&"é".repeat(65), "x")).unwrap_err();
    assert_eq!(err.message, "session_id too long");
    assert!(validate_prompt_request(&prompt_request(&"é".repeat(64), "x")).is_ok());
    let err = validate_prompt_request(&prompt_request("s", &"é".repeat(32 * 1024 + 1))).unwrap_err();
    assert_eq!(err.message, "prompt too long");
    assert!(validate_prompt_request(&prompt_request("s", &"é".repeat(32 * 1024))).is_ok());
}

#[test]
fn status_codes() {
    assert_eq!(Status::BadRequest.code(), 400);
    assert_eq!(Status::Unauthorized.code(), 401);
    assert_eq!(Status::PayloadTooLarge.code(), 413);
    assert_eq!(Status::InternalServerError.code(), 500);
    assert_eq!(Status::ServiceUnavailable.code(), 503);
    assert_eq!(Status::GatewayTimeout.code(), 504);
}

fn refusal(action: HandleAction) -> (u16, String) {
    match action {
        HandleAction::Respond(Err(refusal)) => (refusal.status.code(), refusal.message),
        _ => panic!("not refused"),
    }
}

fn opened() -> PromptStage {
    let (stage, action) = admit_prompt(
        &with_header(b"Bearer secret"),
        "secret",
        prompt_request("ci-main", "hello"),
    );
    match action {
        HandleAction::OpenSession { key } => assert_eq!(key, "http:ci-main"),
        _ => panic!("no session is opened"),
    }
    stage
}

fn running() -> PromptStage {
    let (stage, action) = handle_prompt(opened(), HandleEvent::SessionReady);
    match action {
        HandleAction::RunPrompt { key, prompt } => {
            assert_eq!(key, "http:ci-main");
            assert_eq!(prompt, "hello");
        }
        _ => panic!("the prompt does not run"),
    }
    stage
}

#[test]
fn unauthorized_request_is_refused_first() {
    let (stage, action) = admit_prompt(&HeaderMap::new(), "secret", prompt_request("", ""));
    assert!(matches!(stage, PromptStage::Answered));
    assert_eq!(refusal(action), (401, "invalid token".to_string()));
}

#[test]
fn invalid_request_is_refused() {
    let (stage, action) = admit_prompt(&HeaderMap::new(), "", prompt_request("s", ""));
    assert!(matches!(stage, PromptStage::Answered));
    assert_eq!(
        refusal(action),
        (400, "session_id and prompt are required".to_string())
    );
}

#[test]
fn unavailable_pool_is_answered() {
    let (stage, action) = handle_prompt(opened(), HandleEvent::SessionUnavailable);
    assert!(matches!(stage, PromptStage::Answered));
    assert_eq!(refusal(action), (503, "service unavailable".to_string()));
}

#[test]
fn finished_prompt_is_answered() {
    let response = PromptResponse {
        response: "hi".to_string(),
        session_reset: true,
    };
    let (stage, action) = handle_prompt(running(), HandleEvent::RunFinished(response));
    assert!(matches!(stage, PromptStage::Answered));
    match action {
        HandleAction::Respond(Ok(response)) => {
            assert_eq!(response.response, "hi");
            assert!(response.session_reset);
        }
        _ => panic!("no response"),
    }
}

#[test]
fn failed_prompt_is_answered() {
    let (_, action) = handle_prompt(running(), HandleEvent::RunFailed);
    assert_eq!(refusal(action), (500, "internal error".to_string()));
}

#[test]
fn timeout_resets_the_session_before_the_answer() {
    let (stage, action) = handle_prompt(running(), HandleEvent::TimedOut);
    match action {
        HandleAction::ResetSession { key } => assert_eq!(key, "http:ci-main"),
        _ => panic!("the session is not reset"),
    }
    let (stage, action) = handle_prompt(stage, HandleEvent::ResetDone);
    assert!(matches!(stage, PromptStage::Answered));
    assert_eq!(refusal(action), (504, "prompt timeout".to_string()));
    let (stage, action) = handle_prompt(stage, HandleEvent::RunFailed);
    assert!(matches!(stage, PromptStage::Answered));
    assert!(matches!(action, HandleAction::Nothing));
}

fn text(t: &str) -> RunEvent {
    RunEvent::Notification {
        id: None,
        error: None,
        text: Some(t.to_string()),
    }
}

#[test]
fn response_is_what_was_said() {
    let mut reset = true;
    let mut run = begin_run(&mut reset);
    assert!(!reset);
    assert!(matches!(
        run_prompt(&mut run, RunEvent::Sent(4)),
        RunAction::Continue
    ));
    assert!(matches!(run_prompt(&mut run, text("one ")), RunAction::Continue));
    let other = RunEvent::Notification {
        id: Some(3),
        error: Some("late".to_string()),
        text: None,
    };
    assert!(matches!(run_prompt(&mut run, other), RunAction::Continue));
    let silent = RunEvent::Notification {
        id: None,
        error: None,
        text: None,
    };
    assert!(matches!(run_prompt(&mut run, silent), RunAction::Continue));
    assert!(matches!(run_prompt(&mut run, text("two")), RunAction::Continue));
    let own = RunEvent::Notification {
        id: Some(4),
        error: None,
        text: None,
    };
    match run_prompt(&mut run, own) {
        RunAction::Finish(response) => {
            assert_eq!(response.response, "one two");
            assert!(response.session_reset);
        }
        action => panic!("{action:?}"),
    }
}

#[test]
fn agent_error_fails_the_run() {
    let mut reset = false;
    let mut run = begin_run(&mut reset);
    run_prompt(&mut run, RunEvent::Sent(1));
    let own = RunEvent::Notification {
        id: Some(1),
        error: Some("boom".to_string()),
        text: None,
    };
    match run_prompt(&mut run, own) {
        RunAction::StopAndFail(message) => assert_eq!(message, "agent returned boom"),
        action => panic!("{action:?}"),
    }
}

#[test]
fn unsent_prompt_stops_and_fails() {
    let mut reset = false;
    let mut run = begin_run(&mut reset);
    match run_prompt(&mut run, RunEvent::NotSent("broken pipe".to_string())) {
        RunAction::StopAndFail(message) => assert_eq!(message, "broken pipe"),
        action => panic!("{action:?}"),
    }
}

#[test]
fn closed_stream_finishes_the_run() {
    let mut reset = false;
    let mut run = begin_run(&mut reset);
    run_prompt(&mut run, RunEvent::Sent(1));
    run_prompt(&mut run, text("half"));
    match run_prompt(&mut run, RunEvent::Closed) {
        RunAction::Finish(response) => {
            assert_eq!(response.response, "half");
            assert!(!response.session_reset);
        }
        action => panic!("{action:?}"),
    }
}

#[test]
fn server_plan() {
    let plan = run_server(HttpConfig {
        enabled: true,
        bind: "127.0.0.1".to_string(),
        port: 7865,
        token: "t".to_string(),
        timeout_ms: 300_000,
    });
    assert_eq!(plan.addr, "127.0.0.1:7865");
    assert_eq!(plan.path, "/prompt");
    assert_eq!(plan.token, "t");
    assert_eq!(plan.timeout_ms, 300_000);
}

#[test]
fn config_needs_a_trigger() {
    assert_eq!(
        check_config(false, false, ""),
        Err("no trigger configured -- set [discord] bot_token or [http] enabled = true".to_string())
    );
    assert_eq!(check_config(true, false, ""), Ok(()));
}

#[test]
fn http_trigger_needs_a_token() {
    let message = "http trigger is enabled without a token -- set http.token in config. \
                   If running without auth is intentional (e.g. local development), \
                   set http.token = \"none\" and handle access control at the network layer.";
    assert_eq!(check_config(true, true, ""), Err(message.to_string()));
    assert_eq!(check_config(false, true, ""), Err(message.to_string()));
    assert_eq!(check_config(false, true, "none"), Ok(()));
}

#[test]
fn ttl_in_seconds() {
    assert_eq!(session_ttl_secs(0), 0);
    assert_eq!(session_ttl_secs(24), 86_400);
}

#[test]
fn channels_are_the_numbers_among_the_ids() {
    let ids: Vec<String> = ["123", "+7", "x", "", "-1", "18446744073709551615", "123",
        "18446744073709551616", " 5"]
        .iter()
        .map(|s| s.to_string())
        .collect();
    let channels = allowed_channels(&ids);
    assert_eq!(channels.len(), 3);
    assert!(channels.contains(&123));
    assert!(channels.contains(&7));
    assert!(channels.contains(&u64::MAX));
    for id in &ids {
        if let Ok(n) = id.parse::<u64>() {
            assert!(channels.contains(&n));
        }
    }
}

#[test]
fn variables_are_put_in() {
    let vars = vec![
        ("A".to_string(), "one".to_string()),
        ("B".to_string(), "${A}".to_string()),
        ("A".to_string(), "two".to_string()),
    ];
    assert_eq!(expand_variables("token = \"${A}\"", &vars), "token = \"one\"");
    assert_eq!(expand_variables("${A}${B}${C}.", &vars), "one${A}.");
    assert_eq!(expand_variables("$A {A} ${A", &vars), "$A {A} ${A");
    assert_eq!(expand_variables("", &vars), "");
}
