//! What holds of prompts over HTTP, whatever the requests and whatever becomes of
//! them.
use vstd::prelude::*;
use vstd::utf8::*;
use crate::http::Status;
use crate::http;
use crate::text;

verus! {

/// The byte is the letter with that code in lower case, or the same letter in
/// upper case.
pub open spec fn is_letter(b: u8, lower: u8) -> bool {
    b == lower || b + 32 == lower
}

/// Who may send prompts, byte for byte: with a token set, whoever sends `Bearer`
/// in whatever case, one space, and the token, all of it in visible ASCII, spaces
/// and tabs; and nobody else. Without one, everybody.
pub proof fn law_authorized_header(value: Seq<u8>, token: Seq<char>)
    ensures
        token.len() > 0 ==> (http::is_authorized(Some(value), token) <==> {
            &&& value.len() == 7 + token.len()
            &&& is_letter(value[0], 98)
            &&& is_letter(value[1], 101)
            &&& is_letter(value[2], 97)
            &&& is_letter(value[3], 114)
            &&& is_letter(value[4], 101)
            &&& is_letter(value[5], 114)
            &&& value[6] == 32
            &&& forall|i: int|
                7 <= i < value.len() ==> (32 <= #[trigger] value[i] < 127 || value[i] == 9)
                    && value[i] as char == token[i - 7]
        }),
        token.len() == 0 ==> http::is_authorized(Some(value), token) && http::is_authorized(
            None,
            token,
        ),
        token.len() > 0 ==> !http::is_authorized(None, token),
{
    if token.len() > 0 {
        http::law_bearer_token(value, token);
        let t = http::header_text(value);
        if http::is_authorized(Some(value), token) {
            let k = choose|k: int|
                #![trigger value[k]]
                0 <= k < value.len() && value[k] == 32 && http::is_bearer(t.take(k)) && t.skip(
                    k + 1,
                ) == token;
            lemma_scheme(value, k);
            assert forall|i: int| 7 <= i < value.len() implies (32 <= #[trigger] value[i] < 127
                || value[i] == 9) && value[i] as char == token[i - 7] by {
                assert(http::is_text_byte(value[i]));
                assert(t.skip(7)[i - 7] == t[i]);
            }
        }
        if value.len() == 7 + token.len() && is_letter(value[0], 98) && is_letter(value[1], 101)
            && is_letter(value[2], 97) && is_letter(value[3], 114) && is_letter(value[4], 101)
            && is_letter(value[5], 114) && value[6] == 32 && (forall|i: int|
            7 <= i < value.len() ==> (32 <= #[trigger] value[i] < 127 || value[i] == 9)
                && value[i] as char == token[i - 7]) {
            lemma_letters(value);
            assert(t.skip(7) =~= token);
            assert(http::is_header_text(value)) by {
                assert forall|i: int| 0 <= i < value.len() implies http::is_text_byte(
                    #[trigger] value[i],
                ) by {
                    if i < 7 {
                        assert(i == 0 || i == 1 || i == 2 || i == 3 || i == 4 || i == 5 || i == 6);
                    }
                }
            }
            assert(value[6] == 32);
        }
    }
}

/// A scheme that is "bearer" in some case has its six letters.
proof fn lemma_scheme(value: Seq<u8>, k: int)
    requires
        0 <= k < value.len(),
        http::is_bearer(http::header_text(value).take(k)),
    ensures
        k == 6,
        is_letter(value[0], 98),
        is_letter(value[1], 101),
        is_letter(value[2], 97),
        is_letter(value[3], 114),
        is_letter(value[4], 101),
        is_letter(value[5], 114),
{
    reveal_strlit("bearer");
    let scheme = http::header_text(value).take(k);
    let low = scheme.map_values(|c: char| http::ascii_lower(c));
    assert(low.len() == 6);
    assert(low[0] == http::ascii_lower(value[0] as char));
    assert(low[1] == http::ascii_lower(value[1] as char));
    assert(low[2] == http::ascii_lower(value[2] as char));
    assert(low[3] == http::ascii_lower(value[3] as char));
    assert(low[4] == http::ascii_lower(value[4] as char));
    assert(low[5] == http::ascii_lower(value[5] as char));
}

/// The six letters, in whatever case, are the bearer scheme.
proof fn lemma_letters(value: Seq<u8>)
    requires
        value.len() >= 6,
        is_letter(value[0], 98),
        is_letter(value[1], 101),
        is_letter(value[2], 97),
        is_letter(value[3], 114),
        is_letter(value[4], 101),
        is_letter(value[5], 114),
    ensures
        http::is_bearer(http::header_text(value).take(6)),
{
    reveal_strlit("bearer");
    let scheme = http::header_text(value).take(6);
    let low = scheme.map_values(|c: char| http::ascii_lower(c));
    assert(low[0] == http::ascii_lower(value[0] as char));
    assert(low[1] == http::ascii_lower(value[1] as char));
    assert(low[2] == http::ascii_lower(value[2] as char));
    assert(low[3] == http::ascii_lower(value[3] as char));
    assert(low[4] == http::ascii_lower(value[4] as char));
    assert(low[5] == http::ascii_lower(value[5] as char));
    assert(low =~= "bearer"@);
}

/// The request asks for something that can be taken: neither its session id nor
/// its prompt is empty, and they take at most 128 and 65536 bytes.
pub open spec fn is_acceptable(session_id: Seq<char>, prompt: Seq<char>) -> bool {
    &&& 0 < session_id.len()
    &&& 0 < prompt.len()
    &&& encode_utf8(session_id).len() <= 128
    &&& encode_utf8(prompt).len() <= 65536
}

/// The agent gets what was sent: an authorized, acceptable request opens the
/// session of its id, and once that is ready exactly its prompt, whole and
/// unchanged, is run in that session.
pub proof fn law_sent_prompt_is_run(
    value: Option<Seq<u8>>,
    token: Seq<char>,
    session_id: Seq<char>,
    prompt: Seq<char>,
)
    ensures
        ({
            let (stage, action) = http::admitted(value, token, session_id, prompt);
            let key = "http:"@ + session_id;
            &&& action is OpenSession <==> http::is_authorized(value, token) && is_acceptable(
                session_id,
                prompt,
            )
            &&& action is OpenSession ==> action == (http::HandleActionView::OpenSession { key })
                && http::handle_step(stage, http::HandleEventView::SessionReady) == (
                http::StageView::Running { key },
                http::HandleActionView::RunPrompt { key, prompt },
            )
        }),
{
}

/// What a request is refused with at once: a wrong token with 401, whatever else
/// it holds; then an empty field or a long session id with 400, and then a long
/// prompt with 413.
pub proof fn law_refused_request(
    value: Option<Seq<u8>>,
    token: Seq<char>,
    session_id: Seq<char>,
    prompt: Seq<char>,
)
    ensures
        ({
            let (stage, action) = http::admitted(value, token, session_id, prompt);
            let allowed = http::is_authorized(value, token);
            let empty = session_id.len() == 0 || prompt.len() == 0;
            let long_id = encode_utf8(session_id).len() > 128;
            let long_prompt = encode_utf8(prompt).len() > 65536;
            &&& !allowed ==> is_refusal(action, 401, "invalid token"@)
            &&& allowed && empty ==> is_refusal(action, 400, "session_id and prompt are required"@)
            &&& allowed && !empty && long_id ==> is_refusal(action, 400, "session_id too long"@)
            &&& allowed && !empty && !long_id && long_prompt ==> is_refusal(
                action,
                413,
                "prompt too long"@,
            )
            &&& stage is Answered <==> action is Respond
        }),
{
}

/// The action answers with that status and message.
pub open spec fn is_refusal(
    action: http::HandleActionView,
    code: u16,
    message: Seq<char>,
) -> bool {
    action matches http::HandleActionView::Respond(Err(refusal)) && refusal.status.number() == code
        && refusal.message == message
}

/// What becomes of a prompt: an unavailable session is answered 503, a response
/// is handed on as it is, a failure is answered 500, and a prompt that takes too
/// long has its own session reset and is then answered 504.
pub proof fn law_outcome_of_a_prompt(
    key: Seq<char>,
    prompt: Seq<char>,
    response: http::ResponseView,
)
    ensures
        ({
            let opening = http::StageView::Opening { key, prompt };
            let running = http::StageView::Running { key };
            let (a, unavailable) = http::handle_step(
                opening,
                http::HandleEventView::SessionUnavailable,
            );
            let (b, finished) = http::handle_step(
                running,
                http::HandleEventView::RunFinished(response),
            );
            let (c, broken) = http::handle_step(running, http::HandleEventView::RunFailed);
            let (d, late) = http::handle_step(running, http::HandleEventView::TimedOut);
            let (e, reset) = http::handle_step(d, http::HandleEventView::ResetDone);
            &&& a is Answered && is_refusal(unavailable, 503, "service unavailable"@)
            &&& b is Answered && finished == http::HandleActionView::Respond(Ok(response))
            &&& c is Answered && is_refusal(broken, 500, "internal error"@)
            &&& d !is Answered && late == (http::HandleActionView::ResetSession { key })
            &&& e is Answered && is_refusal(reset, 504, "prompt timeout"@)
        }),
{
}

/// An event that does not fit where the handling stands changes nothing.
pub proof fn law_stray_event_is_passed_over(
    stage: http::StageView,
    event: http::HandleEventView,
)
    requires
        match stage {
            http::StageView::Opening { key, prompt } => event !is SessionReady && event
                !is SessionUnavailable,
            http::StageView::Running { key } => event !is RunFinished && event !is RunFailed
                && event !is TimedOut,
            http::StageView::Resetting => event !is ResetDone,
            http::StageView::Answered => true,
        },
    ensures
        http::handle_step(stage, event) == (stage, http::HandleActionView::Nothing),
{
}

/// The statuses are different numbers.
pub proof fn law_status_numbers(status: Status)
    ensures
        status is BadRequest ==> status.number() == 400,
        status is Unauthorized ==> status.number() == 401,
        status is PayloadTooLarge ==> status.number() == 413,
        status is InternalServerError ==> status.number() == 500,
        status is ServiceUnavailable ==> status.number() == 503,
        status is GatewayTimeout ==> status.number() == 504,
{
}

/// A running prompt, event by event: text without an id is added, whole and at
/// the end, to what was said; an answer to the prompt's own request ends it, with
/// all that was said or with the agent's error; an answer to another request
/// changes nothing; and the end of the messages ends it with all that was said.
/// The mark that the session had begun anew stays as it was throughout.
pub proof fn law_running_prompt(
    run: http::RunView,
    id: u64,
    said: Seq<char>,
    error: Option<Seq<char>>,
    extra: Option<Seq<char>>,
)
    ensures
        ({
            let talk = http::RunEventView::Notification { id: None, error, text: Some(said) };
            let silence = http::RunEventView::Notification { id: None, error, text: None };
            let answer = http::RunEventView::Notification { id: Some(id), error, text: extra };
            let whole = http::ResponseView {
                response: run.text,
                session_reset: run.session_reset,
            };
            &&& http::run_after(run, talk) == (http::RunView { text: run.text + said, ..run })
            &&& http::run_action(run, talk) is Continue
            &&& http::run_after(run, silence) == run
            &&& http::run_action(run, silence) is Continue
            &&& http::run_after(run, answer) == run
            &&& run.request_id == Some(id) && error is None ==> http::run_action(run, answer)
                == http::RunActionView::Finish(whole)
            &&& run.request_id == Some(id) && error is Some ==> http::run_action(run, answer)
                == http::RunActionView::StopAndFail("agent returned "@ + error->0)
            &&& run.request_id != Some(id) ==> http::run_action(run, answer) is Continue
            &&& http::run_action(run, http::RunEventView::Closed) == http::RunActionView::Finish(
                whole,
            )
            &&& http::run_after(run, http::RunEventView::Closed) == run
            &&& http::run_after(run, http::RunEventView::Sent(id)) == (http::RunView {
                request_id: Some(id),
                ..run
            })
            &&& http::run_action(run, http::RunEventView::Sent(id)) is Continue
            &&& http::run_action(run, http::RunEventView::NotSent(said))
                == http::RunActionView::StopAndFail(said)
        }),
{
}

/// A prompt begins with nothing said, unsent, and with the mark of its session.
pub proof fn law_prompt_begins(session_reset: bool)
    ensures
        ({
            let run = http::run_begun(session_reset);
            &&& run.text.len() == 0
            &&& run.request_id is None
            &&& run.session_reset == session_reset
        }),
{
}

/// A server's address is what it is bound to, a colon, and the port in decimal.
pub proof fn law_server_address(bind: Seq<char>, port: nat)
    ensures
        http::server_address(bind, port).len() == bind.len() + 1 + text::decimal(port).len(),
        http::server_address(bind, port).take(bind.len() as int) == bind,
        http::server_address(bind, port)[bind.len() as int] == ':',
        http::server_address(bind, port).skip(bind.len() as int + 1) == text::decimal(port),
{
    reveal_strlit(":");
    let s = http::server_address(bind, port);
    assert(s.take(bind.len() as int) =~= bind);
    assert(s.skip(bind.len() as int + 1) =~= text::decimal(port));
}

/// The response is all that was said: whatever parts the agent says, between the
/// sending of the prompt and the answer to it, the response is those parts put
/// together, with the mark that the session had.
pub proof fn law_response_is_all_parts(run: http::RunView, id: u64, parts: Seq<Seq<char>>)
    ensures
        ({
            let end = after_parts(http::run_after(run, http::RunEventView::Sent(id)), parts);
            http::run_action(
                end,
                http::RunEventView::Notification { id: Some(id), error: None, text: None },
            ) == http::RunActionView::Finish(
                http::ResponseView {
                    response: run.text + parts.flatten(),
                    session_reset: run.session_reset,
                },
            )
        }),
{
    lemma_after_parts(http::run_after(run, http::RunEventView::Sent(id)), parts);
}

/// A running prompt after the agent has said some parts.
pub open spec fn after_parts(run: http::RunView, parts: Seq<Seq<char>>) -> http::RunView
    decreases parts.len(),
{
    if parts.len() == 0 {
        run
    } else {
        let next = http::run_after(
            run,
            http::RunEventView::Notification { id: None, error: None, text: Some(parts[0]) },
        );
        after_parts(next, parts.drop_first())
    }
}

proof fn lemma_after_parts(run: http::RunView, parts: Seq<Seq<char>>)
    ensures
        after_parts(run, parts) == (http::RunView { text: run.text + parts.flatten(), ..run }),
    decreases parts.len(),
{
    if parts.len() == 0 {
        assert(run.text + parts.flatten() =~= run.text);
    } else {
        let next = http::run_after(
            run,
            http::RunEventView::Notification { id: None, error: None, text: Some(parts[0]) },
        );
        let rest = parts.drop_first();
        lemma_after_parts(next, rest);
        assert(parts.flatten() == parts[0] + rest.flatten());
        assert(run.text + parts[0] + rest.flatten() =~= run.text + parts.flatten());
    }
}

} // verus!
