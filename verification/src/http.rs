//! The HTTP trigger: who may send a prompt, which prompts are taken, and what
//! each of them is answered.
use axum::http::{HeaderMap, HeaderValue};
use subtle::ConstantTimeEq;
use vstd::prelude::*;
use vstd::slice::slice_subrange;
use vstd::utf8::*;
use crate::text;

verus! {

/// The header map of the crate `http`, as `axum` hands it on.
#[verifier::external_type_specification]
#[verifier::external_body]
#[verifier::reject_recursive_types(T)]
pub struct ExHeaderMap<T>(HeaderMap<T>);

/// A header value of the crate `http`.
#[verifier::external_type_specification]
#[verifier::external_body]
pub struct ExHeaderValue(HeaderValue);

/// What a header map holds: for each name, in lower case, that has a value,
/// the bytes of its values in order.
pub uninterp spec fn header_values(headers: HeaderMap<HeaderValue>) -> Map<Seq<char>, Seq<Seq<u8>>>;

/// `HeaderMap::get` of the crate `http`: the first of the values that the map
/// holds under a name, as bytes, and nothing if it holds none.
#[verifier::external_body]
fn first_value(headers: &HeaderMap<HeaderValue>, name: &str) -> (r: Option<Vec<u8>>)
    requires
        forall|i: int| 0 <= i < name@.len() ==> 'a' <= #[trigger] name@[i] <= 'z',
    ensures
        match r {
            Some(value) => header_values(*headers).contains_key(name@) && header_values(
                *headers,
            )[name@].len() > 0 && value@ == header_values(*headers)[name@][0],
            None => !header_values(*headers).contains_key(name@),
        },
{
    headers.get(name).map(|value| value.as_bytes().to_vec())
}

/// `ConstantTimeEq::ct_eq` of the crate `subtle` on two byte slices: whether
/// they are equal. How long it takes is left unsaid.
#[verifier::external_body]
fn same_bytes(a: &[u8], b: &[u8]) -> (r: bool)
    ensures
        r == (a@ == b@),
{
    a.ct_eq(b).into()
}

/// The longest session id that is taken, in bytes.
pub const MAX_SESSION_ID: usize = 128;

/// The longest prompt that is taken, in bytes.
pub const MAX_PROMPT: usize = 64 * 1024;

/// The statuses of the answers that refuse a prompt.
#[derive(Clone, Copy, Debug, PartialEq, Eq, Structural)]
pub enum Status {
    BadRequest,
    Unauthorized,
    PayloadTooLarge,
    InternalServerError,
    ServiceUnavailable,
    GatewayTimeout,
}

impl Status {
    /// The status as a number.
    pub open spec fn number(self) -> u16 {
        match self {
            Status::BadRequest => 400,
            Status::Unauthorized => 401,
            Status::PayloadTooLarge => 413,
            Status::InternalServerError => 500,
            Status::ServiceUnavailable => 503,
            Status::GatewayTimeout => 504,
        }
    }

    /// The status as a number.
    pub fn code(&self) -> (r: u16)
        ensures
            r == self.number(),
    {
        match self {
            Status::BadRequest => 400,
            Status::Unauthorized => 401,
            Status::PayloadTooLarge => 413,
            Status::InternalServerError => 500,
            Status::ServiceUnavailable => 503,
            Status::GatewayTimeout => 504,
        }
    }
}

/// Why a prompt is refused.
#[derive(Debug)]
pub struct Refusal {
    pub status: Status,
    pub message: String,
}

pub ghost struct RefusalView {
    pub status: Status,
    pub message: Seq<char>,
}

impl View for Refusal {
    type V = RefusalView;

    open spec fn view(&self) -> RefusalView {
        RefusalView { status: self.status, message: self.message@ }
    }
}

/// A prompt for a session.
pub struct PromptRequest {
    pub session_id: String,
    pub prompt: String,
}

/// What the agent said to a prompt, and whether its session had begun anew.
#[derive(Debug)]
pub struct PromptResponse {
    pub response: String,
    pub session_reset: bool,
}

/// A byte that may stand in a header's text: visible ASCII, a space or a tab.
pub open spec fn is_text_byte(b: u8) -> bool {
    32 <= b < 127 || b == 9
}

/// The bytes can be read as a header's text.
pub open spec fn is_header_text(value: Seq<u8>) -> bool {
    forall|i: int| 0 <= i < value.len() ==> is_text_byte(#[trigger] value[i])
}

/// A header's text, one character for each byte.
pub open spec fn header_text(value: Seq<u8>) -> Seq<char> {
    value.map_values(|b: u8| b as char)
}

/// An ASCII letter in lower case; anything else as it is.
pub open spec fn ascii_lower(c: char) -> char {
    if 'A' <= c <= 'Z' {
        (c as u32 + 32) as char
    } else {
        c
    }
}

/// The scheme is "bearer", in whatever case.
pub open spec fn is_bearer(scheme: Seq<char>) -> bool {
    scheme.map_values(|c: char| ascii_lower(c)) == "bearer"@
}

/// The token that an authorization header presents: what stands behind the
/// first space, if the scheme before it is "bearer"; else nothing.
pub open spec fn presented_token(value: Option<Seq<u8>>) -> Seq<char> {
    match value {
        Some(v) => if is_header_text(v) {
            let t = header_text(v);
            match text::find(t, seq![' ']) {
                Some(k) => if is_bearer(t.take(k)) {
                    t.skip(k + 1)
                } else {
                    seq![]
                },
                None => seq![],
            }
        } else {
            seq![]
        },
        None => seq![],
    }
}

/// The first authorization header.
pub open spec fn authorization(headers: HeaderMap<HeaderValue>) -> Option<Seq<u8>> {
    if header_values(headers).contains_key("authorization"@) {
        Some(header_values(headers)["authorization"@][0])
    } else {
        None
    }
}

/// A request with that authorization header may send prompts: it presents the
/// token, or none is asked for.
pub open spec fn is_authorized(value: Option<Seq<u8>>, token: Seq<char>) -> bool {
    token.len() == 0 || presented_token(value) == token
}

/// Two texts are the same if their UTF-8 bytes are.
proof fn lemma_same_encoding(a: Seq<char>, b: Seq<char>)
    ensures
        encode_utf8(a) == encode_utf8(b) <==> a == b,
{
    encode_utf8_decode_utf8(a);
    encode_utf8_decode_utf8(b);
}

/// The bytes of a part of a header's text.
proof fn lemma_header_text_bytes(value: Seq<u8>, from: int)
    requires
        is_header_text(value),
        0 <= from <= value.len(),
    ensures
        encode_utf8(header_text(value).skip(from)) == value.skip(from),
{
    let t = header_text(value).skip(from);
    assert(is_ascii_chars(t));
    is_ascii_chars_encode_utf8(t);
    assert(encode_utf8(t) =~= value.skip(from));
}

/// Whether the bytes can be read as a header's text.
fn reads_as_text(value: &[u8]) -> (r: bool)
    ensures
        r == is_header_text(value@),
{
    for i in 0..value.len()
        invariant
            forall|j: int| 0 <= j < i ==> is_text_byte(#[trigger] value@[j]),
    {
        let b: u8 = value[i];
        if !((32 <= b && b < 127) || b == 9) {
            assert(!is_text_byte(value@[i as int]));
            return false;
        }
    }
    true
}

/// An ASCII letter in lower case; anything else as it is.
fn lower_byte(b: u8) -> (r: u8)
    ensures
        r as char == ascii_lower(b as char),
{
    if 65 <= b && b <= 90 {
        b + 32
    } else {
        b
    }
}

/// Whether the first `k` bytes of a header's text are the bearer scheme.
fn bearer_scheme(value: &[u8], k: usize) -> (r: bool)
    requires
        k <= value@.len(),
    ensures
        r == is_bearer(header_text(value@).take(k as int)),
{
    let name = text::chars_of("bearer");
    let ghost low = header_text(value@).take(k as int).map_values(|c: char| ascii_lower(c));
    if k != name.len() {
        assert(low.len() != "bearer"@.len());
        return false;
    }
    for i in 0..k
        invariant
            k <= value@.len(),
            k == name@.len(),
            name@ == "bearer"@,
            low == header_text(value@).take(k as int).map_values(|c: char| ascii_lower(c)),
            forall|j: int| 0 <= j < i ==> low[j] == name@[j],
    {
        let c: char = lower_byte(value[i]) as char;
        assert(low[i as int] == c);
        if c != name[i] {
            return false;
        }
    }
    assert(low =~= "bearer"@);
    true
}

/// The bytes of the token that an authorization header presents.
fn presented(value: &[u8]) -> (r: &[u8])
    ensures
        r@ == encode_utf8(presented_token(Some(value@))),
{
    let n: usize = value.len();
    let ghost t = header_text(value@);
    if reads_as_text(value) {
        let mut k: usize = 0;
        while k < n && value[k] != 32
            invariant
                n == value@.len(),
                k <= n,
                t == header_text(value@),
                forall|j: int| 0 <= j < k ==> t[j] != ' ',
            decreases n - k,
        {
            k = k + 1;
        }
        proof {
            assert forall|j: int| 0 <= j < k implies !#[trigger] text::occurs_at(
                t,
                seq![' '],
                j,
            ) by {
                text::lemma_occurs_char(t, ' ', j);
            }
            text::lemma_occurs_char(t, ' ', k as int);
        }
        if k < n {
            proof {
                text::lemma_find_from_is(t, seq![' '], 0, k as int);
            }
            if bearer_scheme(value, k) {
                proof {
                    lemma_header_text_bytes(value@, k + 1);
                    assert(value@.skip(k + 1) =~= value@.subrange(k + 1, n as int));
                }
                return slice_subrange(value, k + 1, n);
            }
        } else {
            proof {
                text::lemma_find_from(t, seq![' '], 0);
                if let Some(j) = text::find(t, seq![' ']) {
                    text::lemma_occurs_char(t, ' ', j);
                }
            }
        }
    }
    assert(presented_token(Some(value@)).len() == 0);
    assert(value@.subrange(0, 0) =~= encode_utf8(presented_token(Some(value@))));
    slice_subrange(value, 0, 0)
}

/// The bytes of an optional header.
pub open spec fn bytes_view(value: Option<&[u8]>) -> Option<Seq<u8>> {
    match value {
        Some(v) => Some(v@),
        None => None,
    }
}

/// Whether a request with that authorization header may send prompts: it has to
/// present the token, unless the token is empty.
pub fn authorized_by(value: Option<&[u8]>, token: &str) -> (r: bool)
    ensures
        r == is_authorized(bytes_view(value), token@),
{
    if token.is_empty() {
        return true;
    }
    proof {
        lemma_same_encoding(presented_token(bytes_view(value)), token@);
    }
    match value {
        Some(v) => same_bytes(presented(v), token.as_bytes()),
        None => {
            let nothing: Vec<u8> = Vec::new();
            assert(nothing@ =~= encode_utf8(presented_token(None)));
            same_bytes(nothing.as_slice(), token.as_bytes())
        },
    }
}

/// Whether a request with these headers may send prompts: it has to present
/// the token, unless the token is empty.
pub fn bearer_authorized(headers: &HeaderMap<HeaderValue>, token: &str) -> (r: bool)
    ensures
        r == is_authorized(authorization(*headers), token@),
{
    proof {
        reveal_strlit("authorization");
    }
    match first_value(headers, "authorization") {
        Some(value) => authorized_by(Some(value.as_slice()), token),
        None => authorized_by(None, token),
    }
}

/// Why a prompt cannot be taken, if it cannot.
pub open spec fn refusal(session_id: Seq<char>, prompt: Seq<char>) -> Option<RefusalView> {
    if session_id.len() == 0 || prompt.len() == 0 {
        Some(
            RefusalView {
                status: Status::BadRequest,
                message: "session_id and prompt are required"@,
            },
        )
    } else if text::byte_len(session_id) > MAX_SESSION_ID {
        Some(RefusalView { status: Status::BadRequest, message: "session_id too long"@ })
    } else if text::byte_len(prompt) > MAX_PROMPT {
        Some(RefusalView { status: Status::PayloadTooLarge, message: "prompt too long"@ })
    } else {
        None
    }
}

/// A refusal.
fn refuse(status: Status, message: &str) -> (r: Refusal)
    ensures
        r@ == (RefusalView { status, message: message@ }),
{
    Refusal { status, message: message.to_owned() }
}

/// Whether a prompt can be taken: it needs a session and a text, and neither
/// may be too long.
pub fn validate_prompt_request(req: &PromptRequest) -> (r: Result<(), Refusal>)
    ensures
        match r {
            Ok(_) => refusal(req.session_id@, req.prompt@) is None,
            Err(e) => refusal(req.session_id@, req.prompt@) == Some(e@),
        },
{
    let session_id = req.session_id.as_str();
    let prompt = req.prompt.as_str();
    if session_id.is_empty() || prompt.is_empty() {
        return Err(refuse(Status::BadRequest, "session_id and prompt are required"));
    }
    if session_id.as_bytes().len() > MAX_SESSION_ID {
        return Err(refuse(Status::BadRequest, "session_id too long"));
    }
    if prompt.as_bytes().len() > MAX_PROMPT {
        return Err(refuse(Status::PayloadTooLarge, "prompt too long"));
    }
    Ok(())
}

/// The key under which the session pool keeps an HTTP session.
pub open spec fn pool_key(session_id: Seq<char>) -> Seq<char> {
    "http:"@ + session_id
}

/// The key under which the session pool keeps an HTTP session.
fn pool_key_of(session_id: &str) -> (r: String)
    ensures
        r@ == pool_key(session_id@),
{
    let mut r = "http:".to_owned();
    r.append(session_id);
    r
}

/// Where the handling of a prompt stands.
pub enum PromptStage {
    /// The session is being opened.
    Opening { key: String, prompt: String },
    /// The prompt runs.
    Running { key: String },
    /// The prompt took too long; its session is being reset.
    Resetting,
    /// The request is answered.
    Answered,
}

/// What happened to a prompt.
pub enum HandleEvent {
    SessionReady,
    SessionUnavailable,
    RunFinished(PromptResponse),
    RunFailed,
    TimedOut,
    /// The session is reset, or could not be reset.
    ResetDone,
}

/// What to do next about a prompt.
pub enum HandleAction {
    Nothing,
    /// Open the session with that key in the pool.
    OpenSession { key: String },
    /// Run the prompt in that session, for a limited time.
    RunPrompt { key: String, prompt: String },
    /// Reset the session with that key.
    ResetSession { key: String },
    /// Answer the request.
    Respond(Result<PromptResponse, Refusal>),
}

pub ghost enum StageView {
    Opening { key: Seq<char>, prompt: Seq<char> },
    Running { key: Seq<char> },
    Resetting,
    Answered,
}

pub ghost enum HandleEventView {
    SessionReady,
    SessionUnavailable,
    RunFinished(ResponseView),
    RunFailed,
    TimedOut,
    ResetDone,
}

pub ghost enum HandleActionView {
    Nothing,
    OpenSession { key: Seq<char> },
    RunPrompt { key: Seq<char>, prompt: Seq<char> },
    ResetSession { key: Seq<char> },
    Respond(Result<ResponseView, RefusalView>),
}

pub ghost struct ResponseView {
    pub response: Seq<char>,
    pub session_reset: bool,
}

impl View for PromptResponse {
    type V = ResponseView;

    open spec fn view(&self) -> ResponseView {
        ResponseView { response: self.response@, session_reset: self.session_reset }
    }
}

impl View for PromptStage {
    type V = StageView;

    open spec fn view(&self) -> StageView {
        match *self {
            PromptStage::Opening { key, prompt } => StageView::Opening {
                key: key@,
                prompt: prompt@,
            },
            PromptStage::Running { key } => StageView::Running { key: key@ },
            PromptStage::Resetting => StageView::Resetting,
            PromptStage::Answered => StageView::Answered,
        }
    }
}

impl View for HandleEvent {
    type V = HandleEventView;

    open spec fn view(&self) -> HandleEventView {
        match *self {
            HandleEvent::SessionReady => HandleEventView::SessionReady,
            HandleEvent::SessionUnavailable => HandleEventView::SessionUnavailable,
            HandleEvent::RunFinished(response) => HandleEventView::RunFinished(response@),
            HandleEvent::RunFailed => HandleEventView::RunFailed,
            HandleEvent::TimedOut => HandleEventView::TimedOut,
            HandleEvent::ResetDone => HandleEventView::ResetDone,
        }
    }
}

impl View for HandleAction {
    type V = HandleActionView;

    open spec fn view(&self) -> HandleActionView {
        match *self {
            HandleAction::Nothing => HandleActionView::Nothing,
            HandleAction::OpenSession { key } => HandleActionView::OpenSession { key: key@ },
            HandleAction::RunPrompt { key, prompt } => HandleActionView::RunPrompt {
                key: key@,
                prompt: prompt@,
            },
            HandleAction::ResetSession { key } => HandleActionView::ResetSession { key: key@ },
            HandleAction::Respond(Ok(response)) => HandleActionView::Respond(Ok(response@)),
            HandleAction::Respond(Err(refusal)) => HandleActionView::Respond(Err(refusal@)),
        }
    }
}

/// A refusal as the answer.
pub open spec fn refused(status: Status, message: Seq<char>) -> HandleActionView {
    HandleActionView::Respond(Err(RefusalView { status, message }))
}

/// The first step: the request is authorized, then checked, and then its
/// session is opened.
pub open spec fn admitted(
    value: Option<Seq<u8>>,
    token: Seq<char>,
    session_id: Seq<char>,
    prompt: Seq<char>,
) -> (StageView, HandleActionView) {
    if !is_authorized(value, token) {
        (StageView::Answered, refused(Status::Unauthorized, "invalid token"@))
    } else {
        match refusal(session_id, prompt) {
            Some(r) => (StageView::Answered, HandleActionView::Respond(Err(r))),
            None => (
                StageView::Opening { key: pool_key(session_id), prompt },
                HandleActionView::OpenSession { key: pool_key(session_id) },
            ),
        }
    }
}

/// One further step. An event that does not fit the stage changes nothing.
pub open spec fn handle_step(stage: StageView, event: HandleEventView) -> (
    StageView,
    HandleActionView,
) {
    match (stage, event) {
        (StageView::Opening { key, prompt }, HandleEventView::SessionReady) => (
            StageView::Running { key },
            HandleActionView::RunPrompt { key, prompt },
        ),
        (StageView::Opening { key, prompt }, HandleEventView::SessionUnavailable) => (
            StageView::Answered,
            refused(Status::ServiceUnavailable, "service unavailable"@),
        ),
        (StageView::Running { key }, HandleEventView::RunFinished(response)) => (
            StageView::Answered,
            HandleActionView::Respond(Ok(response)),
        ),
        (StageView::Running { key }, HandleEventView::RunFailed) => (
            StageView::Answered,
            refused(Status::InternalServerError, "internal error"@),
        ),
        (StageView::Running { key }, HandleEventView::TimedOut) => (
            StageView::Resetting,
            HandleActionView::ResetSession { key },
        ),
        (StageView::Resetting, HandleEventView::ResetDone) => (
            StageView::Answered,
            refused(Status::GatewayTimeout, "prompt timeout"@),
        ),
        _ => (stage, HandleActionView::Nothing),
    }
}

/// Begins to handle a prompt: refuses it, or asks for its session.
pub fn admit_prompt(
    headers: &HeaderMap<HeaderValue>,
    token: &str,
    req: PromptRequest,
) -> (r: (PromptStage, HandleAction))
    ensures
        (r.0@, r.1@) == admitted(authorization(*headers), token@, req.session_id@, req.prompt@),
{
    if !bearer_authorized(headers, token) {
        return (
            PromptStage::Answered,
            HandleAction::Respond(Err(refuse(Status::Unauthorized, "invalid token"))),
        );
    }
    match validate_prompt_request(&req) {
        Err(refusal) => (PromptStage::Answered, HandleAction::Respond(Err(refusal))),
        Ok(_) => {
            let key = pool_key_of(req.session_id.as_str());
            let action = HandleAction::OpenSession { key: key.clone() };
            (PromptStage::Opening { key, prompt: req.prompt }, action)
        },
    }
}

/// Takes the handling of a prompt one step further: from where it stands and
/// what happened to where it then stands and what to do.
pub fn handle_prompt(stage: PromptStage, event: HandleEvent) -> (r: (PromptStage, HandleAction))
    ensures
        (r.0@, r.1@) == handle_step(stage@, event@),
{
    match (stage, event) {
        (PromptStage::Opening { key, prompt }, HandleEvent::SessionReady) => {
            let action = HandleAction::RunPrompt { key: key.clone(), prompt };
            (PromptStage::Running { key }, action)
        },
        (PromptStage::Opening { key: _, prompt: _ }, HandleEvent::SessionUnavailable) => (
            PromptStage::Answered,
            HandleAction::Respond(Err(refuse(Status::ServiceUnavailable, "service unavailable"))),
        ),
        (PromptStage::Running { key: _ }, HandleEvent::RunFinished(response)) => (
            PromptStage::Answered,
            HandleAction::Respond(Ok(response)),
        ),
        (PromptStage::Running { key: _ }, HandleEvent::RunFailed) => (
            PromptStage::Answered,
            HandleAction::Respond(Err(refuse(Status::InternalServerError, "internal error"))),
        ),
        (PromptStage::Running { key }, HandleEvent::TimedOut) => (
            PromptStage::Resetting,
            HandleAction::ResetSession { key },
        ),
        (PromptStage::Resetting, HandleEvent::ResetDone) => (
            PromptStage::Answered,
            HandleAction::Respond(Err(refuse(Status::GatewayTimeout, "prompt timeout"))),
        ),
        (stage, _) => (stage, HandleAction::Nothing),
    }
}

/// A prompt that is running: the request it was sent as, once it was sent, and
/// what the agent has said so far.
pub struct PromptRun {
    pub request_id: Option<u64>,
    pub session_reset: bool,
    pub text: String,
}

/// What happened to a running prompt.
pub enum RunEvent {
    /// The prompt could not be sent.
    NotSent(String),
    /// The prompt was sent as the request with that id.
    Sent(u64),
    /// A message came from the agent: an answer to the request with that id,
    /// maybe an error, or, without an id, maybe some text.
    Notification { id: Option<u64>, error: Option<String>, text: Option<String> },
    /// There will be no more messages.
    Closed,
}

/// What to do next about a running prompt.
#[derive(Debug)]
pub enum RunAction {
    /// Wait for the next message.
    Continue,
    /// Stop listening and return the response.
    Finish(PromptResponse),
    /// Stop listening and return the error.
    StopAndFail(String),
}

pub ghost struct RunView {
    pub request_id: Option<u64>,
    pub session_reset: bool,
    pub text: Seq<char>,
}

pub ghost enum RunEventView {
    NotSent(Seq<char>),
    Sent(u64),
    Notification { id: Option<u64>, error: Option<Seq<char>>, text: Option<Seq<char>> },
    Closed,
}

pub ghost enum RunActionView {
    Continue,
    Finish(ResponseView),
    StopAndFail(Seq<char>),
}

impl View for PromptRun {
    type V = RunView;

    open spec fn view(&self) -> RunView {
        RunView {
            request_id: self.request_id,
            session_reset: self.session_reset,
            text: self.text@,
        }
    }
}

impl View for RunEvent {
    type V = RunEventView;

    open spec fn view(&self) -> RunEventView {
        match *self {
            RunEvent::NotSent(error) => RunEventView::NotSent(error@),
            RunEvent::Sent(id) => RunEventView::Sent(id),
            RunEvent::Notification { id, error, text } => RunEventView::Notification {
                id,
                error: text::opt_view(error),
                text: text::opt_view(text),
            },
            RunEvent::Closed => RunEventView::Closed,
        }
    }
}

impl View for RunAction {
    type V = RunActionView;

    open spec fn view(&self) -> RunActionView {
        match *self {
            RunAction::Continue => RunActionView::Continue,
            RunAction::Finish(response) => RunActionView::Finish(response@),
            RunAction::StopAndFail(error) => RunActionView::StopAndFail(error@),
        }
    }
}

/// What a prompt that ends now is answered: all that the agent has said.
pub open spec fn run_response(run: RunView) -> ResponseView {
    ResponseView { response: run.text, session_reset: run.session_reset }
}

/// The prompt after an event: text without an id is added to what was said.
pub open spec fn run_after(run: RunView, event: RunEventView) -> RunView {
    match event {
        RunEventView::Sent(id) => RunView { request_id: Some(id), ..run },
        RunEventView::Notification { id: None, error, text: Some(text) } => RunView {
            text: run.text + text,
            ..run
        },
        _ => run,
    }
}

/// What to do about an event. An answer to the prompt's own request ends it,
/// and one to another request is passed over.
pub open spec fn run_action(run: RunView, event: RunEventView) -> RunActionView {
    match event {
        RunEventView::NotSent(error) => RunActionView::StopAndFail(error),
        RunEventView::Sent(id) => RunActionView::Continue,
        RunEventView::Notification { id: Some(id), error, text } => if Some(id)
            != run.request_id {
            RunActionView::Continue
        } else {
            match error {
                Some(e) => RunActionView::StopAndFail("agent returned "@ + e),
                None => RunActionView::Finish(run_response(run)),
            }
        },
        RunEventView::Notification { id: None, error, text } => RunActionView::Continue,
        RunEventView::Closed => RunActionView::Finish(run_response(run)),
    }
}

/// A prompt that begins, given the mark that its session had begun anew.
pub open spec fn run_begun(session_reset: bool) -> RunView {
    RunView { request_id: None, session_reset, text: seq![] }
}

/// Begins a prompt in a session: takes over, and clears, the mark that the
/// session had begun anew.
pub fn begin_run(session_reset: &mut bool) -> (r: PromptRun)
    ensures
        r@ == (RunView { request_id: None, session_reset: *old(session_reset), text: seq![] }),
        *final(session_reset) == false,
        r@ == run_begun(*old(session_reset)),
{
    let reset = *session_reset;
    *session_reset = false;
    let r = PromptRun { request_id: None, session_reset: reset, text: String::new() };
    assert(r.text@ =~= seq![]);
    r
}

/// Takes a running prompt one step further.
pub fn run_prompt(run: &mut PromptRun, event: RunEvent) -> (r: RunAction)
    ensures
        final(run)@ == run_after(old(run)@, event@),
        r@ == run_action(old(run)@, event@),
{
    match event {
        RunEvent::NotSent(error) => RunAction::StopAndFail(error),
        RunEvent::Sent(id) => {
            run.request_id = Some(id);
            RunAction::Continue
        },
        RunEvent::Notification { id: Some(id), error, text: _ } => {
            let own = match run.request_id {
                Some(request_id) => id == request_id,
                None => false,
            };
            if !own {
                return RunAction::Continue;
            }
            match error {
                Some(e) => {
                    let mut message = "agent returned ".to_owned();
                    message.append(e.as_str());
                    RunAction::StopAndFail(message)
                },
                None => RunAction::Finish(
                    PromptResponse {
                        response: run.text.clone(),
                        session_reset: run.session_reset,
                    },
                ),
            }
        },
        RunEvent::Notification { id: None, error: _, text } => {
            if let Some(t) = text {
                run.text.append(t.as_str());
            }
            RunAction::Continue
        },
        RunEvent::Closed => RunAction::Finish(
            PromptResponse { response: run.text.clone(), session_reset: run.session_reset },
        ),
    }
}

/// How the HTTP trigger is set up.
pub struct HttpConfig {
    pub enabled: bool,
    pub bind: String,
    pub port: u16,
    pub token: String,
    pub timeout_ms: u64,
}

/// What the server of the HTTP trigger needs to know.
pub struct ServerPlan {
    /// The address to listen at.
    pub addr: String,
    /// The path that takes prompts.
    pub path: &'static str,
    /// The token that requests have to present.
    pub token: String,
    /// How long a prompt may run, in milliseconds.
    pub timeout_ms: u64,
}

/// The address of a server.
pub open spec fn server_address(bind: Seq<char>, port: nat) -> Seq<char> {
    bind + ":"@ + text::decimal(port)
}

/// How to run the server of the HTTP trigger: at the configured address, with
/// the one path that takes prompts.
pub fn run_server(cfg: HttpConfig) -> (r: ServerPlan)
    ensures
        r.addr@ == cfg.bind@ + ":"@ + text::decimal(cfg.port as nat),
        r.addr@ == server_address(cfg.bind@, cfg.port as nat),
        r.path@ == "/prompt"@,
        r.token == cfg.token,
        r.timeout_ms == cfg.timeout_ms,
{
    let mut addr = cfg.bind;
    addr.append(":");
    text::push_decimal(&mut addr, cfg.port as u64);
    ServerPlan { addr, path: "/prompt", token: cfg.token, timeout_ms: cfg.timeout_ms }
}

/// Different sessions have different keys.
pub proof fn law_pool_keys_are_distinct(a: Seq<char>, b: Seq<char>)
    ensures
        pool_key(a) == pool_key(b) <==> a == b,
{
    let n = "http:"@.len() as int;
    assert(pool_key(a).skip(n) =~= a);
    assert(pool_key(b).skip(n) =~= b);
}

/// The key of an HTTP session is never a Discord thread id, which is a number.
pub proof fn law_pool_key_is_no_thread_id(session_id: Seq<char>, thread: nat)
    ensures
        pool_key(session_id) != text::decimal(thread),
{
    reveal_strlit("http:");
    text::lemma_decimal_digits(thread);
    assert(pool_key(session_id)[0] == 'h');
}

/// A request that does not present the token is answered 401, whatever else
/// it holds, and opens no session.
pub proof fn law_unauthorized_request_is_refused(
    value: Option<Seq<u8>>,
    token: Seq<char>,
    session_id: Seq<char>,
    prompt: Seq<char>,
)
    requires
        token.len() > 0,
        presented_token(value) != token,
    ensures
        admitted(value, token, session_id, prompt) == (
            StageView::Answered,
            refused(Status::Unauthorized, "invalid token"@),
        ),
        Status::Unauthorized.number() == 401,
{
}

/// A request presents a token exactly if its header is the bearer scheme, in
/// whatever case, one space and the token.
pub proof fn law_bearer_token(value: Seq<u8>, token: Seq<char>)
    requires
        token.len() > 0,
    ensures
        is_authorized(Some(value), token) <==> is_header_text(value) && exists|k: int|
            #![trigger value[k]]
            0 <= k < value.len() && value[k] == 32 && is_bearer(header_text(value).take(k))
                && header_text(value).skip(k + 1) == token,
{
    let t = header_text(value);
    text::lemma_find_from(t, seq![' '], 0);
    if is_authorized(Some(value), token) {
        let k = text::find(t, seq![' '])->0;
        text::lemma_occurs_char(t, ' ', k);
        assert(t[k] == ' ');
        assert(value[k] == 32);
    }
    if is_header_text(value) {
        assert forall|k: int|
            #![trigger value[k]]
            0 <= k < value.len() && value[k] == 32 && is_bearer(t.take(k)) && t.skip(k + 1)
                == token implies is_authorized(Some(value), token) by {
            lemma_first_space(t, k);
        }
    }
}

/// The bearer scheme holds no space, so the space behind it is the first.
proof fn lemma_first_space(t: Seq<char>, k: int)
    requires
        0 <= k < t.len(),
        t[k] == ' ',
        is_bearer(t.take(k)),
    ensures
        text::find(t, seq![' ']) == Some(k),
{
    reveal_strlit("bearer");
    let low = t.take(k).map_values(|c: char| ascii_lower(c));
    assert forall|j: int| 0 <= j < k implies !#[trigger] text::occurs_at(t, seq![' '], j) by {
        text::lemma_occurs_char(t, ' ', j);
        assert(low[j] == ascii_lower(t[j]));
        assert(low.len() == 6);
        assert(j == 0 || j == 1 || j == 2 || j == 3 || j == 4 || j == 5);
        assert("bearer"@[j] != ' ');
    }
    text::lemma_occurs_char(t, ' ', k);
    text::lemma_find_from_is(t, seq![' '], 0, k);
}

/// A missing header presents no token.
pub proof fn law_missing_header_is_refused(
    token: Seq<char>,
    session_id: Seq<char>,
    prompt: Seq<char>,
)
    requires
        token.len() > 0,
    ensures
        admitted(None, token, session_id, prompt) == (
            StageView::Answered,
            refused(Status::Unauthorized, "invalid token"@),
        ),
{
}

/// A session is opened exactly for authorized requests with a session id and
/// a prompt that are neither empty nor too long.
pub proof fn law_session_is_opened_for_valid_requests(
    value: Option<Seq<u8>>,
    token: Seq<char>,
    session_id: Seq<char>,
    prompt: Seq<char>,
)
    ensures
        admitted(value, token, session_id, prompt).1 is OpenSession <==> is_authorized(value, token)
            && 0 < session_id.len() && text::byte_len(session_id) <= MAX_SESSION_ID && 0
            < prompt.len() && text::byte_len(prompt) <= MAX_PROMPT,
        admitted(value, token, session_id, prompt).1 is Respond <==> admitted(
            value,
            token,
            session_id,
            prompt,
        ).0 is Answered,
{
}

/// A timeout is answered 504, and only once the session was reset: an answer
/// of that status comes from the end of a reset alone, and a reset begins with
/// a timeout.
pub proof fn law_timeout_resets_session_first(stage: StageView, event: HandleEventView)
    ensures
        handle_step(stage, event).1 == refused(Status::GatewayTimeout, "prompt timeout"@) ==> stage
            is Resetting && event is ResetDone,
        stage is Running && event is TimedOut ==> handle_step(stage, event) == (
            StageView::Resetting,
            HandleActionView::ResetSession { key: stage->Running_key },
        ),
        stage !is Resetting && handle_step(stage, event).0 is Resetting ==> stage is Running
            && event is TimedOut,
        stage is Resetting && event is ResetDone ==> handle_step(stage, event) == (
            StageView::Answered,
            refused(Status::GatewayTimeout, "prompt timeout"@),
        ),
        Status::GatewayTimeout.number() == 504,
{
}

/// A request is answered once: an answer ends its handling, and what has ended
/// does nothing more.
pub proof fn law_request_is_answered_once(stage: StageView, event: HandleEventView)
    ensures
        handle_step(stage, event).1 is Respond ==> stage !is Answered && handle_step(
            stage,
            event,
        ).0 is Answered,
        stage is Answered ==> handle_step(stage, event) == (stage, HandleActionView::Nothing),
{
}

/// The action ends the prompt, and with it the listening to the agent.
pub open spec fn stops_listening(action: RunActionView) -> bool {
    match action {
        RunActionView::Continue => false,
        RunActionView::Finish(_) | RunActionView::StopAndFail(_) => true,
    }
}

/// Whichever way a prompt ends, the listening to the agent ends with it: where
/// the prompt could not be sent, where the agent answered its request, with an
/// error or without, and where there are no more messages. Nothing else ends it.
pub proof fn law_every_end_stops_listening(run: RunView, event: RunEventView)
    ensures
        run_action(run, event) is Continue || run_action(run, event) is Finish || run_action(
            run,
            event,
        ) is StopAndFail,
        stops_listening(run_action(run, event)) <==> match event {
            RunEventView::NotSent(_) | RunEventView::Closed => true,
            RunEventView::Sent(_) => false,
            RunEventView::Notification { id, error, text } => id is Some && id == run.request_id,
        },
        run_action(run, event) is StopAndFail <==> match event {
            RunEventView::NotSent(_) => true,
            RunEventView::Notification { id, error, text } => id is Some && id == run.request_id
                && error is Some,
            _ => false,
        },
{
}

/// The prompt after several events.
pub open spec fn run_after_all(run: RunView, events: Seq<RunEventView>) -> RunView
    decreases events.len(),
{
    if events.len() == 0 {
        run
    } else {
        run_after(run_after_all(run, events.drop_last()), events.last())
    }
}

/// The text of the messages without an id, in order.
pub open spec fn said(events: Seq<RunEventView>) -> Seq<char>
    decreases events.len(),
{
    if events.len() == 0 {
        seq![]
    } else {
        said(events.drop_last()) + match events.last() {
            RunEventView::Notification { id: None, error, text: Some(text) } => text,
            _ => seq![],
        }
    }
}

/// The response is what the agent said before it answered the request, in
/// order and whole; answers to other requests leave no trace in it.
pub proof fn law_response_is_what_was_said(run: RunView, events: Seq<RunEventView>)
    requires
        run.request_id is Some,
        forall|i: int|
            0 <= i < events.len() ==> (#[trigger] events[i]) is Notification && run_action(
                run,
                events[i],
            ) is Continue,
    ensures
        run_after_all(run, events) == (RunView { text: run.text + said(events), ..run }),
        run_action(run_after_all(run, events), RunEventView::Closed) == RunActionView::Finish(
            ResponseView { response: run.text + said(events), session_reset: run.session_reset },
        ),
        run_action(
            run_after_all(run, events),
            RunEventView::Notification { id: run.request_id, error: None, text: None },
        ) == RunActionView::Finish(
            ResponseView { response: run.text + said(events), session_reset: run.session_reset },
        ),
    decreases events.len(),
{
    if events.len() == 0 {
        assert(run.text + said(events) =~= run.text);
    } else {
        let rest = events.drop_last();
        assert(events.last() == events[events.len() - 1]);
        assert forall|i: int| 0 <= i < rest.len() implies (#[trigger] rest[i]) is Notification
            && run_action(run, rest[i]) is Continue by {
            assert(rest[i] == events[i]);
        }
        law_response_is_what_was_said(run, rest);
        let last = match events.last() {
            RunEventView::Notification { id: None, error, text: Some(text) } => text,
            _ => seq![],
        };
        assert((run.text + said(rest)) + last =~= run.text + said(events));
        assert(run_after_all(run, events).text =~= run.text + said(events));
    }
}

} // verus!
