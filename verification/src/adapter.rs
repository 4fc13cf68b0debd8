//! One prompt turn of the agent process, from its start to the reply, and what
//! the turn leaves behind in its session.
use vstd::prelude::*;
use vstd::hash_map::StringHashMap;
use vstd::utf8::*;
use crate::text;

verus! {

/// The JSON-RPC code of an agent process that could not do its work.
pub const SERVER_ERROR: i64 = -32000;

/// The JSON-RPC code of an error that the agent process kept to itself.
pub const INTERNAL_ERROR: i64 = -32603;

/// Why a turn stopped.
#[derive(Clone, Copy, Debug, PartialEq, Eq, Structural)]
pub enum StopReason {
    Cancelled,
    Error,
    EndTurn,
}

/// What a prompt request is answered.
#[derive(Debug)]
pub enum Reply {
    /// The turn is over.
    Stopped(StopReason),
    /// The turn failed without any output.
    Failed { code: i64, message: String },
}

/// The answer to a prompt request and the new state of its session: the
/// conversation that the turn was bound to and the last step that was seen.
#[derive(Debug)]
pub struct PromptOutput {
    pub reply: Reply,
    pub session_update: Option<(Option<String>, i64)>,
}

/// How waiting for the agent process ended.
pub enum ExitReport {
    /// The process exited; `status` describes how.
    Exited { success: bool, status: String },
    /// Waiting failed.
    WaitFailed(String),
}

/// What is known once the process is gone and its output is read.
pub struct TurnReport {
    pub conversation_id: Option<String>,
    pub last_step_idx: i64,
    pub had_updates: bool,
    pub stderr: Vec<u8>,
}

/// Where a turn stands.
pub enum PromptTurn {
    /// The process is being started.
    Starting,
    /// The process runs and its output is polled.
    Running,
    /// The process is being killed.
    Stopping,
    /// The process is gone; its last output is being read.
    Draining { was_cancelled: bool, exit: ExitReport },
    /// The process ended well without output; its logs are being searched.
    Scanning { conversation_id: Option<String>, last_step_idx: i64 },
    /// The turn is answered.
    Done,
}

/// What happened to a turn.
pub enum PromptEvent {
    SpawnFailed(String),
    Spawned,
    CancelRequested,
    Exited(ExitReport),
    Drained(TurnReport),
    LogsScanned(Option<String>),
}

/// What to do next in a turn.
pub enum PromptAction {
    /// Nothing.
    Nothing,
    /// Poll for output until the process exits or the turn is cancelled.
    AwaitExit,
    /// Kill the process and wait for its exit.
    KillAndAwaitExit,
    /// Read the rest of the error output, stop polling, and poll once more.
    Drain,
    /// Search the agent's logs for an error.
    ScanLogs,
    /// Answer the request.
    Respond(PromptOutput),
}

pub ghost enum ReplyView {
    Stopped(StopReason),
    Failed { code: i64, message: Seq<char> },
}

pub ghost struct OutputView {
    pub reply: ReplyView,
    pub session_update: Option<(Option<Seq<char>>, i64)>,
}

pub ghost enum ExitView {
    Exited { success: bool, status: Seq<char> },
    WaitFailed(Seq<char>),
}

pub ghost struct ReportView {
    pub conversation_id: Option<Seq<char>>,
    pub last_step_idx: i64,
    pub had_updates: bool,
    pub stderr: Seq<u8>,
}

pub ghost enum TurnView {
    Starting,
    Running,
    Stopping,
    Draining { was_cancelled: bool, exit: ExitView },
    Scanning { conversation_id: Option<Seq<char>>, last_step_idx: i64 },
    Done,
}

pub ghost enum EventView {
    SpawnFailed(Seq<char>),
    Spawned,
    CancelRequested,
    Exited(ExitView),
    Drained(ReportView),
    LogsScanned(Option<Seq<char>>),
}

pub ghost enum ActionView {
    Nothing,
    AwaitExit,
    KillAndAwaitExit,
    Drain,
    ScanLogs,
    Respond(OutputView),
}

impl View for Reply {
    type V = ReplyView;

    open spec fn view(&self) -> ReplyView {
        match *self {
            Reply::Stopped(reason) => ReplyView::Stopped(reason),
            Reply::Failed { code, message } => ReplyView::Failed { code, message: message@ },
        }
    }
}

impl View for PromptOutput {
    type V = OutputView;

    open spec fn view(&self) -> OutputView {
        OutputView {
            reply: self.reply@,
            session_update: match self.session_update {
                Some((conversation, step)) => Some((text::opt_view(conversation), step)),
                None => None,
            },
        }
    }
}

impl View for ExitReport {
    type V = ExitView;

    open spec fn view(&self) -> ExitView {
        match *self {
            ExitReport::Exited { success, status } => ExitView::Exited { success, status: status@ },
            ExitReport::WaitFailed(error) => ExitView::WaitFailed(error@),
        }
    }
}

impl View for TurnReport {
    type V = ReportView;

    open spec fn view(&self) -> ReportView {
        ReportView {
            conversation_id: text::opt_view(self.conversation_id),
            last_step_idx: self.last_step_idx,
            had_updates: self.had_updates,
            stderr: self.stderr@,
        }
    }
}

impl View for PromptTurn {
    type V = TurnView;

    open spec fn view(&self) -> TurnView {
        match *self {
            PromptTurn::Starting => TurnView::Starting,
            PromptTurn::Running => TurnView::Running,
            PromptTurn::Stopping => TurnView::Stopping,
            PromptTurn::Draining { was_cancelled, exit } => TurnView::Draining {
                was_cancelled,
                exit: exit@,
            },
            PromptTurn::Scanning { conversation_id, last_step_idx } => TurnView::Scanning {
                conversation_id: text::opt_view(conversation_id),
                last_step_idx,
            },
            PromptTurn::Done => TurnView::Done,
        }
    }
}

impl View for PromptEvent {
    type V = EventView;

    open spec fn view(&self) -> EventView {
        match *self {
            PromptEvent::SpawnFailed(error) => EventView::SpawnFailed(error@),
            PromptEvent::Spawned => EventView::Spawned,
            PromptEvent::CancelRequested => EventView::CancelRequested,
            PromptEvent::Exited(exit) => EventView::Exited(exit@),
            PromptEvent::Drained(report) => EventView::Drained(report@),
            PromptEvent::LogsScanned(found) => EventView::LogsScanned(text::opt_view(found)),
        }
    }
}

impl View for PromptAction {
    type V = ActionView;

    open spec fn view(&self) -> ActionView {
        match *self {
            PromptAction::Nothing => ActionView::Nothing,
            PromptAction::AwaitExit => ActionView::AwaitExit,
            PromptAction::KillAndAwaitExit => ActionView::KillAndAwaitExit,
            PromptAction::Drain => ActionView::Drain,
            PromptAction::ScanLogs => ActionView::ScanLogs,
            PromptAction::Respond(output) => ActionView::Respond(output@),
        }
    }
}

/// An error as the answer.
pub open spec fn failed(
    code: i64,
    message: Seq<char>,
    session_update: Option<(Option<Seq<char>>, i64)>,
) -> OutputView {
    OutputView { reply: ReplyView::Failed { code, message }, session_update }
}

/// What is said of a process that exited with an error: what it wrote to its
/// error output, if anything.
pub open spec fn exit_message(status: Seq<char>, stderr: Seq<char>) -> Seq<char> {
    if stderr.len() == 0 {
        "agy exited with status: "@ + status
    } else {
        "agy failed: "@ + text::trim_end(stderr)
    }
}

/// Why a turn stopped whose process exited.
pub open spec fn stop_reason(was_cancelled: bool, success: bool) -> StopReason {
    if was_cancelled {
        StopReason::Cancelled
    } else if !success {
        StopReason::Error
    } else {
        StopReason::EndTurn
    }
}

/// The answer to a turn whose process is gone, where it does not depend on the
/// logs: they decide for a process that ended well, uncancelled, and showed
/// nothing.
pub open spec fn settled(
    was_cancelled: bool,
    exit: ExitView,
    report: ReportView,
    stderr: Seq<char>,
) -> Option<OutputView> {
    let update = Some((report.conversation_id, report.last_step_idx));
    match exit {
        ExitView::WaitFailed(error) => Some(
            failed(SERVER_ERROR, "failed to wait for agy: "@ + error, update),
        ),
        ExitView::Exited { success, status } => if !was_cancelled && !report.had_updates {
            if success {
                None
            } else {
                Some(failed(SERVER_ERROR, exit_message(status, stderr), update))
            }
        } else {
            Some(
                OutputView {
                    reply: ReplyView::Stopped(stop_reason(was_cancelled, success)),
                    session_update: update,
                },
            )
        },
    }
}

/// The answer once the logs are searched.
pub open spec fn scanned(
    conversation_id: Option<Seq<char>>,
    last_step_idx: i64,
    found: Option<Seq<char>>,
) -> OutputView {
    let update = Some((conversation_id, last_step_idx));
    match found {
        Some(details) => failed(INTERNAL_ERROR, details, update),
        None => OutputView {
            reply: ReplyView::Stopped(StopReason::EndTurn),
            session_update: update,
        },
    }
}

/// One step of a turn. An event that does not fit the state changes nothing.
pub open spec fn turn_step(turn: TurnView, event: EventView) -> (TurnView, ActionView) {
    match (turn, event) {
        (TurnView::Starting, EventView::SpawnFailed(error)) => (
            TurnView::Done,
            ActionView::Respond(failed(SERVER_ERROR, "failed to run agy: "@ + error, None)),
        ),
        (TurnView::Starting, EventView::Spawned) => (TurnView::Running, ActionView::AwaitExit),
        (TurnView::Running, EventView::CancelRequested) => (
            TurnView::Stopping,
            ActionView::KillAndAwaitExit,
        ),
        (TurnView::Running, EventView::Exited(exit)) => (
            TurnView::Draining { was_cancelled: false, exit },
            ActionView::Drain,
        ),
        (TurnView::Stopping, EventView::Exited(exit)) => (
            TurnView::Draining { was_cancelled: true, exit },
            ActionView::Drain,
        ),
        (TurnView::Draining { was_cancelled, exit }, EventView::Drained(report)) => drained_step(
            was_cancelled,
            exit,
            report,
            text::lossy_utf8(report.stderr),
        ),
        (
            TurnView::Scanning { conversation_id, last_step_idx },
            EventView::LogsScanned(found),
        ) => (
            TurnView::Done,
            ActionView::Respond(scanned(conversation_id, last_step_idx, found)),
        ),
        _ => (turn, ActionView::Nothing),
    }
}

/// The step after the last output is read, given the error output as text.
pub open spec fn drained_step(
    was_cancelled: bool,
    exit: ExitView,
    report: ReportView,
    stderr: Seq<char>,
) -> (TurnView, ActionView) {
    match settled(was_cancelled, exit, report, stderr) {
        Some(output) => (TurnView::Done, ActionView::Respond(output)),
        None => (
            TurnView::Scanning {
                conversation_id: report.conversation_id,
                last_step_idx: report.last_step_idx,
            },
            ActionView::ScanLogs,
        ),
    }
}

impl StopReason {
    /// The name of the reason in the protocol.
    pub open spec fn name(self) -> Seq<char> {
        match self {
            StopReason::Cancelled => "cancelled"@,
            StopReason::Error => "error"@,
            StopReason::EndTurn => "end_turn"@,
        }
    }

    /// The name of the reason in the protocol.
    pub fn as_str(&self) -> (r: &'static str)
        ensures
            r@ == self.name(),
    {
        match self {
            StopReason::Cancelled => "cancelled",
            StopReason::Error => "error",
            StopReason::EndTurn => "end_turn",
        }
    }
}

/// `prefix` followed by `rest`.
fn joined(prefix: &str, rest: &str) -> (r: String)
    ensures
        r@ == prefix@ + rest@,
{
    let mut r = prefix.to_owned();
    r.append(rest);
    r
}

/// An error as the answer.
fn failure(
    code: i64,
    message: String,
    session_update: Option<(Option<String>, i64)>,
) -> (r: PromptOutput)
    ensures
        r.reply@ == (ReplyView::Failed { code, message: message@ }),
        r.session_update == session_update,
{
    PromptOutput { reply: Reply::Failed { code, message }, session_update }
}

/// The step after the last output of the process is read, given the error
/// output as text.
pub fn drained(
    was_cancelled: bool,
    exit: ExitReport,
    report: TurnReport,
    stderr: &str,
) -> (r: (PromptTurn, PromptAction))
    ensures
        (r.0@, r.1@) == drained_step(was_cancelled, exit@, report@, stderr@),
{
    match exit {
        ExitReport::WaitFailed(error) => {
            let output = failure(
                SERVER_ERROR,
                joined("failed to wait for agy: ", error.as_str()),
                Some((report.conversation_id, report.last_step_idx)),
            );
            (PromptTurn::Done, PromptAction::Respond(output))
        },
        ExitReport::Exited { success, status } => {
            if !was_cancelled && !report.had_updates {
                if success {
                    let turn = PromptTurn::Scanning {
                        conversation_id: report.conversation_id,
                        last_step_idx: report.last_step_idx,
                    };
                    (turn, PromptAction::ScanLogs)
                } else {
                    let message = if stderr.is_empty() {
                        joined("agy exited with status: ", status.as_str())
                    } else {
                        let cs = text::chars_of(stderr);
                        let kept = text::string_of(text::trimmed_end(cs.as_slice()));
                        joined("agy failed: ", kept.as_str())
                    };
                    let output = failure(
                        SERVER_ERROR,
                        message,
                        Some((report.conversation_id, report.last_step_idx)),
                    );
                    (PromptTurn::Done, PromptAction::Respond(output))
                }
            } else {
                let reason = if was_cancelled {
                    StopReason::Cancelled
                } else if !success {
                    StopReason::Error
                } else {
                    StopReason::EndTurn
                };
                let output = PromptOutput {
                    reply: Reply::Stopped(reason),
                    session_update: Some((report.conversation_id, report.last_step_idx)),
                };
                (PromptTurn::Done, PromptAction::Respond(output))
            }
        },
    }
}

/// A session with the agent.
pub struct Session {
    /// The conversation that the session is bound to.
    pub conversation_id: Option<String>,
    /// The last step of the conversation that was shown.
    pub last_step_idx: i64,
    /// The model that the session uses.
    pub model_id: Option<String>,
}

/// The sessions of one agent.
pub struct Adapter {
    sessions: StringHashMap<Session>,
}

impl Adapter {
    /// An agent without sessions.
    pub fn new() -> (r: Self)
        ensures
            r@ == Map::<Seq<char>, SessionView>::empty(),
    {
        let r = Adapter { sessions: StringHashMap::new() };
        assert(r@ =~= Map::<Seq<char>, SessionView>::empty());
        r
    }

    /// Takes a session in, in place of one with the same id.
    pub fn put_session(&mut self, session_id: &str, session: Session)
        ensures
            final(self)@ == old(self)@.insert(session_id@, session@),
    {
        self.sessions.insert(session_id.to_owned(), session);
        assert(self@ =~= old(self)@.insert(session_id@, session@));
    }

    /// The session with that id.
    pub fn session(&self, session_id: &str) -> (r: Option<&Session>)
        ensures
            match r {
                Some(session) => self@.contains_key(session_id@) && self@[session_id@]
                    == session@,
                None => !self@.contains_key(session_id@),
            },
    {
        self.sessions.get(session_id)
    }

    /// Takes a prompt turn one step further: from where it stands and what
    /// happened to where it then stands and what to do.
    pub fn execute_prompt(turn: PromptTurn, event: PromptEvent) -> (r: (PromptTurn, PromptAction))
        ensures
            (r.0@, r.1@) == turn_step(turn@, event@),
            (turn, event) matches (
                PromptTurn::Draining { was_cancelled, exit },
                PromptEvent::Drained(report),
            ) ==> valid_utf8(report.stderr@) ==> text::lossy_utf8(report.stderr@) == decode_utf8(
                report.stderr@,
            ),
    {
        match (turn, event) {
            (PromptTurn::Starting, PromptEvent::SpawnFailed(error)) => {
                let output = failure(
                    SERVER_ERROR,
                    joined("failed to run agy: ", error.as_str()),
                    None,
                );
                (PromptTurn::Done, PromptAction::Respond(output))
            },
            (PromptTurn::Starting, PromptEvent::Spawned) => (
                PromptTurn::Running,
                PromptAction::AwaitExit,
            ),
            (PromptTurn::Running, PromptEvent::CancelRequested) => (
                PromptTurn::Stopping,
                PromptAction::KillAndAwaitExit,
            ),
            (PromptTurn::Running, PromptEvent::Exited(exit)) => (
                PromptTurn::Draining { was_cancelled: false, exit },
                PromptAction::Drain,
            ),
            (PromptTurn::Stopping, PromptEvent::Exited(exit)) => (
                PromptTurn::Draining { was_cancelled: true, exit },
                PromptAction::Drain,
            ),
            (PromptTurn::Draining { was_cancelled, exit }, PromptEvent::Drained(report)) => {
                let stderr = text::decode_lossy(report.stderr.as_slice());
                drained(was_cancelled, exit, report, stderr.as_str())
            },
            (
                PromptTurn::Scanning { conversation_id, last_step_idx },
                PromptEvent::LogsScanned(found),
            ) => {
                let update = Some((conversation_id, last_step_idx));
                let output = match found {
                    Some(details) => failure(INTERNAL_ERROR, details, update),
                    None => PromptOutput {
                        reply: Reply::Stopped(StopReason::EndTurn),
                        session_update: update,
                    },
                };
                (PromptTurn::Done, PromptAction::Respond(output))
            },
            (turn, _) => (turn, PromptAction::Nothing),
        }
    }

    /// Takes what a turn leaves behind into its session. Returns what is to be
    /// kept on disk: the session, once its turn was bound to a conversation.
    pub fn finish_prompt(
        &mut self,
        session_id: &str,
        update: Option<(Option<String>, i64)>,
    ) -> (r: Option<PersistedSession>)
        ensures
            final(self)@ == sessions_after(old(self)@, session_id@, update_view(update)),
            persisted_view(r) == persisted_after(
                final(self)@,
                session_id@,
                update_view(update),
            ),
    {
        let (bound, step) = match update {
            Some(u) => u,
            None => {
                return None;
            },
        };
        let mut model_id: Option<String> = None;
        if let Some(session) = self.sessions.get(session_id) {
            model_id = clone_option(&session.model_id);
            let merged = Session {
                conversation_id: match &session.conversation_id {
                    Some(c) => Some(c.clone()),
                    None => clone_option(&bound),
                },
                last_step_idx: if bound.is_some() {
                    step
                } else {
                    session.last_step_idx
                },
                model_id: clone_option(&session.model_id),
            };
            self.sessions.insert(session_id.to_owned(), merged);
        }
        assert(self@ =~= sessions_after(old(self)@, session_id@, update_view(update)));
        match bound {
            Some(conversation_id) => Some(
                PersistedSession {
                    session_id: session_id.to_owned(),
                    conversation_id,
                    last_step_idx: step,
                    model_id,
                },
            ),
            None => None,
        }
    }
}

/// What is kept of a session on disk.
#[derive(Debug)]
pub struct PersistedSession {
    pub session_id: String,
    pub conversation_id: String,
    pub last_step_idx: i64,
    pub model_id: Option<String>,
}

pub ghost struct SessionView {
    pub conversation_id: Option<Seq<char>>,
    pub last_step_idx: i64,
    pub model_id: Option<Seq<char>>,
}

pub ghost struct PersistedView {
    pub session_id: Seq<char>,
    pub conversation_id: Seq<char>,
    pub last_step_idx: i64,
    pub model_id: Option<Seq<char>>,
}

impl View for Session {
    type V = SessionView;

    open spec fn view(&self) -> SessionView {
        SessionView {
            conversation_id: text::opt_view(self.conversation_id),
            last_step_idx: self.last_step_idx,
            model_id: text::opt_view(self.model_id),
        }
    }
}

impl View for Adapter {
    type V = Map<Seq<char>, SessionView>;

    closed spec fn view(&self) -> Map<Seq<char>, SessionView> {
        self.sessions@.map_values(|s: Session| s@)
    }
}

/// The view of what a turn leaves behind.
pub open spec fn update_view(update: Option<(Option<String>, i64)>) -> Option<
    (Option<Seq<char>>, i64),
> {
    match update {
        Some((bound, step)) => Some((text::opt_view(bound), step)),
        None => None,
    }
}

/// The view of what is to be kept on disk.
pub open spec fn persisted_view(p: Option<PersistedSession>) -> Option<PersistedView> {
    match p {
        Some(p) => Some(
            PersistedView {
                session_id: p.session_id@,
                conversation_id: p.conversation_id@,
                last_step_idx: p.last_step_idx,
                model_id: text::opt_view(p.model_id),
            },
        ),
        None => None,
    }
}

/// A session after a turn: it keeps a conversation that it has, and moves to
/// the turn's last step if the turn was bound to a conversation.
pub open spec fn session_after(s: SessionView, bound: Option<Seq<char>>, step: i64) -> SessionView {
    SessionView {
        conversation_id: if s.conversation_id is None {
            bound
        } else {
            s.conversation_id
        },
        last_step_idx: if bound is Some {
            step
        } else {
            s.last_step_idx
        },
        ..s
    }
}

/// The sessions after a turn.
pub open spec fn sessions_after(
    sessions: Map<Seq<char>, SessionView>,
    id: Seq<char>,
    update: Option<(Option<Seq<char>>, i64)>,
) -> Map<Seq<char>, SessionView> {
    match update {
        Some((bound, step)) => if sessions.contains_key(id) {
            sessions.insert(id, session_after(sessions[id], bound, step))
        } else {
            sessions
        },
        None => sessions,
    }
}

/// What is to be kept on disk after a turn, given the sessions after it.
pub open spec fn persisted_after(
    sessions: Map<Seq<char>, SessionView>,
    id: Seq<char>,
    update: Option<(Option<Seq<char>>, i64)>,
) -> Option<PersistedView> {
    match update {
        Some((Some(conversation_id), step)) => Some(
            PersistedView {
                session_id: id,
                conversation_id,
                last_step_idx: step,
                model_id: if sessions.contains_key(id) {
                    sessions[id].model_id
                } else {
                    None
                },
            },
        ),
        _ => None,
    }
}

/// A copy of an optional string.
fn clone_option(s: &Option<String>) -> (r: Option<String>)
    ensures
        text::opt_view(r) == text::opt_view(*s),
{
    match s {
        Some(s) => Some(s.clone()),
        None => None,
    }
}

/// All that bears on the answer to a turn.
pub ghost struct TurnFacts {
    /// Why the process could not be started.
    pub spawn_error: Option<Seq<char>>,
    /// Whether the turn was cancelled before the process exited.
    pub cancelled: bool,
    pub exit: ExitView,
    pub report: ReportView,
    /// The error that stands in the agent's logs.
    pub found: Option<Seq<char>>,
}

/// The answer to a turn.
pub open spec fn turn_outcome(f: TurnFacts) -> OutputView {
    match f.spawn_error {
        Some(error) => failed(SERVER_ERROR, "failed to run agy: "@ + error, None),
        None => match settled(f.cancelled, f.exit, f.report, text::lossy_utf8(f.report.stderr)) {
            Some(output) => output,
            None => scanned(f.report.conversation_id, f.report.last_step_idx, f.found),
        },
    }
}

/// The events of a turn, in order.
pub open spec fn turn_events(f: TurnFacts) -> Seq<EventView> {
    match f.spawn_error {
        Some(error) => seq![EventView::SpawnFailed(error)],
        None => {
            let started = if f.cancelled {
                seq![EventView::Spawned, EventView::CancelRequested]
            } else {
                seq![EventView::Spawned]
            };
            let ended = started.push(EventView::Exited(f.exit)).push(EventView::Drained(f.report));
            if settled(f.cancelled, f.exit, f.report, text::lossy_utf8(f.report.stderr)) is Some {
                ended
            } else {
                ended.push(EventView::LogsScanned(f.found))
            }
        },
    }
}

/// Where a turn stands after several events, and what the last one asked for.
pub open spec fn after_events(turn: TurnView, events: Seq<EventView>) -> (TurnView, ActionView)
    decreases events.len(),
{
    if events.len() == 0 {
        (turn, ActionView::Nothing)
    } else {
        turn_step(after_events(turn, events.drop_last()).0, events.last())
    }
}

/// Taken through its events, a turn ends with the answer that its facts call
/// for.
pub proof fn law_turn_is_answered(f: TurnFacts)
    ensures
        after_events(TurnView::Starting, turn_events(f)) == (
            TurnView::Done,
            ActionView::Respond(turn_outcome(f)),
        ),
{
    reveal_with_fuel(after_events, 6);
    let events = turn_events(f);
    if f.spawn_error is Some {
        assert(events.drop_last().len() == 0);
    } else {
        let spawned = seq![EventView::Spawned];
        assert(spawned.drop_last().len() == 0);
        let started = if f.cancelled {
            seq![EventView::Spawned, EventView::CancelRequested]
        } else {
            spawned
        };
        assert(f.cancelled ==> started.drop_last() =~= spawned);
        let exited = started.push(EventView::Exited(f.exit));
        assert(exited.drop_last() =~= started);
        let ended = exited.push(EventView::Drained(f.report));
        assert(ended.drop_last() =~= exited);
        if settled(f.cancelled, f.exit, f.report, text::lossy_utf8(f.report.stderr)) is None {
            assert(events.drop_last() =~= ended);
        }
    }
}

/// A turn is answered once: an answer ends it, and what has ended does
/// nothing more.
pub proof fn law_turn_is_answered_once(turn: TurnView, event: EventView)
    ensures
        turn_step(turn, event).1 is Respond ==> turn !is Done && turn_step(turn, event).0 is Done,
        turn is Done ==> turn_step(turn, event) == (turn, ActionView::Nothing),
{
}

/// A turn that ends well and shows nothing is not passed off as a success if
/// the logs hold an error: that error is the answer.
pub proof fn law_swallowed_error_is_reported(f: TurnFacts)
    requires
        f.spawn_error is None,
        !f.cancelled,
        f.exit is Exited,
        f.exit->success,
        !f.report.had_updates,
        f.found is Some,
    ensures
        turn_outcome(f).reply == (ReplyView::Failed { code: INTERNAL_ERROR, message: f.found->0 }),
{
}

/// A cancelled turn whose process could be waited for is answered as
/// cancelled, whatever the process returned.
pub proof fn law_cancelled_turn(f: TurnFacts)
    requires
        f.spawn_error is None,
        f.cancelled,
        f.exit is Exited,
    ensures
        turn_outcome(f).reply == ReplyView::Stopped(StopReason::Cancelled),
{
}

/// Output that was shown is never followed by an error, unless waiting for
/// the process failed.
pub proof fn law_shown_output_is_no_error(f: TurnFacts)
    requires
        f.spawn_error is None,
        f.exit is Exited,
        f.report.had_updates,
    ensures
        turn_outcome(f).reply == ReplyView::Stopped(stop_reason(f.cancelled, f.exit->success)),
{
}

/// The answer to a turn that was started brings the session up to date.
pub proof fn law_session_is_updated(f: TurnFacts)
    ensures
        turn_outcome(f).session_update == (if f.spawn_error is Some {
            None
        } else {
            Some((f.report.conversation_id, f.report.last_step_idx))
        }),
{
}

/// A session that is bound to a conversation stays bound to it.
pub proof fn law_conversation_is_kept(
    sessions: Map<Seq<char>, SessionView>,
    id: Seq<char>,
    update: Option<(Option<Seq<char>>, i64)>,
    other: Seq<char>,
)
    requires
        sessions.contains_key(other),
    ensures
        sessions_after(sessions, id, update).contains_key(other),
        sessions[other].conversation_id is Some ==> sessions_after(
            sessions,
            id,
            update,
        )[other].conversation_id == sessions[other].conversation_id,
        other != id ==> sessions_after(sessions, id, update)[other] == sessions[other],
{
}

} // verus!
