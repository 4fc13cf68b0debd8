//! The request loop of the agent adapter: which request is what, when the loop
//! may end, and which running turns can be cancelled.
use vstd::prelude::*;
use vstd::hash_map::StringHashMap;
use crate::text;

verus! {

/// The JSON-RPC code of a request for a method that does not exist.
pub const METHOD_NOT_FOUND: i64 = -32601;

/// What a message asks for.
#[derive(Debug, PartialEq, Eq)]
pub enum Route {
    /// Nothing: the message is passed over.
    Ignore,
    /// To cancel the running turn of a session, with or without an answer.
    CancelSession { reply: bool },
    Initialize,
    NewSession,
    LoadSession,
    Prompt,
    SetConfigOption,
    /// A method that does not exist; the error message for it.
    MethodNotFound(String),
}

pub ghost enum RouteView {
    Ignore,
    CancelSession { reply: bool },
    Initialize,
    NewSession,
    LoadSession,
    Prompt,
    SetConfigOption,
    MethodNotFound(Seq<char>),
}

impl View for Route {
    type V = RouteView;

    open spec fn view(&self) -> RouteView {
        match *self {
            Route::Ignore => RouteView::Ignore,
            Route::CancelSession { reply } => RouteView::CancelSession { reply },
            Route::Initialize => RouteView::Initialize,
            Route::NewSession => RouteView::NewSession,
            Route::LoadSession => RouteView::LoadSession,
            Route::Prompt => RouteView::Prompt,
            Route::SetConfigOption => RouteView::SetConfigOption,
            Route::MethodNotFound(message) => RouteView::MethodNotFound(message@),
        }
    }
}

/// What a message asks for. One without an id is a notification, and the only
/// notification that counts is the one that cancels.
pub open spec fn route_of(has_id: bool, method: Option<Seq<char>>) -> RouteView {
    match method {
        None => RouteView::Ignore,
        Some(m) => if m == "session/cancel"@ {
            RouteView::CancelSession { reply: has_id }
        } else if !has_id {
            RouteView::Ignore
        } else if m == "initialize"@ {
            RouteView::Initialize
        } else if m == "session/new"@ {
            RouteView::NewSession
        } else if m == "session/load"@ {
            RouteView::LoadSession
        } else if m == "session/prompt"@ {
            RouteView::Prompt
        } else if m == "session/setConfigOption"@ || m == "session/set_config_option"@ {
            RouteView::SetConfigOption
        } else {
            RouteView::MethodNotFound("method not found: "@ + m)
        },
    }
}

/// What a message asks for, given whether it has an id and its method.
pub fn route(has_id: bool, method: Option<&str>) -> (r: Route)
    ensures
        r@ == route_of(
            has_id,
            match method {
                Some(m) => Some(m@),
                None => None,
            },
        ),
{
    match method {
        None => Route::Ignore,
        Some(m) => {
            if text::same(m, "session/cancel") {
                Route::CancelSession { reply: has_id }
            } else if !has_id {
                Route::Ignore
            } else if text::same(m, "initialize") {
                Route::Initialize
            } else if text::same(m, "session/new") {
                Route::NewSession
            } else if text::same(m, "session/load") {
                Route::LoadSession
            } else if text::same(m, "session/prompt") {
                Route::Prompt
            } else if text::same(m, "session/setConfigOption") || text::same(
                m,
                "session/set_config_option",
            ) {
                Route::SetConfigOption
            } else {
                let mut message = "method not found: ".to_owned();
                message.append(m);
                Route::MethodNotFound(message)
            }
        },
    }
}

/// The request is worked on in the background: the loop counts it until it is
/// answered.
pub open spec fn is_deferred(route: RouteView) -> bool {
    match route {
        RouteView::Initialize
        | RouteView::NewSession
        | RouteView::LoadSession
        | RouteView::Prompt
        | RouteView::SetConfigOption => true,
        _ => false,
    }
}

impl Route {
    /// Whether the request is worked on in the background.
    pub fn deferred(&self) -> (r: bool)
        ensures
            r == is_deferred(self@),
    {
        match self {
            Route::Initialize
            | Route::NewSession
            | Route::LoadSession
            | Route::Prompt
            | Route::SetConfigOption => true,
            _ => false,
        }
    }
}

/// A notification is never answered: nothing is done about it but to cancel.
pub proof fn law_notification_is_not_answered(method: Option<Seq<char>>)
    ensures
        route_of(false, method) is Ignore || route_of(false, method)
            == (RouteView::CancelSession { reply: false }),
{
}

/// Every request with an id and a method is answered.
pub proof fn law_request_is_answered(method: Seq<char>)
    ensures
        route_of(true, Some(method)) !is Ignore,
        route_of(true, Some(method)) != (RouteView::CancelSession { reply: false }),
{
}

/// Whether a line of input holds a message at all.
pub fn is_message_line(line: &str) -> (r: bool)
    ensures
        r == !text::is_blank(line@),
{
    !text::blank(line)
}

/// What happens to the loop.
pub enum ServeEvent {
    /// A line of output is ready.
    Output(String),
    /// A request that was worked on in the background is done.
    TurnFinished,
    /// There will be no more output.
    OutputClosed,
    /// A line of input came.
    Input(String),
    /// There will be no more input.
    InputClosed,
}

/// What the loop does next.
#[derive(Debug, PartialEq, Eq)]
pub enum ServeAction {
    Nothing,
    /// Write the line to the output.
    Write(String),
    /// Take the line as a message.
    Handle(String),
    /// End the loop.
    Exit,
}

/// The loop: whether it still reads input, and how many requests are being
/// worked on.
#[derive(Clone, Copy, Debug, PartialEq, Eq, Structural)]
pub struct ServeLoop {
    pub stdin_open: bool,
    pub pending: usize,
}

/// One request fewer is being worked on.
pub open spec fn one_less(pending: usize) -> usize {
    if pending == 0 {
        0
    } else {
        (pending - 1) as usize
    }
}

/// The loop after an event.
pub open spec fn loop_after(state: ServeLoop, event: ServeEvent) -> ServeLoop {
    match event {
        ServeEvent::TurnFinished => ServeLoop { pending: one_less(state.pending), ..state },
        ServeEvent::InputClosed => ServeLoop { stdin_open: false, ..state },
        _ => state,
    }
}

/// What the loop does about an event. Input counts only while it is read;
/// without input, the end of the output ends the loop.
pub open spec fn loop_action(state: ServeLoop, event: ServeEvent) -> ServeAction {
    match event {
        ServeEvent::Output(line) => ServeAction::Write(line),
        ServeEvent::OutputClosed => if state.stdin_open {
            ServeAction::Nothing
        } else {
            ServeAction::Exit
        },
        ServeEvent::Input(line) => if state.stdin_open {
            ServeAction::Handle(line)
        } else {
            ServeAction::Nothing
        },
        _ => ServeAction::Nothing,
    }
}

impl ServeLoop {
    /// A loop that reads input and has nothing to do yet.
    pub fn new() -> (r: Self)
        ensures
            r == (ServeLoop { stdin_open: true, pending: 0 }),
    {
        ServeLoop { stdin_open: true, pending: 0 }
    }

    /// The loop may end: there is no more input and nothing is worked on.
    pub open spec fn is_over(self) -> bool {
        !self.stdin_open && self.pending == 0
    }

    /// Whether the loop may end.
    pub fn over(&self) -> (r: bool)
        ensures
            r == self.is_over(),
    {
        !self.stdin_open && self.pending == 0
    }

    /// Takes an event.
    pub fn step(&mut self, event: ServeEvent) -> (r: ServeAction)
        ensures
            *final(self) == loop_after(*old(self), event),
            r == loop_action(*old(self), event),
    {
        match event {
            ServeEvent::Output(line) => ServeAction::Write(line),
            ServeEvent::TurnFinished => {
                if self.pending > 0 {
                    self.pending = self.pending - 1;
                }
                ServeAction::Nothing
            },
            ServeEvent::OutputClosed => {
                if self.stdin_open {
                    ServeAction::Nothing
                } else {
                    ServeAction::Exit
                }
            },
            ServeEvent::Input(line) => {
                if self.stdin_open {
                    ServeAction::Handle(line)
                } else {
                    ServeAction::Nothing
                }
            },
            ServeEvent::InputClosed => {
                self.stdin_open = false;
                ServeAction::Nothing
            },
        }
    }

    /// A request is from now on worked on in the background.
    pub fn turn_started(&mut self)
        requires
            old(self).pending < usize::MAX,
        ensures
            *final(self) == (ServeLoop { pending: (old(self).pending + 1) as usize, ..*old(self) }),
    {
        self.pending = self.pending + 1;
    }
}

/// What a loop goes through: a request taken on, or an event.
pub ghost enum LoopMove {
    Started,
    Event(ServeEvent),
}

/// The loop after one move.
pub open spec fn after_move(state: ServeLoop, m: LoopMove) -> ServeLoop {
    match m {
        LoopMove::Started => ServeLoop { pending: (state.pending + 1) as usize, ..state },
        LoopMove::Event(event) => loop_after(state, event),
    }
}

/// The loop after several moves.
pub open spec fn after_moves(state: ServeLoop, moves: Seq<LoopMove>) -> ServeLoop
    decreases moves.len(),
{
    if moves.len() == 0 {
        state
    } else {
        after_move(after_moves(state, moves.drop_last()), moves.last())
    }
}

/// How many requests were taken on and are not done.
pub open spec fn unfinished(moves: Seq<LoopMove>) -> int
    decreases moves.len(),
{
    if moves.len() == 0 {
        0
    } else {
        unfinished(moves.drop_last()) + match moves.last() {
            LoopMove::Started => 1int,
            LoopMove::Event(ServeEvent::TurnFinished) => -1int,
            _ => 0int,
        }
    }
}

/// The loop counts exactly the requests that were taken on and are not done,
/// as long as none is reported done before it was taken on. So it is not over
/// while one of them is unanswered.
pub proof fn law_loop_waits_for_turns(moves: Seq<LoopMove>)
    requires
        moves.len() <= usize::MAX,
        forall|k: int| 0 <= k <= moves.len() ==> unfinished(#[trigger] moves.take(k)) >= 0,
    ensures
        ({
            let end = after_moves(ServeLoop { stdin_open: true, pending: 0 }, moves);
            &&& end.pending == unfinished(moves)
            &&& end.is_over() ==> unfinished(moves) == 0
        }),
{
    lemma_loop_counts(moves);
}

proof fn lemma_loop_counts(moves: Seq<LoopMove>)
    requires
        moves.len() <= usize::MAX,
        forall|k: int| 0 <= k <= moves.len() ==> unfinished(#[trigger] moves.take(k)) >= 0,
    ensures
        after_moves(ServeLoop { stdin_open: true, pending: 0 }, moves).pending == unfinished(moves),
        0 <= unfinished(moves) <= moves.len(),
    decreases moves.len(),
{
    assert(moves.take(moves.len() as int) =~= moves);
    if moves.len() > 0 {
        let rest = moves.drop_last();
        assert forall|k: int| 0 <= k <= rest.len() implies unfinished(#[trigger] rest.take(k))
            >= 0 by {
            assert(rest.take(k) =~= moves.take(k));
        }
        lemma_loop_counts(rest);
    }
}

/// The turns that are running, by session, each with what cancels it.
#[verifier::reject_recursive_types(T)]
pub struct CancelRegistry<T> {
    active: StringHashMap<T>,
}

impl<T> View for CancelRegistry<T> {
    type V = Map<Seq<char>, T>;

    closed spec fn view(&self) -> Map<Seq<char>, T> {
        self.active@
    }
}

/// The running turns once a turn of the session begins.
pub open spec fn registered<T>(
    active: Map<Seq<char>, T>,
    session_id: Seq<char>,
    flag: T,
) -> Map<Seq<char>, T> {
    if session_id.len() == 0 {
        active
    } else {
        active.insert(session_id, flag)
    }
}

/// The running turns once the turn of the session is over.
pub open spec fn released<T>(active: Map<Seq<char>, T>, session_id: Seq<char>) -> Map<
    Seq<char>,
    T,
> {
    if session_id.len() == 0 {
        active
    } else {
        active.remove(session_id)
    }
}

impl<T> CancelRegistry<T> {
    /// No turn is running.
    pub fn new() -> (r: Self)
        ensures
            r@ == Map::<Seq<char>, T>::empty(),
    {
        CancelRegistry { active: StringHashMap::new() }
    }

    /// A turn of the session begins. It takes the place of an earlier one; a
    /// turn without a session cannot be cancelled.
    pub fn register(&mut self, session_id: &str, flag: T)
        ensures
            final(self)@ == (if session_id@.len() == 0 {
                old(self)@
            } else {
                old(self)@.insert(session_id@, flag)
            }),
            final(self)@ == registered(old(self)@, session_id@, flag),
    {
        if !session_id.is_empty() {
            self.active.insert(session_id.to_owned(), flag);
        }
    }

    /// What cancels the running turn of the session.
    pub fn lookup(&self, session_id: &str) -> (r: Option<&T>)
        ensures
            match r {
                Some(flag) => self@.contains_key(session_id@) && *flag == self@[session_id@],
                None => !self@.contains_key(session_id@),
            },
    {
        self.active.get(session_id)
    }

    /// The turn of the session is over.
    pub fn release(&mut self, session_id: &str)
        ensures
            final(self)@ == (if session_id@.len() == 0 {
                old(self)@
            } else {
                old(self)@.remove(session_id@)
            }),
            final(self)@ == released(old(self)@, session_id@),
    {
        if !session_id.is_empty() {
            self.active.remove(session_id);
        }
    }
}

/// Where a list of models comes from.
#[derive(Clone, Copy, Debug, PartialEq, Eq, Structural)]
pub enum ModelSource {
    /// The agent named them just now; they are worth keeping.
    Fetched,
    /// They were kept from an earlier run.
    Cached,
    /// They are built in.
    Fallback,
}

/// The list of models, and where it comes from.
pub open spec fn chosen_models(
    fetched: Vec<String>,
    cached: Option<Vec<String>>,
    fallback: Vec<String>,
) -> (ModelSource, Vec<String>) {
    if fetched@.len() > 0 {
        (ModelSource::Fetched, fetched)
    } else {
        match cached {
            Some(models) => (ModelSource::Cached, models),
            None => (ModelSource::Fallback, fallback),
        }
    }
}

/// Chooses the list of models: what the agent named, unless it named none;
/// else what was kept, even if that is empty; else what is built in.
pub fn choose_models(
    fetched: Vec<String>,
    cached: Option<Vec<String>>,
    fallback: Vec<String>,
) -> (r: (ModelSource, Vec<String>))
    ensures
        fetched@.len() > 0 ==> r == (ModelSource::Fetched, fetched),
        fetched@.len() == 0 && cached is Some ==> r == (ModelSource::Cached, cached->0),
        fetched@.len() == 0 && cached is None ==> r == (ModelSource::Fallback, fallback),
        r == chosen_models(fetched, cached, fallback),
{
    if fetched.len() > 0 {
        return (ModelSource::Fetched, fetched);
    }
    match cached {
        Some(models) => (ModelSource::Cached, models),
        None => (ModelSource::Fallback, fallback),
    }
}

} // verus!
