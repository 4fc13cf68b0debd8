//! The reactions that show how far a turn is: which emoji stands on the
//! message, when it changes, and what is said when nothing happens for long.
use vstd::prelude::*;
use crate::text;

verus! {

/// The emojis of the stages of a turn.
pub struct ReactionEmojis {
    pub queued: String,
    pub thinking: String,
    pub tool: String,
    pub coding: String,
    pub web: String,
    pub done: String,
    pub error: String,
}

/// How long the controller waits before what.
pub struct ReactionTiming {
    /// Before it shows a new stage, in milliseconds.
    pub debounce_ms: u64,
    /// Before it shows that nothing happens, in milliseconds.
    pub stall_soft_ms: u64,
    /// Before it shows that nothing happens for long, in milliseconds.
    pub stall_hard_ms: u64,
    /// Before it says so in words, in milliseconds; it never does if unset.
    pub stall_text_ms: Option<u64>,
    /// Whether it goes on saying so.
    pub stall_text_repeat: bool,
    /// What it says; `{elapsed}` stands for the time since the turn began.
    pub stall_text_template: Option<String>,
}

/// What kind of tool the agent uses.
#[derive(Clone, Copy, Debug, PartialEq, Eq, Structural)]
pub enum ToolClass {
    Web,
    Coding,
    Other,
}

/// The timers of a controller.
#[derive(Clone, Copy, Debug, PartialEq, Eq, Structural)]
pub enum Slot {
    Debounce,
    SoftStall,
    HardStall,
    Heartbeat,
}

/// What a controller wants done, one after the other.
#[derive(Debug, PartialEq, Eq)]
pub enum Effect {
    /// Abort the timer's task, wherever it is.
    Abort(Slot),
    /// Start a task for the timer, which fires it after the delay.
    Start { slot: Slot, delay_ms: u64 },
    /// Let the heartbeat's task fire it again after the delay.
    Repeat { delay_ms: u64 },
    /// Restart the stall timers, once all before is done.
    ResetStallTimers,
    AddReaction(String),
    RemoveReaction(String),
    SendMessage(String),
}

pub ghost enum EffectView {
    Abort(Slot),
    Start { slot: Slot, delay_ms: u64 },
    Repeat { delay_ms: u64 },
    ResetStallTimers,
    AddReaction(Seq<char>),
    RemoveReaction(Seq<char>),
    SendMessage(Seq<char>),
}

impl View for Effect {
    type V = EffectView;

    open spec fn view(&self) -> EffectView {
        match *self {
            Effect::Abort(slot) => EffectView::Abort(slot),
            Effect::Start { slot, delay_ms } => EffectView::Start { slot, delay_ms },
            Effect::Repeat { delay_ms } => EffectView::Repeat { delay_ms },
            Effect::ResetStallTimers => EffectView::ResetStallTimers,
            Effect::AddReaction(emoji) => EffectView::AddReaction(emoji@),
            Effect::RemoveReaction(emoji) => EffectView::RemoveReaction(emoji@),
            Effect::SendMessage(content) => EffectView::SendMessage(content@),
        }
    }
}

/// The views of a sequence of effects.
pub open spec fn effects_view(effects: Seq<Effect>) -> Seq<EffectView> {
    effects.map_values(|e: Effect| e@)
}

pub ghost struct EmojisView {
    pub queued: Seq<char>,
    pub thinking: Seq<char>,
    pub tool: Seq<char>,
    pub coding: Seq<char>,
    pub web: Seq<char>,
    pub done: Seq<char>,
    pub error: Seq<char>,
}

impl View for ReactionEmojis {
    type V = EmojisView;

    open spec fn view(&self) -> EmojisView {
        EmojisView {
            queued: self.queued@,
            thinking: self.thinking@,
            tool: self.tool@,
            coding: self.coding@,
            web: self.web@,
            done: self.done@,
            error: self.error@,
        }
    }
}

pub ghost struct TimingView {
    pub debounce_ms: u64,
    pub stall_soft_ms: u64,
    pub stall_hard_ms: u64,
    pub stall_text_ms: Option<u64>,
    pub stall_text_repeat: bool,
    pub stall_text_template: Option<Seq<char>>,
}

impl View for ReactionTiming {
    type V = TimingView;

    open spec fn view(&self) -> TimingView {
        TimingView {
            debounce_ms: self.debounce_ms,
            stall_soft_ms: self.stall_soft_ms,
            stall_hard_ms: self.stall_hard_ms,
            stall_text_ms: self.stall_text_ms,
            stall_text_repeat: self.stall_text_repeat,
            stall_text_template: text::opt_view(self.stall_text_template),
        }
    }
}

/// The emojis that are shown if no others are configured.
pub open spec fn default_emojis() -> EmojisView {
    EmojisView {
        queued: "👀"@,
        thinking: "🤔"@,
        tool: "🔥"@,
        coding: "👨‍💻"@,
        web: "⚡"@,
        done: "🆗"@,
        error: "😱"@,
    }
}

/// The timing that holds if no other is configured: the heartbeat is off.
pub open spec fn default_timing() -> TimingView {
    TimingView {
        debounce_ms: 700,
        stall_soft_ms: 10_000,
        stall_hard_ms: 30_000,
        stall_text_ms: None,
        stall_text_repeat: false,
        stall_text_template: None,
    }
}

impl Default for ReactionEmojis {
    fn default() -> (r: Self)
        ensures
            r@ == default_emojis(),
    {
        ReactionEmojis {
            queued: "👀".to_owned(),
            thinking: "🤔".to_owned(),
            tool: "🔥".to_owned(),
            coding: "👨‍💻".to_owned(),
            web: "⚡".to_owned(),
            done: "🆗".to_owned(),
            error: "😱".to_owned(),
        }
    }
}

impl Default for ReactionTiming {
    fn default() -> (r: Self)
        ensures
            r@ == default_timing(),
            r.stall_text_ms is None,
    {
        ReactionTiming {
            debounce_ms: 700,
            stall_soft_ms: 10_000,
            stall_hard_ms: 30_000,
            stall_text_ms: None,
            stall_text_repeat: false,
            stall_text_template: None,
        }
    }
}

/// What `str::to_lowercase` of the standard library makes of a text.
pub uninterp spec fn lowercase(s: Seq<char>) -> Seq<char>;

/// `str::to_lowercase` of the standard library. Its result is a function of
/// the text; which one, Unicode says.
#[verifier::external_body]
fn lowered(s: &str) -> (r: String)
    ensures
        r@ == lowercase(s@),
{
    s.to_lowercase()
}

/// `rand::random` of the crate `rand`: any number may come.
#[verifier::external_body]
fn random_number() -> (r: usize) {
    rand::random::<usize>()
}

/// What kind of tool has a name that is, in lower case, `n`.
pub open spec fn tool_class(n: Seq<char>) -> ToolClass {
    if text::contains(n, "web_search"@) || text::contains(n, "web_fetch"@) || text::contains(
        n,
        "web-search"@,
    ) || text::contains(n, "web-fetch"@) || text::contains(n, "browser"@) {
        ToolClass::Web
    } else if text::contains(n, "exec"@) || text::contains(n, "process"@) || text::contains(
        n,
        "read"@,
    ) || text::contains(n, "write"@) || text::contains(n, "edit"@) || text::contains(n, "bash"@)
        || text::contains(n, "shell"@) {
        ToolClass::Coding
    } else {
        ToolClass::Other
    }
}

/// The emoji of a kind of tool.
pub open spec fn class_emoji(class: ToolClass, emojis: EmojisView) -> Seq<char> {
    match class {
        ToolClass::Web => emojis.web,
        ToolClass::Coding => emojis.coding,
        ToolClass::Other => emojis.tool,
    }
}

/// Whether the word stands in the name.
fn holds(name: &[char], word: &str) -> (r: bool)
    ensures
        r == text::contains(name@, word@),
{
    let p = text::chars_of(word);
    text::position_of(name, p.as_slice()).is_some()
}

/// What kind of tool has the given name, which is in lower case.
pub fn classify_lowered(name: &str) -> (r: ToolClass)
    ensures
        r == tool_class(name@),
{
    let cs = text::chars_of(name);
    let n = cs.as_slice();
    if holds(n, "web_search") || holds(n, "web_fetch") || holds(n, "web-search") || holds(
        n,
        "web-fetch",
    ) || holds(n, "browser") {
        ToolClass::Web
    } else if holds(n, "exec") || holds(n, "process") || holds(n, "read") || holds(n, "write")
        || holds(n, "edit") || holds(n, "bash") || holds(n, "shell") {
        ToolClass::Coding
    } else {
        ToolClass::Other
    }
}

/// The emoji for the tool of the given name, in whatever case.
pub fn classify_tool<'a>(name: &str, emojis: &'a ReactionEmojis) -> (r: &'a str)
    ensures
        r@ == class_emoji(tool_class(lowercase(name@)), emojis@),
{
    let n = lowered(name);
    emoji_of(classify_lowered(n.as_str()), emojis)
}

/// The emoji of a kind of tool.
pub fn emoji_of<'a>(class: ToolClass, emojis: &'a ReactionEmojis) -> (r: &'a str)
    ensures
        r@ == class_emoji(class, emojis@),
{
    match class {
        ToolClass::Web => emojis.web.as_str(),
        ToolClass::Coding => emojis.coding.as_str(),
        ToolClass::Other => emojis.tool.as_str(),
    }
}

/// A time in seconds, short: "45s", "11m" or "1h12m".
pub open spec fn elapsed(secs: nat) -> Seq<char> {
    if secs < 60 {
        text::decimal(secs) + "s"@
    } else if secs < 3600 {
        text::decimal(secs / 60) + "m"@
    } else {
        text::decimal(secs / 3600) + "h"@ + text::decimal((secs % 3600) / 60) + "m"@
    }
}

/// A time in seconds, short: "45s", "11m" or "1h12m".
pub fn format_elapsed(secs: u64) -> (r: String)
    ensures
        r@ == elapsed(secs as nat),
{
    if secs < 60 {
        let mut r = text::decimal_of(secs);
        r.append("s");
        r
    } else if secs < 3600 {
        let mut r = text::decimal_of(secs / 60);
        r.append("m");
        r
    } else {
        let mut r = text::decimal_of(secs / 3600);
        r.append("h");
        let minutes = text::decimal_of((secs % 3600) / 60);
        r.append(minutes.as_str());
        r.append("m");
        r
    }
}

/// What the heartbeat says if nothing else is configured.
pub open spec fn default_template() -> Seq<char> {
    "⏳ still working · elapsed {elapsed}"@
}

/// What the heartbeat says after that many seconds.
pub open spec fn heartbeat_text(timing: TimingView, secs: nat) -> Seq<char> {
    let template = match timing.stall_text_template {
        Some(t) => t,
        None => default_template(),
    };
    text::replace_all(template, "{elapsed}"@, elapsed(secs))
}

/// What the heartbeat says after that many seconds.
pub fn render_heartbeat(timing: &ReactionTiming, secs: u64) -> (r: String)
    ensures
        r@ == heartbeat_text(timing@, secs as nat),
{
    let template = match &timing.stall_text_template {
        Some(t) => t.as_str(),
        None => "⏳ still working · elapsed {elapsed}",
    };
    let cs = text::chars_of(template);
    let mark = text::chars_of("{elapsed}");
    proof {
        reveal_strlit("{elapsed}");
    }
    let time = format_elapsed(secs);
    text::replaced(cs.as_slice(), mark.as_slice(), time.as_str())
}

/// The faces of which one is shown when a turn is done.
pub open spec fn faces() -> Seq<Seq<char>> {
    seq!["😊"@, "😎"@, "🫡"@, "🤓"@, "😏"@, "✌️"@, "💪"@, "🦾"@]
}

/// The face for a random number.
pub fn mood_face(n: usize) -> (r: &'static str)
    ensures
        r@ == faces()[n as int % 8],
{
    let k: usize = n % 8;
    if k == 0 {
        "😊"
    } else if k == 1 {
        "😎"
    } else if k == 2 {
        "🫡"
    } else if k == 3 {
        "🤓"
    } else if k == 4 {
        "😏"
    } else if k == 5 {
        "✌️"
    } else if k == 6 {
        "💪"
    } else {
        "🦾"
    }
}

/// Shows on a message how far the turn is that the message began. It does
/// nothing itself: each call returns what is to be done.
pub struct StatusReactionController {
    enabled: bool,
    emojis: ReactionEmojis,
    timing: ReactionTiming,
    current: String,
    finished: bool,
    pending: Option<String>,
    debounce_set: bool,
    soft_set: bool,
    hard_set: bool,
    heartbeat_set: bool,
}

/// The state of a controller.
pub ghost struct ControllerState {
    /// A controller that is not enabled does nothing.
    pub enabled: bool,
    pub emojis: EmojisView,
    pub timing: TimingView,
    /// The emoji that stands on the message; empty for none.
    pub current: Seq<char>,
    /// The turn is over.
    pub finished: bool,
    /// The emoji that is shown when the debounce timer fires.
    pub pending: Option<Seq<char>>,
    /// The timers that have a task, which may have fired.
    pub debounce_set: bool,
    pub soft_set: bool,
    pub hard_set: bool,
    pub heartbeat_set: bool,
}

/// What happens to a controller.
pub ghost enum Op {
    Queued,
    Thinking,
    Tool(ToolClass),
    /// The turn is done; the number is random.
    Done(usize),
    Error,
    Clear,
    /// The stall timers are to be restarted.
    ResetStallTimers,
    DebounceFired,
    SoftStallFired,
    HardStallFired,
    /// The heartbeat's timer fired, so many seconds after the turn began.
    HeartbeatFired(u64),
}

/// The effect, if the condition holds.
pub open spec fn when(condition: bool, effect: EffectView) -> Seq<EffectView> {
    if condition {
        seq![effect]
    } else {
        seq![]
    }
}

/// Another emoji takes the place of the one that stands on the message.
pub open spec fn show(s: ControllerState, emoji: Seq<char>) -> (ControllerState, Seq<EffectView>) {
    (
        ControllerState { current: emoji, ..s },
        seq![EffectView::AddReaction(emoji)] + when(
            s.current.len() > 0 && s.current != emoji,
            EffectView::RemoveReaction(s.current),
        ),
    )
}

/// The debounce timer is stopped.
pub open spec fn cancel_debounce(s: ControllerState) -> (ControllerState, Seq<EffectView>) {
    (
        ControllerState { debounce_set: false, pending: None, ..s },
        when(s.debounce_set, EffectView::Abort(Slot::Debounce)),
    )
}

/// All timers are stopped.
pub open spec fn cancel_timers(s: ControllerState) -> (ControllerState, Seq<EffectView>) {
    (
        ControllerState {
            debounce_set: false,
            pending: None,
            soft_set: false,
            hard_set: false,
            heartbeat_set: false,
            ..s
        },
        when(s.debounce_set, EffectView::Abort(Slot::Debounce)) + when(
            s.soft_set,
            EffectView::Abort(Slot::SoftStall),
        ) + when(s.hard_set, EffectView::Abort(Slot::HardStall)) + when(
            s.heartbeat_set,
            EffectView::Abort(Slot::Heartbeat),
        ),
    )
}

/// The stall timers are stopped and started anew; the heartbeat only if it is
/// configured.
pub open spec fn reset_stall_timers(s: ControllerState) -> (ControllerState, Seq<EffectView>) {
    (
        ControllerState {
            soft_set: true,
            hard_set: true,
            heartbeat_set: s.timing.stall_text_ms is Some,
            ..s
        },
        when(s.soft_set, EffectView::Abort(Slot::SoftStall)) + when(
            s.hard_set,
            EffectView::Abort(Slot::HardStall),
        ) + when(s.heartbeat_set, EffectView::Abort(Slot::Heartbeat)) + seq![
            EffectView::Start { slot: Slot::SoftStall, delay_ms: s.timing.stall_soft_ms },
            EffectView::Start { slot: Slot::HardStall, delay_ms: s.timing.stall_hard_ms },
        ] + when(
            s.timing.stall_text_ms is Some,
            EffectView::Start { slot: Slot::Heartbeat, delay_ms: s.timing.stall_text_ms->0 },
        ),
    )
}

/// An emoji is shown at once, unless the turn is over or it stands there.
pub open spec fn apply_immediate(s: ControllerState, emoji: Seq<char>) -> (
    ControllerState,
    Seq<EffectView>,
) {
    if s.finished || emoji == s.current {
        (s, seq![])
    } else {
        let (quiet, aborts) = cancel_debounce(s);
        let (shown, changes) = show(quiet, emoji);
        (shown, aborts + changes + seq![EffectView::ResetStallTimers])
    }
}

/// An emoji is shown after the debounce delay, unless another comes before
/// that, the turn is over or it stands there. The stall timers begin anew.
pub open spec fn schedule_debounced(s: ControllerState, emoji: Seq<char>) -> (
    ControllerState,
    Seq<EffectView>,
) {
    if s.finished || emoji == s.current {
        reset_stall_timers(s)
    } else {
        let (quiet, aborts) = cancel_debounce(s);
        let armed = ControllerState { debounce_set: true, pending: Some(emoji), ..quiet };
        let (after, resets) = reset_stall_timers(armed);
        (
            after,
            aborts + seq![
                EffectView::Start { slot: Slot::Debounce, delay_ms: s.timing.debounce_ms },
            ] + resets,
        )
    }
}

/// The turn ends: all timers stop, and the last emoji is shown.
pub open spec fn finish(s: ControllerState, emoji: Seq<char>) -> (
    ControllerState,
    Seq<EffectView>,
) {
    if s.finished {
        (s, seq![])
    } else {
        let (quiet, aborts) = cancel_timers(ControllerState { finished: true, ..s });
        let (shown, changes) = show(quiet, emoji);
        (shown, aborts + changes)
    }
}

/// An emoji shows that nothing happens, unless the turn is over.
pub open spec fn stall(s: ControllerState, emoji: Seq<char>) -> (
    ControllerState,
    Seq<EffectView>,
) {
    if s.finished {
        (s, seq![])
    } else {
        show(s, emoji)
    }
}

/// One step of a controller: its next state and what is to be done.
pub open spec fn op_step(s: ControllerState, op: Op) -> (ControllerState, Seq<EffectView>) {
    match op {
        Op::Queued => if s.enabled {
            apply_immediate(s, s.emojis.queued)
        } else {
            (s, seq![])
        },
        Op::Thinking => if s.enabled {
            schedule_debounced(s, s.emojis.thinking)
        } else {
            (s, seq![])
        },
        Op::Tool(class) => if s.enabled {
            schedule_debounced(s, class_emoji(class, s.emojis))
        } else {
            (s, seq![])
        },
        Op::Done(n) => if s.enabled {
            let (after, effects) = finish(s, s.emojis.done);
            (after, effects + seq![EffectView::AddReaction(faces()[n as int % 8])])
        } else {
            (s, seq![])
        },
        Op::Error => if s.enabled {
            finish(s, s.emojis.error)
        } else {
            (s, seq![])
        },
        Op::Clear => if s.enabled {
            let (quiet, aborts) = cancel_timers(s);
            (
                ControllerState { current: seq![], ..quiet },
                aborts + when(s.current.len() > 0, EffectView::RemoveReaction(s.current)),
            )
        } else {
            (s, seq![])
        },
        Op::ResetStallTimers => reset_stall_timers(s),
        Op::DebounceFired => match s.pending {
            Some(emoji) => stall(ControllerState { pending: None, ..s }, emoji),
            None => (s, seq![]),
        },
        Op::SoftStallFired => stall(s, "🥱"@),
        Op::HardStallFired => stall(s, "😨"@),
        Op::HeartbeatFired(secs) => if s.finished || s.timing.stall_text_ms is None {
            (s, seq![])
        } else {
            (
                s,
                seq![EffectView::SendMessage(heartbeat_text(s.timing, secs as nat))] + when(
                    s.timing.stall_text_repeat,
                    EffectView::Repeat { delay_ms: s.timing.stall_text_ms->0 },
                ),
            )
        },
    }
}

/// Appends an effect.
fn emit(out: &mut Vec<Effect>, effect: Effect)
    ensures
        effects_view(final(out)@) == effects_view(old(out)@) + seq![effect@],
{
    out.push(effect);
    assert(effects_view(out@) =~= effects_view(old(out)@) + seq![effect@]);
}

/// Appends an effect, if the condition holds.
fn emit_when(out: &mut Vec<Effect>, condition: bool, effect: Effect)
    ensures
        effects_view(final(out)@) == effects_view(old(out)@) + when(condition, effect@),
{
    if condition {
        emit(out, effect);
    } else {
        assert(effects_view(out@) =~= effects_view(old(out)@) + when(condition, effect@));
    }
}

/// No effects.
fn no_effects() -> (r: Vec<Effect>)
    ensures
        effects_view(r@) == Seq::<EffectView>::empty(),
{
    let r: Vec<Effect> = Vec::new();
    assert(effects_view(r@) =~= Seq::<EffectView>::empty());
    r
}

impl View for StatusReactionController {
    type V = ControllerState;

    closed spec fn view(&self) -> ControllerState {
        ControllerState {
            enabled: self.enabled,
            emojis: self.emojis@,
            timing: self.timing@,
            current: self.current@,
            finished: self.finished,
            pending: text::opt_view(self.pending),
            debounce_set: self.debounce_set,
            soft_set: self.soft_set,
            hard_set: self.hard_set,
            heartbeat_set: self.heartbeat_set,
        }
    }
}

impl StatusReactionController {
    /// The state of a new controller: nothing is shown and no timer runs.
    pub open spec fn initial(
        enabled: bool,
        emojis: EmojisView,
        timing: TimingView,
    ) -> ControllerState {
        ControllerState {
            enabled,
            emojis,
            timing,
            current: seq![],
            finished: false,
            pending: None,
            debounce_set: false,
            soft_set: false,
            hard_set: false,
            heartbeat_set: false,
        }
    }

    /// A controller for a new turn.
    pub fn new(enabled: bool, emojis: ReactionEmojis, timing: ReactionTiming) -> (r: Self)
        ensures
            r@ == Self::initial(enabled, emojis@, timing@),
    {
        let r = StatusReactionController {
            enabled,
            emojis,
            timing,
            current: String::new(),
            finished: false,
            pending: None,
            debounce_set: false,
            soft_set: false,
            hard_set: false,
            heartbeat_set: false,
        };
        assert(r.current@ =~= seq![]);
        r
    }

    /// The message waits for its turn.
    pub fn set_queued(&mut self) -> (r: Vec<Effect>)
        ensures
            (final(self)@, effects_view(r@)) == op_step(old(self)@, Op::Queued),
    {
        let mut out = no_effects();
        if self.enabled {
            let emoji = self.emojis.queued.clone();
            self.apply_immediate(emoji, &mut out);
            assert(effects_view(out@) =~= op_step(old(self)@, Op::Queued).1);
        }
        out
    }

    /// The agent thinks.
    pub fn set_thinking(&mut self) -> (r: Vec<Effect>)
        ensures
            (final(self)@, effects_view(r@)) == op_step(old(self)@, Op::Thinking),
    {
        let mut out = no_effects();
        if self.enabled {
            let emoji = self.emojis.thinking.clone();
            self.schedule_debounced(emoji, &mut out);
            assert(effects_view(out@) =~= op_step(old(self)@, Op::Thinking).1);
        }
        out
    }

    /// The agent uses the tool of the given name.
    pub fn set_tool(&mut self, tool_name: &str) -> (r: Vec<Effect>)
        ensures
            (final(self)@, effects_view(r@)) == op_step(
                old(self)@,
                Op::Tool(tool_class(lowercase(tool_name@))),
            ),
    {
        let n = lowered(tool_name);
        self.set_tool_class(classify_lowered(n.as_str()))
    }

    /// The agent uses a tool of the given kind.
    pub fn set_tool_class(&mut self, class: ToolClass) -> (r: Vec<Effect>)
        ensures
            (final(self)@, effects_view(r@)) == op_step(old(self)@, Op::Tool(class)),
    {
        let mut out = no_effects();
        if self.enabled {
            let emoji = emoji_of(class, &self.emojis).to_owned();
            self.schedule_debounced(emoji, &mut out);
            assert(effects_view(out@) =~= op_step(old(self)@, Op::Tool(class)).1);
        }
        out
    }

    /// The turn is done. A face is added, whichever chance picks.
    pub fn set_done(&mut self) -> (r: Vec<Effect>)
        ensures
            exists|n: usize|
                (final(self)@, effects_view(r@)) == #[trigger] op_step(old(self)@, Op::Done(n)),
    {
        self.set_done_with(random_number())
    }

    /// The turn is done. The face that the number picks is added.
    pub fn set_done_with(&mut self, n: usize) -> (r: Vec<Effect>)
        ensures
            (final(self)@, effects_view(r@)) == op_step(old(self)@, Op::Done(n)),
    {
        let mut out = no_effects();
        if self.enabled {
            let emoji = self.emojis.done.clone();
            self.finish(emoji, &mut out);
            emit(&mut out, Effect::AddReaction(mood_face(n).to_owned()));
            assert(effects_view(out@) =~= op_step(old(self)@, Op::Done(n)).1);
        }
        out
    }

    /// The turn failed.
    pub fn set_error(&mut self) -> (r: Vec<Effect>)
        ensures
            (final(self)@, effects_view(r@)) == op_step(old(self)@, Op::Error),
    {
        let mut out = no_effects();
        if self.enabled {
            let emoji = self.emojis.error.clone();
            self.finish(emoji, &mut out);
            assert(effects_view(out@) =~= op_step(old(self)@, Op::Error).1);
        }
        out
    }

    /// Nothing is to be shown any more.
    pub fn clear(&mut self) -> (r: Vec<Effect>)
        ensures
            (final(self)@, effects_view(r@)) == op_step(old(self)@, Op::Clear),
    {
        let mut out = no_effects();
        if self.enabled {
            self.cancel_timers(&mut out);
            let shown = self.current.clone();
            emit_when(&mut out, !shown.as_str().is_empty(), Effect::RemoveReaction(shown));
            self.current = String::new();
            assert(self.current@ =~= seq![]);
            assert(effects_view(out@) =~= op_step(old(self)@, Op::Clear).1);
        }
        out
    }

    /// Restarts the stall timers, when an effect asks for it.
    pub fn reset_stall_timers(&mut self) -> (r: Vec<Effect>)
        ensures
            (final(self)@, effects_view(r@)) == op_step(old(self)@, Op::ResetStallTimers),
    {
        let mut out = no_effects();
        self.reset_stall_timers_inner(&mut out);
        assert(effects_view(out@) =~= op_step(old(self)@, Op::ResetStallTimers).1);
        out
    }

    /// The debounce timer fired.
    pub fn debounce_fired(&mut self) -> (r: Vec<Effect>)
        ensures
            (final(self)@, effects_view(r@)) == op_step(old(self)@, Op::DebounceFired),
    {
        let mut out = no_effects();
        if let Some(emoji) = self.pending.take() {
            self.stall(emoji, &mut out);
        }
        assert(effects_view(out@) =~= op_step(old(self)@, Op::DebounceFired).1);
        out
    }

    /// Nothing has happened for a while.
    pub fn soft_stall_fired(&mut self) -> (r: Vec<Effect>)
        ensures
            (final(self)@, effects_view(r@)) == op_step(old(self)@, Op::SoftStallFired),
    {
        let mut out = no_effects();
        self.stall("🥱".to_owned(), &mut out);
        assert(effects_view(out@) =~= op_step(old(self)@, Op::SoftStallFired).1);
        out
    }

    /// Nothing has happened for long.
    pub fn hard_stall_fired(&mut self) -> (r: Vec<Effect>)
        ensures
            (final(self)@, effects_view(r@)) == op_step(old(self)@, Op::HardStallFired),
    {
        let mut out = no_effects();
        self.stall("😨".to_owned(), &mut out);
        assert(effects_view(out@) =~= op_step(old(self)@, Op::HardStallFired).1);
        out
    }

    /// The heartbeat is due, so many seconds after the turn began.
    pub fn heartbeat_fired(&mut self, elapsed_secs: u64) -> (r: Vec<Effect>)
        ensures
            (final(self)@, effects_view(r@)) == op_step(
                old(self)@,
                Op::HeartbeatFired(elapsed_secs),
            ),
    {
        let mut out = no_effects();
        if !self.finished {
            if let Some(delay_ms) = self.timing.stall_text_ms {
                let content = render_heartbeat(&self.timing, elapsed_secs);
                emit(&mut out, Effect::SendMessage(content));
                emit_when(&mut out, self.timing.stall_text_repeat, Effect::Repeat { delay_ms });
            }
        }
        assert(effects_view(out@) =~= op_step(old(self)@, Op::HeartbeatFired(elapsed_secs)).1);
        out
    }

    fn show(&mut self, emoji: String, out: &mut Vec<Effect>)
        ensures
            (final(self)@, effects_view(final(out)@)) == (
                show(old(self)@, emoji@).0,
                effects_view(old(out)@) + show(old(self)@, emoji@).1,
            ),
    {
        let shown = self.current.clone();
        let changes = !shown.as_str().is_empty() && !text::same(shown.as_str(), emoji.as_str());
        self.current = emoji.clone();
        emit(out, Effect::AddReaction(emoji));
        emit_when(out, changes, Effect::RemoveReaction(shown));
        assert(effects_view(out@) =~= effects_view(old(out)@) + show(old(self)@, emoji@).1);
    }

    fn stall(&mut self, emoji: String, out: &mut Vec<Effect>)
        ensures
            (final(self)@, effects_view(final(out)@)) == (
                stall(old(self)@, emoji@).0,
                effects_view(old(out)@) + stall(old(self)@, emoji@).1,
            ),
    {
        if !self.finished {
            self.show(emoji, out);
        }
        assert(effects_view(out@) =~= effects_view(old(out)@) + stall(old(self)@, emoji@).1);
    }

    fn cancel_debounce(&mut self, out: &mut Vec<Effect>)
        ensures
            (final(self)@, effects_view(final(out)@)) == (
                cancel_debounce(old(self)@).0,
                effects_view(old(out)@) + cancel_debounce(old(self)@).1,
            ),
    {
        emit_when(out, self.debounce_set, Effect::Abort(Slot::Debounce));
        self.debounce_set = false;
        self.pending = None;
    }

    fn cancel_timers(&mut self, out: &mut Vec<Effect>)
        ensures
            (final(self)@, effects_view(final(out)@)) == (
                cancel_timers(old(self)@).0,
                effects_view(old(out)@) + cancel_timers(old(self)@).1,
            ),
    {
        emit_when(out, self.debounce_set, Effect::Abort(Slot::Debounce));
        emit_when(out, self.soft_set, Effect::Abort(Slot::SoftStall));
        emit_when(out, self.hard_set, Effect::Abort(Slot::HardStall));
        emit_when(out, self.heartbeat_set, Effect::Abort(Slot::Heartbeat));
        self.debounce_set = false;
        self.pending = None;
        self.soft_set = false;
        self.hard_set = false;
        self.heartbeat_set = false;
        assert(effects_view(out@) =~= effects_view(old(out)@) + cancel_timers(old(self)@).1);
    }

    fn reset_stall_timers_inner(&mut self, out: &mut Vec<Effect>)
        ensures
            (final(self)@, effects_view(final(out)@)) == (
                reset_stall_timers(old(self)@).0,
                effects_view(old(out)@) + reset_stall_timers(old(self)@).1,
            ),
    {
        emit_when(out, self.soft_set, Effect::Abort(Slot::SoftStall));
        emit_when(out, self.hard_set, Effect::Abort(Slot::HardStall));
        emit_when(out, self.heartbeat_set, Effect::Abort(Slot::Heartbeat));
        emit(
            out,
            Effect::Start { slot: Slot::SoftStall, delay_ms: self.timing.stall_soft_ms },
        );
        emit(
            out,
            Effect::Start { slot: Slot::HardStall, delay_ms: self.timing.stall_hard_ms },
        );
        self.soft_set = true;
        self.hard_set = true;
        match self.timing.stall_text_ms {
            Some(delay_ms) => {
                emit(out, Effect::Start { slot: Slot::Heartbeat, delay_ms });
                self.heartbeat_set = true;
            },
            None => {
                self.heartbeat_set = false;
            },
        }
        assert(effects_view(out@) =~= effects_view(old(out)@) + reset_stall_timers(
            old(self)@,
        ).1);
    }

    fn apply_immediate(&mut self, emoji: String, out: &mut Vec<Effect>)
        ensures
            (final(self)@, effects_view(final(out)@)) == (
                apply_immediate(old(self)@, emoji@).0,
                effects_view(old(out)@) + apply_immediate(old(self)@, emoji@).1,
            ),
    {
        if !self.finished && !text::same(emoji.as_str(), self.current.as_str()) {
            self.cancel_debounce(out);
            self.show(emoji, out);
            emit(out, Effect::ResetStallTimers);
        }
        assert(effects_view(out@) =~= effects_view(old(out)@) + apply_immediate(
            old(self)@,
            emoji@,
        ).1);
    }

    fn schedule_debounced(&mut self, emoji: String, out: &mut Vec<Effect>)
        ensures
            (final(self)@, effects_view(final(out)@)) == (
                schedule_debounced(old(self)@, emoji@).0,
                effects_view(old(out)@) + schedule_debounced(old(self)@, emoji@).1,
            ),
    {
        if self.finished || text::same(emoji.as_str(), self.current.as_str()) {
            self.reset_stall_timers_inner(out);
        } else {
            self.cancel_debounce(out);
            emit(out, Effect::Start { slot: Slot::Debounce, delay_ms: self.timing.debounce_ms });
            self.debounce_set = true;
            self.pending = Some(emoji);
            self.reset_stall_timers_inner(out);
        }
        assert(effects_view(out@) =~= effects_view(old(out)@) + schedule_debounced(
            old(self)@,
            emoji@,
        ).1);
    }

    fn finish(&mut self, emoji: String, out: &mut Vec<Effect>)
        ensures
            (final(self)@, effects_view(final(out)@)) == (
                finish(old(self)@, emoji@).0,
                effects_view(old(out)@) + finish(old(self)@, emoji@).1,
            ),
    {
        if !self.finished {
            self.finished = true;
            self.cancel_timers(out);
            self.show(emoji, out);
        }
        assert(effects_view(out@) =~= effects_view(old(out)@) + finish(old(self)@, emoji@).1);
    }
}

} // verus!
