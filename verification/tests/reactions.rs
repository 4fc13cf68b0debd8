use openab::reactions::{
    classify_lowered, classify_tool, format_elapsed, mood_face, render_heartbeat, Effect,
    ReactionEmojis, ReactionTiming, Slot, StatusReactionController, ToolClass,
};
use std::collections::BTreeSet;

/// A channel with a thread in it.
#[derive(Clone)]
struct ChannelRef {
    channel_id: String,
    thread_id: Option<String>,
}

fn test_channel() -> ChannelRef {
    ChannelRef {
        channel_id: "C_test".into(),
        thread_id: Some("T_test".into()),
    }
}

/// Carries out what a controller asks for, with a clock of its own.
struct Driver {
    ctrl: StatusReactionController,
    channel: ChannelRef,
    now_ms: u64,
    tasks: Vec<(Slot, u64)>,
    sent: Vec<(ChannelRef, String)>,
    sent_at: Vec<u64>,
    on_message: BTreeSet<String>,
}

impl Driver {
    fn new(timing: ReactionTiming) -> Self {
        Driver::with(true, timing)
    }

    fn with(enabled: bool, timing: ReactionTiming) -> Self {
        Driver {
            ctrl: StatusReactionController::new(enabled, emojis(), timing),
            channel: test_channel(),
            now_ms: 0,
            tasks: vec![],
            sent: vec![],
            sent_at: vec![],
            on_message: BTreeSet::new(),
        }
    }

    fn carry_out(&mut self, effects: Vec<Effect>) {
        for effect in effects {
            match effect {
                Effect::Abort(slot) => self.tasks.retain(|t| t.0 != slot),
                Effect::Start { slot, delay_ms } => {
                    assert!(self.tasks.iter().all(|t| t.0 != slot), "{slot:?} has a task");
                    self.tasks.push((slot, self.now_ms + delay_ms));
                }
                Effect::Repeat { delay_ms } => {
                    self.tasks.push((Slot::Heartbeat, self.now_ms + delay_ms))
                }
                Effect::ResetStallTimers => {
                    let more = self.ctrl.reset_stall_timers();
                    self.carry_out(more);
                }
                Effect::AddReaction(emoji) => {
                    self.on_message.insert(emoji);
                }
                Effect::RemoveReaction(emoji) => {
                    self.on_message.remove(&emoji);
                }
                Effect::SendMessage(content) => {
                    self.sent.push((self.channel.clone(), content));
                    self.sent_at.push(self.now_ms);
                }
            }
        }
    }

    fn sleep(&mut self, ms: u64) {
        let end = self.now_ms + ms;
        loop {
            let next = self
                .tasks
                .iter()
                .enumerate()
                .filter(|(_, t)| t.1 <= end)
                .min_by_key(|(_, t)| t.1)
                .map(|(i, _)| i);
            let Some(i) = next else { break };
            let (slot, at) = self.tasks.remove(i);
            self.now_ms = at;
            let effects = match slot {
                Slot::Debounce => self.ctrl.debounce_fired(),
                Slot::SoftStall => self.ctrl.soft_stall_fired(),
                Slot::HardStall => self.ctrl.hard_stall_fired(),
                Slot::Heartbeat => self.ctrl.heartbeat_fired(at / 1000),
            };
            self.carry_out(effects);
        }
        self.now_ms = end;
    }

    fn set_queued(&mut self) {
        let effects = self.ctrl.set_queued();
        self.carry_out(effects);
    }

    fn set_thinking(&mut self) {
        let effects = self.ctrl.set_thinking();
        self.carry_out(effects);
    }

    fn set_tool(&mut self, name: &str) {
        let effects = self.ctrl.set_tool(name);
        self.carry_out(effects);
    }

    fn set_done(&mut self) {
        let effects = self.ctrl.set_done();
        self.carry_out(effects);
    }

    fn set_error(&mut self) {
        let effects = self.ctrl.set_error();
        self.carry_out(effects);
    }

    fn clear(&mut self) {
        let effects = self.ctrl.clear();
        self.carry_out(effects);
    }

    fn shown(&self) -> Vec<&str> {
        self.on_message.iter().map(|s| s.as_str()).collect()
    }
}

fn emojis() -> ReactionEmojis {
    ReactionEmojis::default()
}

fn timing() -> ReactionTiming {
    ReactionTiming::default()
}

/// Timing with soft/hard stall pushed out of reach so they don't interfere
/// with heartbeat assertions.
fn timing_for_heartbeat(text_ms: u64, repeat: bool) -> ReactionTiming {
    ReactionTiming {
        stall_soft_ms: 60 * 60 * 1000,
        stall_hard_ms: 60 * 60 * 1000,
        stall_text_ms: Some(text_ms),
        stall_text_repeat: repeat,
        ..timing()
    }
}

#[test]
fn heartbeat_fires_after_stall_text_ms() {
    let mut d = Driver::new(timing_for_heartbeat(60_000, false));
    d.set_thinking();
    assert_eq!(d.sent.len(), 0);

    d.sleep(60_500);

    assert_eq!(
        d.sent.len(),
        1,
        "heartbeat should fire once after the configured window"
    );
    let (channel, content) = &d.sent[0];
    assert_eq!(channel.channel_id, "C_test");
    assert_eq!(channel.thread_id.as_deref(), Some("T_test"));
    assert!(
        content.contains("still working"),
        "expected default template substring, got: {content}"
    );
}

#[test]
fn heartbeat_disabled_when_stall_text_ms_is_none() {
    let timing = ReactionTiming {
        stall_soft_ms: 60 * 60 * 1000,
        stall_hard_ms: 60 * 60 * 1000,
        ..ReactionTiming::default()
    };
    assert!(
        timing.stall_text_ms.is_none(),
        "regression: default must keep heartbeat off"
    );
    let mut d = Driver::new(timing);
    d.set_thinking();

    d.sleep(600_000);

    assert_eq!(
        d.sent.len(),
        0,
        "no heartbeat should fire when stall_text_ms is None"
    );
}

#[test]
fn heartbeat_resets_on_acp_event() {
    let mut d = Driver::new(timing_for_heartbeat(60_000, false));
    d.set_thinking();

    d.sleep(50_000);
    d.set_tool("read");
    d.sleep(50_000);

    assert_eq!(
        d.sent.len(),
        0,
        "event before threshold should reset the heartbeat timer"
    );

    d.sleep(15_000);
    assert_eq!(
        d.sent.len(),
        1,
        "heartbeat should fire 60s after the most recent event"
    );
}

#[test]
fn heartbeat_repeats_when_repeat_true() {
    let mut d = Driver::new(timing_for_heartbeat(60_000, true));
    d.set_thinking();

    d.sleep(60_000 * 3 + 1_000);

    assert_eq!(
        d.sent.len(),
        3,
        "expected 3 heartbeats over 3 windows when repeat=true"
    );
}

#[test]
fn heartbeat_does_not_repeat_when_repeat_false() {
    let mut d = Driver::new(timing_for_heartbeat(60_000, false));
    d.set_thinking();

    d.sleep(60_000 * 5);

    assert_eq!(
        d.sent.len(),
        1,
        "should fire exactly once when repeat=false"
    );
}

#[test]
fn heartbeat_template_substitutes_elapsed() {
    let mut d = Driver::new(ReactionTiming {
        stall_text_template: Some("hi · {elapsed}".into()),
        ..timing_for_heartbeat(60_000, false)
    });
    d.set_thinking();

    d.sleep(60_100);

    assert_eq!(d.sent.len(), 1);
    assert_eq!(
        d.sent[0].1, "hi · 1m",
        "expected substituted elapsed in custom template"
    );
}

#[test]
fn heartbeat_cancelled_after_set_done() {
    let mut d = Driver::new(timing_for_heartbeat(60_000, true));
    d.set_thinking();

    d.sleep(30_000);
    d.set_done();

    d.sleep(60_000 * 10);

    assert_eq!(
        d.sent.len(),
        0,
        "no heartbeat should fire after set_done cancels timers"
    );
}

#[test]
fn format_elapsed_seconds_range() {
    assert_eq!(format_elapsed(0), "0s");
    assert_eq!(format_elapsed(45), "45s");
    assert_eq!(format_elapsed(59), "59s");
}

#[test]
fn format_elapsed_minutes_range() {
    assert_eq!(format_elapsed(60), "1m");
    assert_eq!(format_elapsed(11 * 60), "11m");
    assert_eq!(format_elapsed(3599), "59m");
}

#[test]
fn format_elapsed_hours_range() {
    assert_eq!(format_elapsed(3600), "1h0m");
    assert_eq!(format_elapsed(3600 + 12 * 60), "1h12m");
    assert_eq!(format_elapsed(2 * 3600 + 30 * 60), "2h30m");
}

#[test]
fn defaults() {
    let timing = ReactionTiming::default();
    assert_eq!(timing.debounce_ms, 700);
    assert_eq!(timing.stall_soft_ms, 10_000);
    assert_eq!(timing.stall_hard_ms, 30_000);
    assert_eq!(timing.stall_text_ms, None);
    assert!(!timing.stall_text_repeat);
    assert_eq!(timing.stall_text_template, None);
    let emojis = ReactionEmojis::default();
    assert_eq!(emojis.queued, "👀");
    assert_eq!(emojis.thinking, "🤔");
    assert_eq!(emojis.tool, "🔥");
    assert_eq!(emojis.coding, "👨‍💻");
    assert_eq!(emojis.web, "⚡");
    assert_eq!(emojis.done, "🆗");
    assert_eq!(emojis.error, "😱");
}

#[test]
fn heartbeat_text_in_full() {
    assert_eq!(
        render_heartbeat(&timing(), 3_900),
        "⏳ still working · elapsed 1h5m"
    );
    let twice = ReactionTiming {
        stall_text_template: Some("{elapsed}{elapsed} {elapsed".into()),
        ..timing()
    };
    assert_eq!(render_heartbeat(&twice, 9), "9s9s {elapsed");
}

#[test]
fn tools_are_classified() {
    assert_eq!(classify_lowered("web_search"), ToolClass::Web);
    assert_eq!(classify_lowered("my-web-fetch-tool"), ToolClass::Web);
    assert_eq!(classify_lowered("browser.read"), ToolClass::Web);
    for name in ["exec", "process", "read", "write", "edit", "bash", "shell"] {
        assert_eq!(classify_lowered(name), ToolClass::Coding, "{name}");
    }
    assert_eq!(classify_lowered("think"), ToolClass::Other);
    assert_eq!(classify_lowered(""), ToolClass::Other);
}

#[test]
fn tool_names_are_taken_in_any_case() {
    let emojis = emojis();
    assert_eq!(classify_tool("WEB_Search", &emojis), "⚡");
    assert_eq!(classify_tool("ReadFile", &emojis), "👨‍💻");
    assert_eq!(classify_tool("Think", &emojis), "🔥");
}

#[test]
fn one_status_reaction_stands() {
    let mut d = Driver::new(timing());
    d.set_queued();
    assert_eq!(d.shown(), vec!["👀"]);
    d.set_thinking();
    assert_eq!(d.shown(), vec!["👀"]);
    d.sleep(700);
    assert_eq!(d.shown(), vec!["🤔"]);
    d.set_tool("Bash");
    d.sleep(1_000);
    assert_eq!(d.shown(), vec!["👨‍💻"]);
    d.sleep(9_500);
    assert_eq!(d.shown(), vec!["🥱"]);
    d.sleep(20_000);
    assert_eq!(d.shown(), vec!["😨"]);
    d.set_error();
    assert_eq!(d.shown(), vec!["😱"]);
    assert!(d.tasks.is_empty());
}

#[test]
fn last_stage_within_the_debounce_wins() {
    let mut d = Driver::new(timing());
    d.set_queued();
    d.set_tool("bash");
    d.sleep(500);
    d.set_tool("browser");
    d.sleep(500);
    assert_eq!(d.shown(), vec!["👀"]);
    d.sleep(200);
    assert_eq!(d.shown(), vec!["⚡"]);
}

#[test]
fn tool_within_the_debounce_of_thinking_wins() {
    let mut ctrl = StatusReactionController::new(true, emojis(), timing());
    for effect in ctrl.set_thinking().iter().chain(ctrl.set_tool("bash").iter()) {
        assert!(matches!(effect, Effect::Abort(_) | Effect::Start { .. }));
    }
    assert_eq!(
        ctrl.debounce_fired(),
        vec![Effect::AddReaction("👨‍💻".into())]
    );
    ctrl.set_tool("browser");
    ctrl.set_thinking();
    assert_eq!(
        ctrl.debounce_fired(),
        vec![
            Effect::AddReaction("🤔".into()),
            Effect::RemoveReaction("👨‍💻".into())
        ]
    );
}

#[test]
fn return_to_the_shown_stage_does_not_stop_the_pending_one() {
    let mut ctrl = StatusReactionController::new(true, emojis(), timing());
    ctrl.set_thinking();
    ctrl.debounce_fired();
    ctrl.set_tool("bash");
    ctrl.set_thinking();
    assert_eq!(
        ctrl.debounce_fired(),
        vec![
            Effect::AddReaction("👨‍💻".into()),
            Effect::RemoveReaction("🤔".into())
        ]
    );
}

#[test]
fn heartbeats_come_at_multiples_of_the_delay() {
    let mut d = Driver::new(timing_for_heartbeat(45_000, true));
    d.sleep(30_000);
    d.set_thinking();
    d.sleep(4 * 45_000);
    assert_eq!(d.sent_at, vec![75_000, 120_000, 165_000, 210_000]);
    let texts: Vec<&str> = d.sent.iter().map(|(_, text)| text.as_str()).collect();
    assert_eq!(
        texts,
        vec![
            "⏳ still working · elapsed 1m",
            "⏳ still working · elapsed 2m",
            "⏳ still working · elapsed 2m",
            "⏳ still working · elapsed 3m",
        ]
    );
    assert_eq!(d.shown(), vec!["🤔"]);
}

#[test]
fn other_timers_leave_the_heartbeat() {
    let mut d = Driver::new(ReactionTiming {
        stall_text_ms: Some(20_000),
        stall_text_repeat: true,
        ..timing()
    });
    d.set_thinking();
    d.sleep(45_000);
    assert_eq!(d.sent_at, vec![20_000, 40_000]);
    assert_eq!(d.shown(), vec!["😨"]);
}

#[test]
fn stage_that_is_shown_restarts_the_stall_timers() {
    let mut d = Driver::new(timing());
    d.set_thinking();
    d.sleep(9_000);
    d.set_thinking();
    d.sleep(9_000);
    assert_eq!(d.shown(), vec!["🤔"]);
    d.sleep(1_000);
    assert_eq!(d.shown(), vec!["🥱"]);
}

#[test]
fn done_turn_shows_a_face() {
    let faces = ["😊", "😎", "🫡", "🤓", "😏", "✌️", "💪", "🦾"];
    for n in 0..20usize {
        assert_eq!(mood_face(n), faces[n % 8]);
    }
    let mut d = Driver::new(timing());
    d.set_queued();
    d.set_done();
    assert_eq!(d.on_message.len(), 2);
    assert!(d.on_message.contains("🆗"));
    assert!(faces.iter().any(|f| d.on_message.contains(*f)));

    let mut ctrl = StatusReactionController::new(true, emojis(), timing());
    assert_eq!(
        ctrl.set_done_with(10),
        vec![
            Effect::AddReaction("🆗".into()),
            Effect::AddReaction("🫡".into())
        ]
    );
    // Done once more: nothing but another face.
    assert_eq!(
        ctrl.set_done_with(7),
        vec![Effect::AddReaction("🦾".into())]
    );
}

#[test]
fn random_faces_vary() {
    let mut seen = BTreeSet::new();
    for _ in 0..200 {
        let mut ctrl = StatusReactionController::new(true, emojis(), timing());
        for effect in ctrl.set_done() {
            if let Effect::AddReaction(emoji) = effect {
                seen.insert(emoji);
            }
        }
    }
    assert!(seen.len() > 2);
}

#[test]
fn finished_turn_is_quiet() {
    let mut d = Driver::new(timing_for_heartbeat(60_000, true));
    d.set_queued();
    d.set_error();
    d.set_queued();
    d.set_thinking();
    d.set_tool("bash");
    d.set_error();
    d.sleep(10 * 60 * 60 * 1000);
    assert_eq!(d.shown(), vec!["😱"]);
    assert!(d.sent.is_empty());
}

#[test]
fn cleared_message_shows_nothing() {
    let mut d = Driver::new(timing());
    d.set_queued();
    d.set_thinking();
    d.clear();
    assert!(d.shown().is_empty());
    assert!(d.tasks.is_empty());
    d.clear();
    assert!(d.shown().is_empty());
}

#[test]
fn disabled_controller_does_nothing() {
    let mut d = Driver::with(false, timing_for_heartbeat(60_000, true));
    d.set_queued();
    d.set_thinking();
    d.set_tool("bash");
    d.set_done();
    d.set_error();
    d.clear();
    d.sleep(10 * 60 * 60 * 1000);
    assert!(d.shown().is_empty());
    assert!(d.tasks.is_empty());
    assert!(d.sent.is_empty());
}

#[test]
fn effects_of_the_first_stage() {
    let mut ctrl = StatusReactionController::new(true, emojis(), timing());
    assert_eq!(
        ctrl.set_queued(),
        vec![Effect::AddReaction("👀".into()), Effect::ResetStallTimers]
    );
    assert_eq!(
        ctrl.reset_stall_timers(),
        vec![
            Effect::Start {
                slot: Slot::SoftStall,
                delay_ms: 10_000
            },
            Effect::Start {
                slot: Slot::HardStall,
                delay_ms: 30_000
            },
        ]
    );
    assert_eq!(ctrl.set_queued(), vec![]);
    assert_eq!(
        ctrl.set_thinking(),
        vec![
            Effect::Start {
                slot: Slot::Debounce,
                delay_ms: 700
            },
            Effect::Abort(Slot::SoftStall),
            Effect::Abort(Slot::HardStall),
            Effect::Start {
                slot: Slot::SoftStall,
                delay_ms: 10_000
            },
            Effect::Start {
                slot: Slot::HardStall,
                delay_ms: 30_000
            },
        ]
    );
    assert_eq!(
        ctrl.debounce_fired(),
        vec![
            Effect::AddReaction("🤔".into()),
            Effect::RemoveReaction("👀".into())
        ]
    );
    assert_eq!(ctrl.debounce_fired(), vec![]);
}
