//! Deterministic tests of the event-handling policy: greeting, replying, the
//! `ignore_groups` scope control, per-conversation ordering, and the pending
//! cap. These drive `handle_event` / `handle_outcome` directly with constructed
//! events and a recording client (no transport, no threads, no timing) so they
//! pin the decision logic exactly. A returned `Job` is "executed" inline by a
//! fixed backend, standing in for the worker pool.

use dialogos::bot::{
    handle_event, handle_outcome, step, BotState, ConversationClass, Event, Input, Job, Outbox,
    Outcome, Phase, SendError, SendMessage, PENDING_CAP,
};
use dialogos::config::{Behavior, Config, Identity, Llm};
use dialogos::limits::{DailyBudget, Limits};
use dialogos::llm::{Completion, LlmBackend, LlmError, Role, Turn};
use dialogos::time::{Duration, Instant};

/// Records everything the bot sends, so a test can assert on it.
#[derive(Default)]
struct Recorder {
    sent: Vec<Vec<u8>>,
}

impl SendMessage for Recorder {
    fn send(&mut self, _convo_id: &str, bytes: &[u8]) -> Result<(), SendError> {
        self.sent.push(bytes.to_vec());
        Ok(())
    }
}

impl Recorder {
    fn texts(&self) -> Vec<&str> {
        self.sent
            .iter()
            .map(|b| std::str::from_utf8(b).unwrap())
            .collect()
    }
}

struct FixedBackend;

impl LlmBackend for FixedBackend {
    fn complete(&self, _system: &str, _history: &[Turn]) -> Result<Completion, LlmError> {
        Ok(Completion {
            text: "reply".to_string(),
            tokens_used: Some(1),
        })
    }
}

fn config(ignore_groups: bool) -> Config {
    Config {
        identity: Identity {
            db_path: String::new(),
            db_key: String::new(),
            registry_url: None,
        },
        llm: Llm {
            base_url: String::new(),
            model: String::new(),
            api_key: String::new(),
            max_output_tokens: 128,
            temperature_bits: 0.0f32.to_bits(),
            request_timeout: Duration::from_secs(1),
            workers: 1,
        },
        limits: Limits {
            per_convo_window: Duration::from_secs(300),
            per_convo_max_messages: 100,
            daily_max_messages: 1_000,
            daily_max_tokens: 1_000_000,
            max_active_conversations: 1_024,
            max_known_conversations: 65_536,
        },
        behavior: Behavior {
            greeting: "hi".to_string(),
            system_prompt: "test".to_string(),
            history_turns: 4,
            ignore_groups,
        },
    }
}

fn now() -> Instant {
    Instant::from_nanos(5_000_000_000)
}

fn started(convo_id: &str, class: ConversationClass) -> Event {
    Event::ConversationStarted {
        convo_id: convo_id.to_string(),
        class,
    }
}

fn message(convo_id: &str, text: &str) -> Event {
    Event::MessageReceived {
        convo_id: convo_id.to_string(),
        content: text.as_bytes().to_vec(),
    }
}

/// Run a dispatched job (and any it chains) to completion with the fixed
/// backend, standing in for the worker pool.
fn settle(
    job: Option<Job>,
    state: &mut BotState,
    client: &mut Recorder,
    backend: &dyn LlmBackend,
    cfg: &Config,
) {
    let mut job = job;
    while let Some(j) = job.take() {
        let result = backend.complete(&cfg.behavior.system_prompt, &j.context);
        let outcome = Outcome {
            convo_id: j.convo_id,
            result,
        };
        job = handle_outcome(outcome, state, client, cfg, 0, true);
    }
}

/// Feed each event and settle any resulting reply immediately.
fn drive(events: Vec<Event>, cfg: &Config) -> Recorder {
    let mut state = BotState::new();
    let mut client = Recorder::default();
    let backend = FixedBackend;
    for event in events {
        let job = handle_event(event, &mut state, &mut client, cfg, now(), 0);
        settle(job, &mut state, &mut client, &backend, cfg);
    }
    client
}

#[test]
fn greets_and_replies_in_a_private_conversation() {
    let client = drive(
        vec![
            started("p1", ConversationClass::Private),
            message("p1", "hello"),
        ],
        &config(true),
    );
    assert_eq!(client.texts(), ["hi", "reply"]);
}

#[test]
fn ignore_groups_suppresses_both_the_group_greeting_and_the_reply() {
    let client = drive(
        vec![
            started("g1", ConversationClass::Group),
            message("g1", "hello"),
        ],
        &config(true),
    );
    assert!(
        client.sent.is_empty(),
        "bot must neither greet nor reply in an ignored group"
    );
}

#[test]
fn groups_are_answered_when_ignore_groups_is_disabled() {
    let client = drive(
        vec![
            started("g1", ConversationClass::Group),
            message("g1", "hello"),
        ],
        &config(false),
    );
    assert_eq!(client.texts(), ["hi", "reply"]);
}

#[test]
fn per_conversation_messages_are_answered_one_at_a_time_in_order() {
    let cfg = config(true);
    let mut state = BotState::new();
    let mut client = Recorder::default();
    let backend = FixedBackend;
    let now = now();

    handle_event(
        started("p", ConversationClass::Private),
        &mut state,
        &mut client,
        &cfg,
        now,
        0,
    );
    // First message dispatches a job; a second while it is in flight is queued.
    let job1 = handle_event(message("p", "m1"), &mut state, &mut client, &cfg, now, 0)
        .expect("first message dispatches");
    assert!(
        handle_event(message("p", "m2"), &mut state, &mut client, &cfg, now, 0).is_none(),
        "a second message while one is in flight must be queued, not dispatched"
    );

    // Completing m1 replies and dispatches m2, whose context carries m1's turns.
    let out1 = Outcome {
        convo_id: job1.convo_id,
        result: backend.complete("s", &job1.context),
    };
    let job2 =
        handle_outcome(out1, &mut state, &mut client, &cfg, 0, true).expect("m2 dispatches next");
    let ctx: Vec<&str> = job2.context.iter().map(|t| t.content.as_str()).collect();
    assert_eq!(ctx, ["m1", "reply", "m2"]);

    let out2 = Outcome {
        convo_id: job2.convo_id,
        result: backend.complete("s", &job2.context),
    };
    assert!(handle_outcome(out2, &mut state, &mut client, &cfg, 0, true).is_none());

    assert_eq!(client.texts(), ["hi", "reply", "reply"]);
}

#[test]
fn queued_messages_beyond_the_cap_are_dropped() {
    let cfg = config(true);
    let mut state = BotState::new();
    let mut client = Recorder::default();
    let backend = FixedBackend;
    let now = now();

    handle_event(
        started("p", ConversationClass::Private),
        &mut state,
        &mut client,
        &cfg,
        now,
        0,
    );
    let job1 = handle_event(message("p", "m1"), &mut state, &mut client, &cfg, now, 0)
        .expect("first message dispatches");
    // Enqueue more than the cap while m1 is in flight.
    for i in 0..(PENDING_CAP + 3) {
        handle_event(
            message("p", &format!("q{i}")),
            &mut state,
            &mut client,
            &cfg,
            now,
            0,
        );
    }

    // Drain everything the queue held.
    let mut completed = 0;
    let mut job = Some(job1);
    while let Some(j) = job.take() {
        let outcome = Outcome {
            convo_id: j.convo_id,
            result: backend.complete("s", &j.context),
        };
        completed += 1;
        job = handle_outcome(outcome, &mut state, &mut client, &cfg, 0, true);
    }
    // m1 plus exactly PENDING_CAP queued messages; the rest were dropped.
    assert_eq!(completed, 1 + PENDING_CAP);
    assert_eq!(state.report(0).stats.drops, 3);
}

#[test]
fn a_pending_reply_in_one_conversation_does_not_block_another() {
    let cfg = config(true);
    let mut state = BotState::new();
    let mut client = Recorder::default();
    let now = now();

    // "a" dispatches and is left in flight (never completed).
    handle_event(
        started("a", ConversationClass::Private),
        &mut state,
        &mut client,
        &cfg,
        now,
        0,
    );
    let job_a = handle_event(message("a", "qa"), &mut state, &mut client, &cfg, now, 0)
        .expect("a dispatches");

    // "b" still gets its own job while a's reply is outstanding.
    handle_event(
        started("b", ConversationClass::Private),
        &mut state,
        &mut client,
        &cfg,
        now,
        0,
    );
    let job_b = handle_event(message("b", "qb"), &mut state, &mut client, &cfg, now, 0)
        .expect("b dispatches while a is in flight");

    assert_ne!(job_a.convo_id, job_b.convo_id);
}

#[test]
fn a_message_without_a_start_is_greeted_once() {
    let client = drive(
        vec![
            message("p", "one"),
            started("p", ConversationClass::Private),
            message("p", "two"),
        ],
        &config(true),
    );
    assert_eq!(client.texts(), ["hi", "reply", "reply"]);
}

#[test]
fn an_empty_greeting_is_not_sent() {
    let mut cfg = config(true);
    cfg.behavior.greeting = String::new();
    let client = drive(
        vec![
            started("p", ConversationClass::Private),
            message("p", "hello"),
        ],
        &cfg,
    );
    assert_eq!(client.texts(), ["reply"]);
}

#[test]
fn other_events_and_broken_text_change_nothing() {
    let client = drive(
        vec![
            Event::MessageReceived {
                convo_id: "p".to_string(),
                content: vec![0xff, 0xfe],
            },
            Event::ConversationMembersChanged {
                convo_id: "p".to_string(),
            },
            Event::InboundError {
                message: "x".to_string(),
            },
            Event::Other,
        ],
        &config(true),
    );
    assert!(client.sent.is_empty());
}

#[test]
fn text_beyond_ascii_is_answered() {
    let mut state = BotState::new();
    let mut client = Recorder::default();
    let job = handle_event(
        message("p", "dia-λogos ✓"),
        &mut state,
        &mut client,
        &config(true),
        now(),
        0,
    )
    .unwrap();
    assert_eq!(job.context[0].content, "dia-λogos ✓");
}

#[test]
fn a_failed_call_is_silent_and_leaves_no_turn() {
    let cfg = config(true);
    let mut state = BotState::new();
    let mut client = Recorder::default();
    let job = handle_event(message("p", "m1"), &mut state, &mut client, &cfg, now(), 0).unwrap();
    let outcome = Outcome {
        convo_id: job.convo_id,
        result: Err(LlmError::Status(500)),
    };
    assert!(handle_outcome(outcome, &mut state, &mut client, &cfg, 0, true).is_none());
    assert_eq!(client.texts(), ["hi"]);
    assert_eq!(state.budget(), DailyBudget::default());

    let job = handle_event(message("p", "m2"), &mut state, &mut client, &cfg, now(), 0).unwrap();
    assert_eq!(job.context.len(), 1);
    assert_eq!(job.context[0].content, "m2");
    assert_eq!(state.report(0).stats.llm_failures, 1);
}

#[test]
fn the_history_keeps_the_latest_exchanges_in_turn() {
    let mut cfg = config(true);
    cfg.behavior.history_turns = 2;
    let mut state = BotState::new();
    let mut client = Recorder::default();
    for i in 0..5 {
        let job = handle_event(
            message("p", &format!("m{i}")),
            &mut state,
            &mut client,
            &cfg,
            now(),
            0,
        );
        settle(job, &mut state, &mut client, &FixedBackend, &cfg);
    }
    let job = handle_event(message("p", "last"), &mut state, &mut client, &cfg, now(), 0).unwrap();
    let ctx: Vec<&str> = job.context.iter().map(|t| t.content.as_str()).collect();
    assert_eq!(ctx, ["m3", "reply", "m4", "reply", "last"]);
    let roles: Vec<Role> = job.context.iter().map(|t| t.role).collect();
    assert_eq!(
        roles,
        [
            Role::User,
            Role::Assistant,
            Role::User,
            Role::Assistant,
            Role::User
        ]
    );
}

#[test]
fn a_history_of_no_turns_keeps_nothing() {
    let mut cfg = config(true);
    cfg.behavior.history_turns = 0;
    let mut state = BotState::new();
    let mut client = Recorder::default();
    let job = handle_event(message("p", "m"), &mut state, &mut client, &cfg, now(), 0);
    settle(job, &mut state, &mut client, &FixedBackend, &cfg);
    let job = handle_event(message("p", "n"), &mut state, &mut client, &cfg, now(), 0).unwrap();
    let ctx: Vec<&str> = job.context.iter().map(|t| t.content.as_str()).collect();
    assert_eq!(ctx, ["n"]);
}

#[test]
fn a_spent_budget_is_told_once() {
    let mut cfg = config(true);
    cfg.limits.daily_max_messages = 1;
    let client = drive(
        vec![message("p", "a"), message("p", "b"), message("p", "c")],
        &cfg,
    );
    assert_eq!(
        client.texts(),
        [
            "hi",
            "reply",
            "Daily limit reached. Please try again tomorrow."
        ]
    );
}

#[test]
fn the_report_counts_what_happened() {
    let cfg = config(true);
    let mut state = BotState::with_budget(&cfg.limits, DailyBudget::default());
    let mut client = Recorder::default();
    for event in [
        started("g", ConversationClass::Group),
        message("g", "ignored"),
        started("p", ConversationClass::Private),
        message("p", "hello"),
    ] {
        let job = handle_event(event, &mut state, &mut client, &cfg, now(), 3);
        settle(job, &mut state, &mut client, &FixedBackend, &cfg);
    }
    let report = state.report(0);
    assert_eq!(report.stats.events, 4);
    assert_eq!(report.stats.replies, 1);
    assert_eq!(report.stats.denies, 0);
    assert_eq!(report.stats.drops, 1);
    assert_eq!(report.stats.llm_failures, 0);
    assert_eq!(report.evictions, 0);
    assert_eq!(report.active, 2);
    assert_eq!(report.messages_today, 1);
    assert_eq!(report.tokens_today, 1);
    // On another day nothing is spent yet.
    assert_eq!(state.report(1).messages_today, 0);
}

#[test]
fn a_finished_call_nobody_waits_for_is_ignored() {
    let cfg = config(true);
    let mut state = BotState::new();
    let mut client = Recorder::default();
    let stray = |id: &str| Outcome {
        convo_id: id.to_string(),
        result: Ok(Completion {
            text: "late".to_string(),
            tokens_used: None,
        }),
    };
    assert!(handle_outcome(stray("x"), &mut state, &mut client, &cfg, 0, true).is_none());
    handle_event(
        started("p", ConversationClass::Private),
        &mut state,
        &mut client,
        &cfg,
        now(),
        0,
    );
    assert!(handle_outcome(stray("p"), &mut state, &mut client, &cfg, 0, true).is_none());
    assert_eq!(client.texts(), ["hi"]);
}

#[test]
fn shutting_down_waits_for_the_calls_in_flight() {
    let cfg = config(true);
    let mut state = BotState::new();
    let mut client = Recorder::default();
    let first = step(
        Input::Event(message("p", "m1")),
        Phase::Serving,
        &mut state,
        &mut client,
        &cfg,
        now(),
        0,
    );
    assert!(!first.finished);
    let job = first.job.unwrap();
    let queued = step(
        Input::Event(message("p", "m2")),
        first.phase,
        &mut state,
        &mut client,
        &cfg,
        now(),
        0,
    );
    assert!(queued.job.is_none());
    let asked = step(
        Input::Shutdown,
        queued.phase,
        &mut state,
        &mut client,
        &cfg,
        now(),
        0,
    );
    assert_eq!(asked.phase, Phase::Draining);
    assert!(!asked.finished);
    // Nothing new is taken on.
    let late = step(
        Input::Event(message("q", "m3")),
        asked.phase,
        &mut state,
        &mut client,
        &cfg,
        now(),
        0,
    );
    assert!(late.job.is_none());
    assert!(!late.finished);
    // The reply in flight is still sent, and m2 is not put to the model.
    let done = step(
        Input::Outcome(Outcome {
            convo_id: job.convo_id,
            result: FixedBackend.complete("s", &job.context),
        }),
        late.phase,
        &mut state,
        &mut client,
        &cfg,
        now(),
        0,
    );
    assert!(done.job.is_none());
    assert!(done.finished);
    assert_eq!(client.texts(), ["hi", "reply"]);
}

#[test]
fn an_idle_bot_stops_at_once() {
    let mut state = BotState::default();
    let mut client = Recorder::default();
    let asked = step(
        Input::Shutdown,
        Phase::Serving,
        &mut state,
        &mut client,
        &config(true),
        now(),
        0,
    );
    assert!(asked.finished);
    assert_eq!(state.convos().active_len(), 0);
}

#[test]
fn an_outbox_collects_what_is_sent() {
    let cfg = config(true);
    let mut state = BotState::new();
    let mut outbox = Outbox::new();
    let job = handle_event(message("p", "m1"), &mut state, &mut outbox, &cfg, now(), 0).unwrap();
    let outcome = Outcome {
        convo_id: job.convo_id,
        result: FixedBackend.complete("s", &job.context),
    };
    handle_outcome(outcome, &mut state, &mut outbox, &cfg, 0, true);
    let messages = outbox.into_messages();
    let sent: Vec<(&str, &[u8])> = messages
        .iter()
        .map(|m| (m.convo_id.as_str(), m.bytes.as_slice()))
        .collect();
    assert_eq!(sent, [("p", &b"hi"[..]), ("p", &b"reply"[..])]);
}

#[test]
fn a_reply_in_progress_finds_its_state() {
    let mut cfg = config(true);
    cfg.limits.max_active_conversations = 1;
    cfg.limits.max_known_conversations = 0;
    let mut state = BotState::with_budget(&cfg.limits, DailyBudget::default());
    let mut client = Recorder::default();
    let job = handle_event(message("a", "qa"), &mut state, &mut client, &cfg, now(), 0).unwrap();
    // Others come and go meanwhile.
    for id in ["b", "c", "d"] {
        handle_event(
            started(id, ConversationClass::Private),
            &mut state,
            &mut client,
            &cfg,
            now(),
            0,
        );
    }
    assert_eq!(state.report(0).evictions, 2);
    client.sent.clear();
    settle(Some(job), &mut state, &mut client, &FixedBackend, &cfg);
    assert_eq!(client.texts(), ["reply"]);
}

/// A client that cannot send.
struct Offline;

impl SendMessage for Offline {
    fn send(&mut self, _convo_id: &str, _bytes: &[u8]) -> Result<(), SendError> {
        Err(SendError {
            reason: "offline".to_string(),
        })
    }
}

#[test]
fn a_reply_that_cannot_be_sent_is_not_counted() {
    let cfg = config(true);
    let mut state = BotState::new();
    let job = handle_event(message("p", "m1"), &mut state, &mut Offline, &cfg, now(), 0).unwrap();
    let outcome = Outcome {
        convo_id: job.convo_id,
        result: FixedBackend.complete("s", &job.context),
    };
    assert!(handle_outcome(outcome, &mut state, &mut Offline, &cfg, 0, true).is_none());
    let report = state.report(0);
    assert_eq!(report.messages_today, 0);
    assert_eq!(report.tokens_today, 0);
    assert_eq!(report.stats.replies, 0);
    assert_eq!(report.stats.llm_failures, 0);

    // The next reply goes out, and counts.
    let mut client = Recorder::default();
    let job = handle_event(message("p", "m2"), &mut state, &mut client, &cfg, now(), 0);
    settle(job, &mut state, &mut client, &FixedBackend, &cfg);
    assert_eq!(client.texts(), ["reply"]);
    assert_eq!(state.report(0).messages_today, 1);
    assert_eq!(state.report(0).tokens_today, 1);
}

#[test]
fn what_waits_is_refused_once_the_budget_is_spent() {
    let mut cfg = config(true);
    cfg.limits.daily_max_messages = 1;
    let mut state = BotState::new();
    let mut client = Recorder::default();
    let job = handle_event(message("p", "m1"), &mut state, &mut client, &cfg, now(), 0);
    for text in ["m2", "m3", "m4"] {
        assert!(
            handle_event(message("p", text), &mut state, &mut client, &cfg, now(), 0).is_none()
        );
    }
    settle(job, &mut state, &mut client, &FixedBackend, &cfg);
    assert_eq!(
        client.texts(),
        [
            "hi",
            "reply",
            "Daily limit reached. Please try again tomorrow."
        ]
    );
    let report = state.report(0);
    assert_eq!(report.messages_today, 1);
    assert_eq!(report.stats.denies, 1);
    assert_eq!(report.stats.drops, 2);

    // The peer was told, so there is silence for the rest of the window.
    client.sent.clear();
    assert!(handle_event(message("p", "m5"), &mut state, &mut client, &cfg, now(), 0).is_none());
    assert!(client.sent.is_empty());

    // The next day, a window later, replies resume.
    let later = Instant::from_nanos(5_000_000_000 + 300_000_000_000);
    let job = handle_event(message("p", "m6"), &mut state, &mut client, &cfg, later, 1).unwrap();
    let ctx: Vec<&str> = job.context.iter().map(|t| t.content.as_str()).collect();
    assert_eq!(ctx, ["m1", "reply", "m6"]);
}

#[test]
fn a_conversation_that_becomes_an_ignored_group_hears_nothing_more() {
    let cfg = config(true);
    let mut state = BotState::new();
    let mut client = Recorder::default();
    handle_event(
        started("p", ConversationClass::Private),
        &mut state,
        &mut client,
        &cfg,
        now(),
        0,
    );
    let job = handle_event(message("p", "m1"), &mut state, &mut client, &cfg, now(), 0);
    assert!(handle_event(message("p", "m2"), &mut state, &mut client, &cfg, now(), 0).is_none());
    handle_event(
        started("p", ConversationClass::Group),
        &mut state,
        &mut client,
        &cfg,
        now(),
        0,
    );
    settle(job, &mut state, &mut client, &FixedBackend, &cfg);
    assert_eq!(client.texts(), ["hi"]);
    assert_eq!(state.report(0).messages_today, 0);
    assert_eq!(state.report(0).stats.drops, 2);
    assert!(handle_event(message("p", "m3"), &mut state, &mut client, &cfg, now(), 0).is_none());
    assert_eq!(client.texts(), ["hi"]);

    // As a private conversation again, it is answered, but not greeted again.
    handle_event(
        started("p", ConversationClass::Private),
        &mut state,
        &mut client,
        &cfg,
        now(),
        0,
    );
    let job = handle_event(message("p", "m4"), &mut state, &mut client, &cfg, now(), 0);
    settle(job, &mut state, &mut client, &FixedBackend, &cfg);
    assert_eq!(client.texts(), ["hi", "reply"]);
}

#[test]
fn what_was_taken_on_is_answered_after_the_last_event() {
    let cfg = config(true);
    let mut state = BotState::new();
    let mut client = Recorder::default();
    let mut phase = Phase::Serving;
    let mut jobs: Vec<Job> = Vec::new();
    let inputs = [
        Input::Event(message("p", "m1")),
        Input::Event(message("p", "m2")),
        Input::Closed,
    ];
    for input in inputs {
        let next = step(input, phase, &mut state, &mut client, &cfg, now(), 0);
        assert!(!next.finished);
        jobs.extend(next.job);
        phase = next.phase;
    }
    assert_eq!(phase, Phase::Closing);
    let mut finished = false;
    while let Some(job) = jobs.pop() {
        assert!(!finished);
        let outcome = Outcome {
            convo_id: job.convo_id,
            result: FixedBackend.complete("s", &job.context),
        };
        let next = step(
            Input::Outcome(outcome),
            phase,
            &mut state,
            &mut client,
            &cfg,
            now(),
            0,
        );
        jobs.extend(next.job);
        finished = next.finished;
    }
    assert!(finished);
    assert_eq!(client.texts(), ["hi", "reply", "reply"]);
    // Asked to stop, it drains; that there are no more events changes nothing.
    for (before, input, after) in [
        (Phase::Closing, Input::Shutdown, Phase::Draining),
        (Phase::Draining, Input::Closed, Phase::Draining),
    ] {
        let next = step(input, before, &mut state, &mut client, &cfg, now(), 0);
        assert_eq!(next.phase, after);
        assert!(next.finished);
    }
}

#[test]
fn a_flood_of_conversations_stays_within_the_caps() {
    let mut cfg = config(true);
    cfg.limits.max_active_conversations = 3;
    cfg.limits.max_known_conversations = 4;
    let mut state = BotState::with_budget(&cfg.limits, DailyBudget::default());
    let mut client = Recorder::default();
    for i in 0..50u64 {
        let at = Instant::from_nanos(i);
        let id = format!("p{i}");
        handle_event(
            started(&id, ConversationClass::Private),
            &mut state,
            &mut client,
            &cfg,
            at,
            0,
        );
        assert!(state.report(0).active <= 3);
    }
    // The latest three are active, the four before them are remembered.
    for i in 0..50 {
        let known = state.convos().classification(&format!("p{i}")).is_some();
        assert_eq!(known, i >= 43);
    }
    assert_eq!(state.report(0).evictions, 47);
    assert_eq!(client.sent.len(), 50);
}

#[test]
fn a_day_of_replies_passes_the_cap_by_calls_in_flight_at_most() {
    let mut cfg = config(true);
    cfg.limits.daily_max_messages = 2;
    let mut state = BotState::new();
    let mut client = Recorder::default();
    // Three calls are in flight before any of them finishes.
    let jobs: Vec<Job> = ["a", "b", "c"]
        .iter()
        .map(|id| {
            handle_event(message(id, "q"), &mut state, &mut client, &cfg, now(), 0).unwrap()
        })
        .collect();
    for job in jobs {
        settle(Some(job), &mut state, &mut client, &FixedBackend, &cfg);
    }
    assert_eq!(state.report(0).messages_today, 3);
    assert!(handle_event(message("d", "q"), &mut state, &mut client, &cfg, now(), 0).is_none());

    // One after the other, the cap itself holds.
    let mut state = BotState::new();
    for id in ["a", "b", "c", "d"] {
        let job = handle_event(message(id, "q"), &mut state, &mut client, &cfg, now(), 0);
        settle(job, &mut state, &mut client, &FixedBackend, &cfg);
        assert!(state.report(0).messages_today <= 2);
    }
    assert_eq!(state.report(0).messages_today, 2);
}
