//! The decisions of the event loop: what each event and each finished LLM call
//! does to the bot's state, what is sent, and what is dispatched next.
//!
//! A pool of workers makes the LLM calls, so a slow reply in one conversation
//! does not stall the others. Within a conversation one message is answered at
//! a time, in the order of arrival: a message that is admitted while another is
//! in flight waits in a bounded queue. Receiving, sending and calling are left
//! to the program around the library, which hands in the clock's reading with
//! every event.
use std::collections::VecDeque;

use vstd::prelude::*;
use vstd::string::*;

use crate::config::{Behavior, Config};
use crate::convos::{ConvoState, ConvoStore, ConvoView, StoreView};
use crate::limits::{admit_message, Admission, BudgetView, DailyBudget, Limits, Verdict};
use crate::llm::{Completion, CompletionView, LlmError, Role, Turn, TurnView};
use crate::time::Instant;

verus! {

/// How many admitted messages may wait in one conversation while another is
/// being answered; further ones are dropped.
pub const PENDING_CAP: usize = 8;

/// `core::str::Utf8Error` of the standard library: where and why bytes are no
/// UTF-8. Nothing is made of it.
#[verifier::external_type_specification]
#[verifier::external_body]
pub struct ExUtf8Error(core::str::Utf8Error);

/// `core::str::from_utf8` of the standard library: succeeds on exactly the bytes
/// that are valid UTF-8, and gives the text that they encode.
pub assume_specification[ core::str::from_utf8 ](v: &[u8]) -> (res: Result<
    &str,
    core::str::Utf8Error,
>)
    ensures
        res is Ok <==> vstd::utf8::valid_utf8(v@),
        res matches Ok(text) ==> vstd::utf8::encode_utf8(text@) == v@,
;

/// Why a message could not be sent, in the client's words.
#[derive(Debug)]
pub struct SendError {
    pub reason: String,
}

/// The one client capability the bot needs: send bytes to a conversation. A
/// trait so the event loop can be driven by an in-process test transport
/// without opening a real node.
pub trait SendMessage {
    /// Whether clients of this type account for what they are handed, by
    /// `handed`, and for what they send, by `accepts`. Unless an implementor says
    /// so, nothing is taken for granted of it.
    open spec fn keeps_log() -> bool {
        false
    }

    /// Every message handed to this client so far, in order, with the
    /// conversation it is for, whether or not sending it succeeded.
    open spec fn handed(&self) -> Seq<(Seq<char>, Seq<u8>)> {
        Seq::empty()
    }

    /// Whether this client, as it is, succeeds in sending `bytes` to `convo_id`.
    open spec fn accepts(&self, convo_id: Seq<char>, bytes: Seq<u8>) -> bool {
        true
    }

    /// Send `bytes` to the conversation `convo_id`.
    fn send(&mut self, convo_id: &str, bytes: &[u8]) -> (res: Result<(), SendError>)
        ensures
            Self::keeps_log() ==> final(self).handed() == old(self).handed().push(
                (convo_id@, bytes@),
            ),
            Self::keeps_log() ==> (res is Ok <==> old(self).accepts(convo_id@, bytes@)),
    ;
}

/// A message on its way to a conversation.
#[derive(Debug)]
pub struct Outgoing {
    pub convo_id: String,
    pub bytes: Vec<u8>,
}

impl View for Outgoing {
    type V = (Seq<char>, Seq<u8>);

    open spec fn view(&self) -> (Seq<char>, Seq<u8>) {
        (self.convo_id@, self.bytes@)
    }
}

/// A client that only collects what it is handed, for someone else to deliver.
#[derive(Debug)]
pub struct Outbox {
    messages: Vec<Outgoing>,
}

impl SendMessage for Outbox {
    open spec fn keeps_log() -> bool {
        true
    }

    closed spec fn handed(&self) -> Seq<(Seq<char>, Seq<u8>)> {
        self.messages@.map_values(|message: Outgoing| message@)
    }

    open spec fn accepts(&self, convo_id: Seq<char>, bytes: Seq<u8>) -> bool {
        true
    }

    fn send(&mut self, convo_id: &str, bytes: &[u8]) -> (res: Result<(), SendError>)
        ensures
            res is Ok,
    {
        let ghost before = self.handed();
        self.messages.push(
            Outgoing { convo_id: convo_id.to_owned(), bytes: vstd::slice::slice_to_vec(bytes) },
        );
        assert(self.handed() =~= before.push((convo_id@, bytes@)));
        Ok(())
    }
}

impl Outbox {
    /// An empty outbox.
    pub fn new() -> (outbox: Self)
        ensures
            outbox.handed() == Seq::<(Seq<char>, Seq<u8>)>::empty(),
    {
        let outbox = Outbox { messages: Vec::new() };
        assert(outbox.handed() =~= Seq::empty());
        outbox
    }

    /// What the outbox was handed, in order.
    pub fn into_messages(self) -> (messages: Vec<Outgoing>)
        ensures
            messages@.map_values(|message: Outgoing| message@) == self.handed(),
    {
        self.messages
    }
}

/// How many people a conversation is between.
#[derive(Debug, Clone, Copy, PartialEq, Eq, Structural)]
pub enum ConversationClass {
    /// Between the bot and one peer.
    Private,
    /// Any other.
    Group,
}

/// What the chat client reports.
#[derive(Debug)]
pub enum Event {
    /// A conversation that the bot is part of from now on.
    ConversationStarted { convo_id: String, class: ConversationClass },
    /// A message in a conversation.
    MessageReceived { convo_id: String, content: Vec<u8> },
    /// A change of who takes part in a conversation.
    ConversationMembersChanged { convo_id: String },
    /// Something came in that could not be processed.
    InboundError { message: String },
    /// Anything that later clients report.
    Other,
}

/// An LLM call to make: the turns that the reply is to follow.
#[derive(Debug)]
pub struct Job {
    pub convo_id: String,
    pub context: Vec<Turn>,
}

/// The conversation and the turns of a job.
pub struct JobView {
    pub convo_id: Seq<char>,
    pub context: Seq<TurnView>,
}

impl View for Job {
    type V = JobView;

    open spec fn view(&self) -> JobView {
        JobView { convo_id: self.convo_id@, context: crate::llm::turn_views(self.context@) }
    }
}

/// What an optional job asks for.
pub open spec fn opt_job(job: Option<Job>) -> Option<JobView> {
    match job {
        Some(j) => Some(j@),
        None => None,
    }
}

/// A finished LLM call.
#[derive(Debug)]
pub struct Outcome {
    pub convo_id: String,
    pub result: Result<Completion, LlmError>,
}

/// What the bot has done since its start. A counter stops at its largest value.
#[derive(Debug, Clone, Copy, PartialEq, Eq, Structural)]
pub struct Stats {
    /// Events handled.
    pub events: u64,
    /// Replies sent.
    pub replies: u64,
    /// Messages answered with a canned reply instead.
    pub denies: u64,
    /// Messages dropped: in an ignored conversation, from a muted peer, because
    /// too many wait already, or because the budget was spent while they waited.
    pub drops: u64,
    /// LLM calls that came to nothing.
    pub llm_failures: u64,
}

/// `n` with `by` more counted, but never past the largest value.
pub open spec fn bumped(n: u64, by: nat) -> u64 {
    if n + by <= u64::MAX {
        (n + by) as u64
    } else {
        u64::MAX
    }
}

/// How many times something happens that happens or not.
pub open spec fn once_if(happens: bool) -> nat {
    if happens {
        1
    } else {
        0
    }
}

fn bump(n: u64, happens: bool) -> (next: u64)
    ensures
        next == bumped(n, once_if(happens)),
{
    if happens {
        n.saturating_add(1)
    } else {
        n
    }
}

/// All mutable bot state: per-conversation history and flood control, plus the
/// global daily budget shared across conversations.
#[derive(Debug)]
pub struct BotState {
    convos: ConvoStore,
    budget: DailyBudget,
    stats: Stats,
}

/// The conversations, the budget and the counters of the bot.
pub struct BotView {
    pub convos: StoreView,
    pub budget: BudgetView,
    pub stats: Stats,
}

impl View for BotState {
    type V = BotView;

    closed spec fn view(&self) -> BotView {
        BotView { convos: self.convos@, budget: self.budget@, stats: self.stats }
    }
}

/// Whether turns alternate between the peer and the model and start with the
/// peer's.
pub open spec fn in_turn(turns: Seq<TurnView>) -> bool {
    forall|i: int|
        0 <= i < turns.len() ==> (#[trigger] turns[i]).role == (if i % 2 == 0 {
            Role::User
        } else {
            Role::Assistant
        })
}

/// What holds of every active conversation: no more messages wait than may, and
/// the history is made of whole exchanges, a question and its answer each.
pub open spec fn in_order(convo: ConvoView) -> bool {
    &&& convo.pending.len() <= PENDING_CAP
    &&& convo.history.len() % 2 == 0
    &&& in_turn(convo.history)
}

impl BotView {
    /// Whether every active conversation is in order.
    pub open spec fn inv(self) -> bool {
        forall|id: Seq<char>| #[trigger]
            self.convos.active.contains_key(id) ==> in_order(self.convos.active[id])
    }
}

/// No counter has counted anything.
pub open spec fn no_stats() -> Stats {
    Stats { events: 0, replies: 0, denies: 0, drops: 0, llm_failures: 0 }
}

/// A bot that has seen nothing, with the given caps and budget.
pub open spec fn idle_bot(max_active: nat, max_known: nat, budget: BudgetView) -> BotView {
    BotView {
        convos: StoreView {
            active: Map::empty(),
            known: Seq::empty(),
            max_active,
            max_known,
            demotions: 0,
        },
        budget,
        stats: no_stats(),
    }
}

impl BotState {
    /// Whether the conversation store is in order.
    pub closed spec fn store_wf(&self) -> bool {
        self.convos.wf()
    }

    /// Whether the state is in order.
    pub open spec fn wf(&self) -> bool {
        self.store_wf() && self@.inv()
    }

    /// The state of a bot that has seen nothing and spent nothing, with the
    /// default caps on conversations.
    pub fn new() -> (state: Self)
        ensures
            state.wf(),
            state@ == idle_bot(1_024, 65_536, crate::limits::unspent_budget()),
    {
        BotState {
            convos: ConvoStore::new(
                crate::config::default_max_active_conversations(),
                crate::config::default_max_known_conversations(),
            ),
            budget: DailyBudget::default(),
            stats: Stats { events: 0, replies: 0, denies: 0, drops: 0, llm_failures: 0 },
        }
    }

    /// The state of a bot that has seen nothing, with the configured caps on
    /// conversations and what is left of the daily budget.
    pub fn with_budget(limits: &Limits, budget: DailyBudget) -> (state: Self)
        ensures
            state.wf(),
            state@ == idle_bot(
                limits.max_active_conversations as nat,
                limits.max_known_conversations as nat,
                budget@,
            ),
    {
        BotState {
            convos: ConvoStore::new(
                limits.max_active_conversations,
                limits.max_known_conversations,
            ),
            budget,
            stats: Stats { events: 0, replies: 0, denies: 0, drops: 0, llm_failures: 0 },
        }
    }

    /// The daily budget as it stands, to be saved.
    pub fn budget(&self) -> (budget: DailyBudget)
        ensures
            budget@ == self@.budget,
    {
        self.budget
    }

    /// The conversations.
    pub fn convos(&self) -> (convos: &ConvoStore)
        requires
            self.wf(),
        ensures
            convos@ == self@.convos,
            convos.wf(),
    {
        &self.convos
    }
}

impl Default for BotState {
    fn default() -> (state: Self)
        ensures
            state.wf(),
            state@ == idle_bot(1_024, 65_536, crate::limits::unspent_budget()),
    {
        BotState::new()
    }
}

/// The most recent turns of a history that may be kept: `max_turns` exchanges (a
/// user and an assistant message each).
pub open spec fn recent(history: Seq<TurnView>, max_turns: nat) -> Seq<TurnView> {
    let cap = 2 * max_turns;
    if history.len() > cap {
        history.skip(history.len() - cap)
    } else {
        history
    }
}

/// Keep only the most recent `max_turns` exchanges (a user and an assistant
/// message each), dropping the oldest.
fn trim_history(history: &mut Vec<Turn>, max_turns: usize)
    ensures
        crate::llm::turn_views(final(history)@) == recent(
            crate::llm::turn_views(old(history)@),
            max_turns as nat,
        ),
{
    let cap: usize = match max_turns.checked_mul(2) {
        Some(n) => n,
        None => usize::MAX,
    };
    if history.len() > cap {
        let ghost before = history@;
        let kept: Vec<Turn> = history.split_off(history.len() - cap);
        assert(crate::llm::turn_views(kept@) =~= crate::llm::turn_views(before).skip(
            before.len() - cap,
        ));
        *history = kept;
    }
}

/// The turns that the reply to `text` is to follow: the history and then `text`
/// as the peer's turn.
pub open spec fn context_for(history: Seq<TurnView>, text: Seq<char>) -> Seq<TurnView> {
    history.push(TurnView { role: Role::User, content: text })
}

/// Build the request context as history + this user turn, without committing
/// the user turn: a failed call must not leave an unanswered user turn that
/// breaks role alternation and re-inflates the next request.
fn build_context(history: &Vec<Turn>, text: &str) -> (context: Vec<Turn>)
    ensures
        crate::llm::turn_views(context@) == context_for(crate::llm::turn_views(history@), text@),
{
    let mut context: Vec<Turn> = Vec::new();
    let mut i: usize = 0;
    while i < history.len()
        invariant
            i <= history@.len(),
            crate::llm::turn_views(context@) == crate::llm::turn_views(history@).take(i as int),
        decreases history@.len() - i,
    {
        let ghost before = crate::llm::turn_views(context@);
        context.push(history[i].clone());
        assert(crate::llm::turn_views(context@) =~= before.push(history@[i as int]@));
        assert(crate::llm::turn_views(history@).take(i + 1) =~= before.push(history@[i as int]@));
        i = i + 1;
    }
    let ghost before = crate::llm::turn_views(context@);
    assert(before =~= crate::llm::turn_views(history@));
    context.push(Turn::user(text));
    assert(crate::llm::turn_views(context@) =~= context_for(before, text@));
    context
}

/// What an event comes to in the conversation it is about.
#[verifier::ext_equal]
pub struct Reaction {
    /// The state of the conversation afterwards.
    pub convo: ConvoView,
    /// The budget afterwards.
    pub budget: BudgetView,
    /// What is sent to the conversation, in order.
    pub sends: Seq<Seq<u8>>,
    /// The turns of the LLM call to make, if one is to be made.
    pub context: Option<Seq<TurnView>>,
    /// Whether a message is met with a canned reply.
    pub denied: bool,
    /// Whether a message is dropped.
    pub dropped: bool,
}

/// The greeting that is due: one, unless the conversation was greeted before or
/// the greeting is empty.
pub open spec fn greeting_due(convo: ConvoView, behavior: Behavior) -> Seq<Seq<u8>> {
    if !convo.greeted && behavior.greeting@.len() > 0 {
        seq![vstd::utf8::encode_utf8(behavior.greeting@)]
    } else {
        Seq::empty()
    }
}

/// What the start of a conversation comes to: a greeting, unless the bot stays
/// out of it. Either way it counts as greeted.
pub open spec fn on_started(
    convo: ConvoView,
    budget: BudgetView,
    ignored: bool,
    behavior: Behavior,
) -> Reaction {
    Reaction {
        convo: ConvoView { greeted: true, ignored, ..convo },
        budget,
        sends: if ignored {
            Seq::empty()
        } else {
            greeting_due(convo, behavior)
        },
        context: None,
        denied: false,
        dropped: false,
    }
}

/// What a message comes to in a conversation that the bot takes part in: a
/// greeting if none was sent yet; then silence or a canned reply if it is not
/// admitted, a place in the queue (if there is one) if another message is being
/// answered, and otherwise an LLM call.
pub open spec fn on_message(
    convo: ConvoView,
    budget: BudgetView,
    text: Seq<char>,
    now: nat,
    today: nat,
    cfg: Config,
) -> Reaction {
    let admission = crate::limits::admitted(convo.limiter, budget, now, today, cfg.limits);
    let met = ConvoView { greeted: true, limiter: admission.limiter, ..convo };
    let unanswered = Reaction {
        convo: met,
        budget: admission.budget,
        sends: greeting_due(convo, cfg.behavior),
        context: None,
        denied: false,
        dropped: false,
    };
    match admission.verdict {
        Verdict::SilentlyDrop => Reaction { dropped: true, ..unanswered },
        Verdict::Deny(reply) => Reaction {
            denied: true,
            sends: unanswered.sends.push(vstd::utf8::encode_utf8(reply)),
            ..unanswered
        },
        Verdict::Allow => if met.in_flight is None {
            Reaction {
                convo: ConvoView { in_flight: Some(text), ..met },
                context: Some(context_for(met.history, text)),
                ..unanswered
            }
        } else if met.pending.len() < PENDING_CAP {
            Reaction { convo: ConvoView { pending: met.pending.push(text), ..met }, ..unanswered }
        } else {
            Reaction { dropped: true, ..unanswered }
        },
    }
}

/// What an event comes to.
pub enum Course {
    /// No conversation is touched and nothing is sent; a message may be dropped.
    Untouched { dropped: bool },
    /// The conversation `id` becomes active, with this reaction.
    Engaged { id: Seq<char>, reaction: Reaction },
}

/// What an event comes to: only the start of a conversation, and text in a
/// conversation that is not known to be ignored, engage the bot.
pub open spec fn course(before: BotView, event: Event, cfg: Config, now: nat, today: nat) -> Course {
    match event {
        Event::ConversationStarted { convo_id, class } => Course::Engaged {
            id: convo_id@,
            reaction: on_started(
                before.convos.state_at(convo_id@, now),
                before.budget,
                cfg.behavior.ignore_groups && class != ConversationClass::Private,
                cfg.behavior,
            ),
        },
        Event::MessageReceived { convo_id, content } => if !vstd::utf8::valid_utf8(content@) {
            Course::Untouched { dropped: false }
        } else if before.convos.class_of(convo_id@) == Some(true) {
            Course::Untouched { dropped: true }
        } else {
            Course::Engaged {
                id: convo_id@,
                reaction: on_message(
                    before.convos.state_at(convo_id@, now),
                    before.budget,
                    vstd::utf8::decode_utf8(content@),
                    now,
                    today,
                    cfg,
                ),
            }
        },
        _ => Course::Untouched { dropped: false },
    }
}

impl Course {
    /// What is sent, in order, and to which conversation.
    pub open spec fn sends(self) -> Seq<(Seq<char>, Seq<u8>)> {
        match self {
            Course::Untouched { .. } => Seq::empty(),
            Course::Engaged { id, reaction } => reaction.sends.map_values(
                |bytes: Seq<u8>| (id, bytes),
            ),
        }
    }

    /// The LLM call to make, if one is to be made.
    pub open spec fn job(self) -> Option<JobView> {
        match self {
            Course::Engaged { id, reaction } => match reaction.context {
                Some(context) => Some(JobView { convo_id: id, context }),
                None => None,
            },
            Course::Untouched { .. } => None,
        }
    }

    /// The counters after an event that comes to this.
    pub open spec fn counted(self, stats: Stats) -> Stats {
        let (denied, dropped) = match self {
            Course::Untouched { dropped } => (false, dropped),
            Course::Engaged { id, reaction } => (reaction.denied, reaction.dropped),
        };
        Stats {
            events: bumped(stats.events, 1),
            denies: bumped(stats.denies, once_if(denied)),
            drops: bumped(stats.drops, once_if(dropped)),
            ..stats
        }
    }

    /// Whether this leads from one state of the bot to another.
    pub open spec fn leads(self, before: BotView, after: BotView) -> bool {
        &&& after.stats == self.counted(before.stats)
        &&& match self {
            Course::Untouched { .. } => {
                &&& after.convos == before.convos
                &&& after.budget == before.budget
            },
            Course::Engaged { id, reaction } => {
                &&& before.convos.brings_in(id, after.convos)
                &&& after.convos.active[id] == reaction.convo
                &&& after.budget == reaction.budget
            },
        }
    }
}

/// Hand a message to the client, and tell whether it was sent. A failure to send
/// is the client's to report.
fn send<C: SendMessage>(client: &mut C, convo: &str, bytes: &[u8]) -> (sent: bool)
    ensures
        C::keeps_log() ==> final(client).handed() == old(client).handed().push((convo@, bytes@)),
        C::keeps_log() ==> sent == old(client).accepts(convo@, bytes@),
{
    client.send(convo, bytes).is_ok()
}

/// Send the greeting, unless it is empty.
fn greet<C: SendMessage>(client: &mut C, convo: &str, behavior: &Behavior)
    ensures
        C::keeps_log() ==> final(client).handed() == (if behavior.greeting@.len() > 0 {
            old(client).handed().push((convo@, vstd::utf8::encode_utf8(behavior.greeting@)))
        } else {
            old(client).handed()
        }),
{
    if !behavior.greeting.as_str().is_empty() {
        let _ = send(client, convo, behavior.greeting.as_str().as_bytes());
    }
}

/// Bringing a conversation in that is in order leaves all of them in order.
proof fn lemma_stays_in_order(before: BotView, id: Seq<char>, after: BotView)
    requires
        before.inv(),
        before.convos.brings_in(id, after.convos),
        in_order(after.convos.active[id]),
    ensures
        after.inv(),
{
    assert forall|other: Seq<char>| #[trigger] after.convos.active.contains_key(other) implies in_order(
        after.convos.active[other],
    ) by {
        if other != id {
            assert(before.convos.active.contains_key(other));
        }
    }
}

/// Handle the start of a conversation.
fn start<C: SendMessage>(
    state: &mut BotState,
    client: &mut C,
    cfg: &Config,
    convo: &str,
    class: ConversationClass,
    now: Instant,
)
    requires
        old(state).wf(),
        old(state)@.convos.can_take(convo@),
    ensures
        final(state).wf(),
        final(state)@.stats == old(state)@.stats,
        ({
            let reaction = on_started(
                old(state)@.convos.state_at(convo@, now@),
                old(state)@.budget,
                cfg.behavior.ignore_groups && class != ConversationClass::Private,
                cfg.behavior,
            );
            &&& old(state)@.convos.brings_in(convo@, final(state)@.convos)
            &&& final(state)@.convos.active[convo@] == reaction.convo
            &&& final(state)@.budget == reaction.budget
            &&& C::keeps_log() ==> final(client).handed() == old(client).handed() + reaction.sends.map_values(
                |bytes: Seq<u8>| (convo@, bytes),
            )
        }),
{
    // Record the class now: a message carries no class, so this is the only
    // chance to learn whether to engage with this conversation.
    let private: bool = match class {
        ConversationClass::Private => true,
        ConversationClass::Group => false,
    };
    let ignored: bool = cfg.behavior.ignore_groups && !private;
    let ghost before = state@;
    let ghost handed = client.handed();
    let convo_state = state.convos.activate(convo, now);
    let first_time: bool = !convo_state.greeted;
    convo_state.greeted = true;
    convo_state.ignored = ignored;
    if first_time && !ignored {
        greet(client, convo, &cfg.behavior);
    }
    proof {
        let reaction = on_started(
            before.convos.state_at(convo@, now@),
            before.budget,
            ignored,
            cfg.behavior,
        );
        assert(state@.convos.active[convo@] == reaction.convo);
        assert(C::keeps_log() ==> client.handed() =~= handed + reaction.sends.map_values(
            |bytes: Seq<u8>| (convo@, bytes),
        ));
        lemma_stays_in_order(before, convo@, state@);
    }
}

/// Respond to a message in a conversation that is not known to be ignored.
fn respond<C: SendMessage>(
    state: &mut BotState,
    client: &mut C,
    cfg: &Config,
    convo: &str,
    text: &str,
    now: Instant,
    today: u64,
) -> (job: Option<Job>)
    requires
        old(state).wf(),
        old(state)@.convos.can_take(convo@),
    ensures
        final(state).wf(),
        ({
            let reaction = on_message(
                old(state)@.convos.state_at(convo@, now@),
                old(state)@.budget,
                text@,
                now@,
                today as nat,
                *cfg,
            );
            &&& old(state)@.convos.brings_in(convo@, final(state)@.convos)
            &&& final(state)@.convos.active[convo@] == reaction.convo
            &&& final(state)@.budget == reaction.budget
            &&& final(state)@.stats == (Stats {
                denies: bumped(old(state)@.stats.denies, once_if(reaction.denied)),
                drops: bumped(old(state)@.stats.drops, once_if(reaction.dropped)),
                ..old(state)@.stats
            })
            &&& C::keeps_log() ==> final(client).handed() == old(client).handed() + reaction.sends.map_values(
                |bytes: Seq<u8>| (convo@, bytes),
            )
            &&& opt_job(job) == (match reaction.context {
                Some(context) => Some(JobView { convo_id: convo@, context }),
                None => None,
            })
        }),
{
    let ghost before = state@;
    let ghost handed = client.handed();
    let ghost reaction = on_message(
        before.convos.state_at(convo@, now@),
        before.budget,
        text@,
        now@,
        today as nat,
        *cfg,
    );
    let convo_state = state.convos.activate(convo, now);
    let ghost entered = (*convo_state)@;

    // Greet lazily if a message arrived before (or without) the start of the
    // conversation.
    let first_time: bool = !convo_state.greeted;
    convo_state.greeted = true;
    if first_time {
        greet(client, convo, &cfg.behavior);
    }
    assert(C::keeps_log() ==> client.handed() =~= handed + greeting_due(entered, cfg.behavior).map_values(
        |bytes: Seq<u8>| (convo@, bytes),
    ));
    let admission = admit_message(
        &mut convo_state.limiter,
        &mut state.budget,
        now,
        today,
        &cfg.limits,
    );
    let mut job: Option<Job> = None;
    let mut denied: bool = false;
    let mut dropped: bool = false;
    match admission {
        Admission::SilentlyDrop => {
            dropped = true;
        },
        Admission::Deny(reply) => {
            let _ = send(client, convo, reply.as_str().as_bytes());
            denied = true;
        },
        Admission::Allow => {
            if convo_state.in_flight.is_none() {
                convo_state.in_flight = Some(text.to_owned());
                job = Some(
                    Job {
                        convo_id: convo.to_owned(),
                        context: build_context(&convo_state.history, text),
                    },
                );
            } else if convo_state.pending.len() < PENDING_CAP {
                let ghost waiting = convo_state.pending@.map_values(|t: String| t@);
                convo_state.pending.push_back(text.to_owned());
                assert(convo_state.pending@.map_values(|t: String| t@) =~= waiting.push(text@));
            } else {
                dropped = true;
            }
        },
    }
    assert((*convo_state)@ =~= reaction.convo);
    state.stats.denies = bump(state.stats.denies, denied);
    state.stats.drops = bump(state.stats.drops, dropped);
    proof {
        assert(C::keeps_log() ==> client.handed() =~= handed + reaction.sends.map_values(
            |bytes: Seq<u8>| (convo@, bytes),
        ));
        lemma_stays_in_order(before, convo@, state@);
    }
    job
}

impl BotView {
    /// Whether an event can be handled: the conversation it is about, if there
    /// is one, can be brought into the active tier.
    pub open spec fn can_take(self, event: Event) -> bool {
        match event {
            Event::ConversationStarted { convo_id, .. } => self.convos.can_take(convo_id@),
            Event::MessageReceived { convo_id, .. } => self.convos.can_take(convo_id@),
            _ => true,
        }
    }
}

/// Handle one event of the client, which arrives at `now` on the day `today`.
/// Returns the LLM call to make, if the event leads to one.
pub fn handle_event<C: SendMessage>(
    event: Event,
    state: &mut BotState,
    client: &mut C,
    cfg: &Config,
    now: Instant,
    today: u64,
) -> (job: Option<Job>)
    requires
        old(state).wf(),
        old(state)@.can_take(event),
    ensures
        final(state).wf(),
        ({
            let taken = course(old(state)@, event, *cfg, now@, today as nat);
            &&& taken.leads(old(state)@, final(state)@)
            &&& C::keeps_log() ==> final(client).handed() == old(client).handed() + taken.sends()
            &&& opt_job(job) == taken.job()
        }),
{
    let ghost handed = client.handed();
    state.stats.events = bump(state.stats.events, true);
    match event {
        Event::ConversationStarted { convo_id, class } => {
            start(state, client, cfg, convo_id.as_str(), class, now);
            None
        },
        Event::MessageReceived { convo_id, content } => {
            match core::str::from_utf8(content.as_slice()) {
                Ok(text) => {
                    proof {
                        vstd::utf8::encode_utf8_decode_utf8(text@);
                    }
                    // Drop messages on a conversation recorded as ignored (e.g. a
                    // group when `ignore_groups` is set). The start of a
                    // conversation is delivered before its first message, so the
                    // class is already known here.
                    if let Some(true) = state.convos.classification(convo_id.as_str()) {
                        state.stats.drops = bump(state.stats.drops, true);
                        assert(C::keeps_log() ==> client.handed() =~= handed + Seq::empty());
                        None
                    } else {
                        respond(state, client, cfg, convo_id.as_str(), text, now, today)
                    }
                },
                Err(_) => {
                    assert(C::keeps_log() ==> client.handed() =~= handed + Seq::empty());
                    None
                },
            }
        },
        _ => {
            assert(C::keeps_log() ==> client.handed() =~= handed + Seq::empty());
            None
        },
    }
}

/// What a finished LLM call comes to in the conversation it was made for.
#[verifier::ext_equal]
pub struct Settlement {
    /// The state of the conversation afterwards.
    pub convo: ConvoView,
    /// The budget afterwards.
    pub budget: BudgetView,
    /// What is sent to the conversation, in order.
    pub sends: Seq<Seq<u8>>,
    /// The turns of the next LLM call to make, if one is to be made.
    pub context: Option<Seq<TurnView>>,
    /// Whether a reply is sent.
    pub replied: bool,
    /// Whether a message that waited is met with a canned reply.
    pub denied: bool,
    /// How many messages are dropped.
    pub dropped: nat,
}

/// A finished LLM call for the conversation `id`.
pub struct Finished {
    pub id: Seq<char>,
    pub result: Result<CompletionView, LlmError>,
    /// Whether the client succeeds in sending the reply, if one is to be sent.
    pub sent: bool,
    /// The day on which it finished.
    pub today: nat,
    /// Whether the next message may be put to the model.
    pub dispatch_next: bool,
}

/// What a finished LLM call comes to in a conversation that the bot has been
/// told to stay out of meanwhile: the reply and what waits are dropped.
pub open spec fn on_outcome_ignored(
    convo: ConvoView,
    budget: BudgetView,
    call: Finished,
) -> Settlement {
    Settlement {
        convo: ConvoView { in_flight: None, pending: Seq::empty(), ..convo },
        budget,
        sends: Seq::empty(),
        context: None,
        replied: false,
        denied: false,
        dropped: convo.pending.len() + once_if(call.result is Ok),
    }
}

/// What the result of an LLM call for `text` comes to. A reply is sent and joins
/// the history together with `text`; if it could be sent, it counts against the
/// budget. A failure leaves all three as they are, and the peer without a word
/// of it.
pub open spec fn on_result(
    convo: ConvoView,
    budget: BudgetView,
    text: Seq<char>,
    call: Finished,
    behavior: Behavior,
) -> Settlement {
    let unanswered = Settlement {
        convo: ConvoView { in_flight: None, ..convo },
        budget,
        sends: Seq::empty(),
        context: None,
        replied: false,
        denied: false,
        dropped: 0,
    };
    match call.result {
        Ok(reply) => Settlement {
            convo: ConvoView {
                history: recent(
                    context_for(convo.history, text).push(
                        TurnView { role: Role::Assistant, content: reply.text },
                    ),
                    behavior.history_turns as nat,
                ),
                ..unanswered.convo
            },
            budget: if call.sent {
                budget.with_reply(
                    call.today,
                    match reply.tokens_used {
                        Some(tokens) => tokens as nat,
                        None => 0,
                    },
                )
            } else {
                budget
            },
            sends: seq![vstd::utf8::encode_utf8(reply.text)],
            replied: call.sent,
            ..unanswered
        },
        Err(_) => unanswered,
    }
}

/// What then comes of the messages that wait: the one that has waited longest is
/// next, unless today's budget is spent. Then they are refused as a message is
/// that comes in: the peer is told once, and met with silence for a window
/// counted from its last message.
pub open spec fn on_waiting(settled: Settlement, today: nat, limits: Limits) -> Settlement {
    let convo = settled.convo;
    if settled.budget.on(today).is_exhausted(limits) {
        let refusal = crate::limits::admitted(
            convo.limiter,
            settled.budget,
            convo.last_active,
            today,
            limits,
        );
        let refused = Settlement {
            convo: ConvoView { pending: Seq::empty(), limiter: refusal.limiter, ..convo },
            budget: refusal.budget,
            dropped: convo.pending.len(),
            ..settled
        };
        match refusal.verdict {
            Verdict::Deny(reply) => Settlement {
                sends: settled.sends.push(vstd::utf8::encode_utf8(reply)),
                denied: true,
                dropped: (convo.pending.len() - 1) as nat,
                ..refused
            },
            _ => refused,
        }
    } else {
        Settlement {
            convo: ConvoView {
                in_flight: Some(convo.pending[0]),
                pending: convo.pending.drop_first(),
                ..convo
            },
            context: Some(context_for(convo.history, convo.pending[0])),
            ..settled
        }
    }
}

/// What a finished LLM call for `text` comes to: nothing more is said in a
/// conversation that is ignored by now; elsewhere the result is dealt with, and
/// then what waits, if `call.dispatch_next` says so.
pub open spec fn on_outcome(
    convo: ConvoView,
    budget: BudgetView,
    text: Seq<char>,
    call: Finished,
    cfg: Config,
) -> Settlement {
    if convo.ignored {
        on_outcome_ignored(convo, budget, call)
    } else {
        let settled = on_result(convo, budget, text, call, cfg.behavior);
        if call.dispatch_next && convo.pending.len() > 0 {
            on_waiting(settled, call.today, cfg.limits)
        } else {
            settled
        }
    }
}

impl BotView {
    /// Whether an LLM call is in flight for `id`.
    pub open spec fn awaits(self, id: Seq<char>) -> bool {
        self.convos.active.contains_key(id) && self.convos.active[id].in_flight is Some
    }

    /// What a finished LLM call that was awaited comes to.
    pub open spec fn settlement(self, call: Finished, cfg: Config) -> Settlement {
        let convo = self.convos.active[call.id];
        on_outcome(convo, self.budget, convo.in_flight->0, call, cfg)
    }

    /// The bot after a finished LLM call; one that was not awaited changes
    /// nothing.
    pub open spec fn after_call(self, call: Finished, cfg: Config) -> BotView {
        if self.awaits(call.id) {
            let settled = self.settlement(call, cfg);
            BotView {
                convos: StoreView {
                    active: self.convos.active.insert(call.id, settled.convo),
                    ..self.convos
                },
                budget: settled.budget,
                stats: Stats {
                    replies: bumped(self.stats.replies, once_if(settled.replied)),
                    denies: bumped(self.stats.denies, once_if(settled.denied)),
                    drops: bumped(self.stats.drops, settled.dropped),
                    llm_failures: bumped(self.stats.llm_failures, once_if(call.result is Err)),
                    ..self.stats
                },
            }
        } else {
            self
        }
    }

    /// What is sent after a finished LLM call, and to which conversation.
    pub open spec fn sends_after(self, call: Finished, cfg: Config) -> Seq<(Seq<char>, Seq<u8>)> {
        if self.awaits(call.id) {
            self.settlement(call, cfg).sends.map_values(|bytes: Seq<u8>| (call.id, bytes))
        } else {
            Seq::empty()
        }
    }

    /// The LLM call to make after a finished one, if one is to be made.
    pub open spec fn job_after(self, call: Finished, cfg: Config) -> Option<JobView> {
        if self.awaits(call.id) {
            match self.settlement(call, cfg).context {
                Some(context) => Some(JobView { convo_id: call.id, context }),
                None => None,
            }
        } else {
            None
        }
    }

    /// Whether a finished LLM call leads to this state and this next call.
    pub open spec fn settles(
        self,
        call: Finished,
        cfg: Config,
        after: BotView,
        job: Option<JobView>,
    ) -> bool {
        after == self.after_call(call, cfg) && job == self.job_after(call, cfg)
    }
}

impl Outcome {
    /// The finished LLM call that this reports, whose reply is sent or not.
    pub open spec fn call(self, sent: bool, today: nat, dispatch_next: bool) -> Finished {
        Finished {
            id: self.convo_id@,
            result: crate::llm::result_view(self.result),
            sent,
            today,
            dispatch_next,
        }
    }

    /// Whether a client succeeds in sending the reply that this reports.
    pub open spec fn is_accepted<C: SendMessage>(self, client: C) -> bool {
        match self.result {
            Ok(reply) => client.accepts(
                self.convo_id@,
                vstd::utf8::encode_utf8(reply.text@),
            ),
            Err(_) => true,
        }
    }
}

/// Send a reply to `text`, and let the two join the history. Only a reply that
/// could be sent is recorded. Returns whether it could.
fn deliver_reply<C: SendMessage>(
    convo_state: &mut ConvoState,
    budget: &mut DailyBudget,
    client: &mut C,
    convo: &str,
    text: &str,
    completion: &Completion,
    today: u64,
    behavior: &Behavior,
) -> (sent: bool)
    ensures
        ({
            let exchange = context_for(old(convo_state)@.history, text@).push(
                TurnView { role: Role::Assistant, content: completion.text@ },
            );
            final(convo_state)@ == (ConvoView {
                history: recent(exchange, behavior.history_turns as nat),
                ..old(convo_state)@
            })
        }),
        final(budget)@ == (if sent {
            old(budget)@.with_reply(
                today as nat,
                match completion.tokens_used {
                    Some(tokens) => tokens as nat,
                    None => 0,
                },
            )
        } else {
            old(budget)@
        }),
        C::keeps_log() ==> final(client).handed() == old(client).handed().push(
            (convo@, vstd::utf8::encode_utf8(completion.text@)),
        ),
        C::keeps_log() ==> sent == old(client).accepts(
            convo@,
            vstd::utf8::encode_utf8(completion.text@),
        ),
{
    let ghost before = (*convo_state)@;
    convo_state.history.push(Turn::user(text));
    assert(crate::llm::turn_views(convo_state.history@) =~= context_for(before.history, text@));
    convo_state.history.push(Turn::assistant(completion.text.as_str()));
    assert(crate::llm::turn_views(convo_state.history@) =~= context_for(before.history, text@).push(
        TurnView { role: Role::Assistant, content: completion.text@ },
    ));
    trim_history(&mut convo_state.history, behavior.history_turns);
    let sent: bool = send(client, convo, completion.text.as_str().as_bytes());
    if sent {
        budget.record(
            today,
            match completion.tokens_used {
                Some(tokens) => tokens as u64,
                None => 0,
            },
        );
    }
    sent
}

/// What became of the messages that waited.
struct Waited {
    job: Option<Job>,
    denied: bool,
    dropped: u64,
}

/// What is sent, and what comes of the messages that wait, in a conversation
/// and with a budget as they stand.
spec fn waiting_at(convo: ConvoView, budget: BudgetView, today: nat, limits: Limits) -> Settlement {
    on_waiting(
        Settlement {
            convo,
            budget,
            sends: Seq::empty(),
            context: None,
            replied: false,
            denied: false,
            dropped: 0,
        },
        today,
        limits,
    )
}

/// Put the message that has waited longest to the model, or refuse all that wait
/// if today's budget is spent.
fn take_waiting<C: SendMessage>(
    convo_state: &mut ConvoState,
    budget: &mut DailyBudget,
    client: &mut C,
    convo: &str,
    today: u64,
    limits: &Limits,
) -> (waited: Waited)
    requires
        0 < old(convo_state)@.pending.len() <= PENDING_CAP,
    ensures
        ({
            let then = waiting_at(old(convo_state)@, old(budget)@, today as nat, *limits);
            &&& final(convo_state)@ == then.convo
            &&& final(budget)@ == then.budget
            &&& C::keeps_log() ==> final(client).handed() == old(client).handed()
                + then.sends.map_values(|bytes: Seq<u8>| (convo@, bytes))
            &&& opt_job(waited.job) == (match then.context {
                Some(context) => Some(JobView { convo_id: convo@, context }),
                None => None,
            })
            &&& waited.denied == then.denied
            &&& waited.dropped == then.dropped
        }),
{
    let ghost before = (*convo_state)@;
    let ghost handed = client.handed();
    let ghost then = waiting_at(before, budget@, today as nat, *limits);
    if budget.seen_on(today).exhausted(limits) {
        let mut denied: bool = false;
        let mut dropped: u64 = convo_state.pending.len() as u64;
        let now: Instant = convo_state.last_active;
        let refusal = admit_message(&mut convo_state.limiter, budget, now, today, limits);
        if let Admission::Deny(reply) = refusal {
            let _ = send(client, convo, reply.as_str().as_bytes());
            denied = true;
            dropped = dropped - 1;
        }
        convo_state.pending = VecDeque::new();
        assert((*convo_state)@ =~= then.convo);
        assert(C::keeps_log() ==> client.handed() =~= handed + then.sends.map_values(
            |bytes: Seq<u8>| (convo@, bytes),
        ));
        Waited { job: None, denied, dropped }
    } else {
        let mut job: Option<Job> = None;
        if let Some(next) = convo_state.pending.pop_front() {
            assert(convo_state.pending@.map_values(|t: String| t@)
                =~= before.pending.drop_first());
            job = Some(
                Job {
                    convo_id: convo.to_owned(),
                    context: build_context(&convo_state.history, next.as_str()),
                },
            );
            convo_state.in_flight = Some(next);
        }
        assert((*convo_state)@ =~= then.convo);
        assert(C::keeps_log() ==> client.handed() =~= handed + then.sends.map_values(
            |bytes: Seq<u8>| (convo@, bytes),
        ));
        Waited { job, denied: false, dropped: 0 }
    }
}

/// Handle one finished LLM call on the day `today`. Returns the next LLM call to
/// make for that conversation: for the message that has waited longest, if any
/// waits, the budget is not spent, and `dispatch_next` is set (a bot that shuts
/// down starts nothing new).
pub fn handle_outcome<C: SendMessage>(
    outcome: Outcome,
    state: &mut BotState,
    client: &mut C,
    cfg: &Config,
    today: u64,
    dispatch_next: bool,
) -> (job: Option<Job>)
    requires
        old(state).wf(),
    ensures
        final(state).wf(),
        exists|sent: bool|
            {
                let call = #[trigger] outcome.call(sent, today as nat, dispatch_next);
                &&& old(state)@.settles(call, *cfg, final(state)@, opt_job(job))
                &&& C::keeps_log() ==> final(client).handed() == old(client).handed() + old(
                    state,
                )@.sends_after(call, *cfg)
                &&& C::keeps_log() ==> sent == outcome.is_accepted(*old(client))
            },
{
    let ghost before = state@;
    let ghost handed = client.handed();
    let ghost id = outcome.convo_id@;
    let ghost accepted = outcome.is_accepted(*client);
    assert(handed + Seq::empty() =~= handed);
    let convo_state = match state.convos.get_mut(outcome.convo_id.as_str()) {
        Some(convo_state) => convo_state,
        None => {
            assert(before.settles(
                outcome.call(accepted, today as nat, dispatch_next),
                *cfg,
                state@,
                opt_job(None),
            ));
            return None;
        },
    };
    let ghost convo = (*convo_state)@;
    let text: String = match convo_state.in_flight.take() {
        Some(text) => text,
        None => {
            assert((*convo_state)@ =~= convo);
            assert(before.convos.active.insert(id, convo) =~= before.convos.active);
            assert(before.settles(
                outcome.call(accepted, today as nat, dispatch_next),
                *cfg,
                state@,
                opt_job(None),
            ));
            return None;
        },
    };
    let failed: bool = outcome.result.is_err();
    let ghost mut sent: bool = accepted;
    let mut replied: bool = false;
    let mut waited = Waited { job: None, denied: false, dropped: 0 };
    if convo_state.ignored {
        // The bot was told to stay out while the call was in flight.
        waited.dropped = convo_state.pending.len() as u64;
        if !failed {
            waited.dropped = waited.dropped + 1;
        }
        convo_state.pending = VecDeque::new();
    } else {
        // After a failure, stay silent so that no detail leaks to the peer.
        if let Ok(completion) = &outcome.result {
            replied = deliver_reply(
                convo_state,
                &mut state.budget,
                client,
                outcome.convo_id.as_str(),
                text.as_str(),
                completion,
                today,
                &cfg.behavior,
            );
            proof {
                sent = replied;
            }
        }
        if dispatch_next && convo_state.pending.len() > 0 {
            waited =
            take_waiting(
                convo_state,
                &mut state.budget,
                client,
                outcome.convo_id.as_str(),
                today,
                &cfg.limits,
            );
        }
    }
    let ghost call = outcome.call(sent, today as nat, dispatch_next);
    let ghost settled = before.settlement(call, *cfg);
    assert((*convo_state)@ =~= settled.convo);
    state.stats.replies = bump(state.stats.replies, replied);
    state.stats.denies = bump(state.stats.denies, waited.denied);
    state.stats.drops = state.stats.drops.saturating_add(waited.dropped);
    state.stats.llm_failures = bump(state.stats.llm_failures, failed);
    proof {
        assert(C::keeps_log() ==> client.handed() =~= handed + settled.sends.map_values(
            |bytes: Seq<u8>| (id, bytes),
        ));
        lemma_settled_in_order(
            before.convos.active[id],
            before.budget,
            text@,
            call,
            *cfg,
        );
        assert(before.settles(call, *cfg, state@, opt_job(waited.job)));
    }
    waited.job
}

/// The most recent exchanges of a history made of whole exchanges are whole
/// exchanges, and no more than may be kept.
proof fn lemma_recent_in_turn(history: Seq<TurnView>, max_turns: nat)
    requires
        history.len() % 2 == 0,
        in_turn(history),
    ensures
        recent(history, max_turns).len() % 2 == 0,
        recent(history, max_turns).len() <= 2 * max_turns,
        in_turn(recent(history, max_turns)),
{
    let kept = recent(history, max_turns);
    let gone = history.len() - kept.len();
    assert forall|i: int| 0 <= i < kept.len() implies (#[trigger] kept[i]).role == (if i % 2 == 0 {
        Role::User
    } else {
        Role::Assistant
    }) by {
        assert(kept[i] == history[i + gone]);
    }
}

/// A finished LLM call leaves a conversation in order, with no more turns than
/// before or than may be kept.
pub proof fn lemma_settled_in_order(
    convo: ConvoView,
    budget: BudgetView,
    text: Seq<char>,
    call: Finished,
    cfg: Config,
)
    requires
        in_order(convo),
    ensures
        in_order(on_outcome(convo, budget, text, call, cfg).convo),
        convo.history.len() <= 2 * cfg.behavior.history_turns ==> on_outcome(
            convo,
            budget,
            text,
            call,
            cfg,
        ).convo.history.len() <= 2 * cfg.behavior.history_turns,
{
    if let Ok(reply) = call.result {
        let exchange = context_for(convo.history, text).push(
            TurnView { role: Role::Assistant, content: reply.text },
        );
        assert forall|i: int| 0 <= i < exchange.len() implies (#[trigger] exchange[i]).role == (if i
            % 2 == 0 {
            Role::User
        } else {
            Role::Assistant
        }) by {
            if i < convo.history.len() {
                assert(exchange[i] == convo.history[i]);
            }
        }
        lemma_recent_in_turn(exchange, cfg.behavior.history_turns as nat);
    }
}

/// Whether the bot takes on new messages.
#[derive(Debug, Clone, Copy, PartialEq, Eq, Structural)]
pub enum Phase {
    /// Events are handled and messages answered.
    Serving,
    /// There are no more events: what was taken on is still answered.
    Closing,
    /// The bot shuts down: it starts nothing new and waits for the LLM calls in
    /// flight.
    Draining,
}

/// What the event loop is woken by.
#[derive(Debug)]
pub enum Input {
    /// The client reports an event.
    Event(Event),
    /// A worker has finished an LLM call.
    Outcome(Outcome),
    /// There are no more events to come.
    Closed,
    /// The bot is asked to stop.
    Shutdown,
}

/// What the event loop does next.
#[derive(Debug)]
pub struct Step {
    pub phase: Phase,
    /// The LLM call to hand to a worker.
    pub job: Option<Job>,
    /// Whether the loop ends.
    pub finished: bool,
}

impl Phase {
    /// Whether messages that wait are put to the model.
    pub open spec fn dispatches(self) -> bool {
        self != Phase::Draining
    }

    /// The phase after an input.
    pub open spec fn after(self, input: Input) -> Phase {
        match input {
            Input::Shutdown => Phase::Draining,
            Input::Closed => if self == Phase::Serving {
                Phase::Closing
            } else {
                self
            },
            _ => self,
        }
    }
}

/// One turn of the event loop. While serving, events and finished calls are
/// handled. Once there are no more events, finished calls and waiting messages
/// still are; once asked to stop, only finished calls. Either way the loop ends
/// when no call is in flight.
pub fn step<C: SendMessage>(
    input: Input,
    phase: Phase,
    state: &mut BotState,
    client: &mut C,
    cfg: &Config,
    now: Instant,
    today: u64,
) -> (next: Step)
    requires
        old(state).wf(),
        input is Event && phase == Phase::Serving ==> old(state)@.can_take(input->Event_0),
    ensures
        final(state).wf(),
        next.phase == phase.after(input),
        next.finished == (next.phase != Phase::Serving
            && final(state)@.convos.in_flight_ids().len() == 0),
        match input {
            Input::Event(event) => if phase == Phase::Serving {
                let taken = course(old(state)@, event, *cfg, now@, today as nat);
                &&& taken.leads(old(state)@, final(state)@)
                &&& C::keeps_log() ==> final(client).handed() == old(client).handed()
                    + taken.sends()
                &&& opt_job(next.job) == taken.job()
            } else {
                &&& final(state)@ == old(state)@
                &&& C::keeps_log() ==> final(client).handed() == old(client).handed()
                &&& next.job is None
            },
            Input::Outcome(outcome) => exists|sent: bool|
                {
                    let call = #[trigger] outcome.call(sent, today as nat, phase.dispatches());
                    &&& old(state)@.settles(call, *cfg, final(state)@, opt_job(next.job))
                    &&& C::keeps_log() ==> final(client).handed() == old(client).handed() + old(
                        state,
                    )@.sends_after(call, *cfg)
                    &&& C::keeps_log() ==> sent == outcome.is_accepted(*old(client))
                },
            Input::Closed | Input::Shutdown => {
                &&& final(state)@ == old(state)@
                &&& C::keeps_log() ==> final(client).handed() == old(client).handed()
                &&& next.job is None
            },
        },
{
    let mut next_phase: Phase = phase;
    let job: Option<Job> = match input {
        Input::Event(event) => match phase {
            Phase::Serving => handle_event(event, state, client, cfg, now, today),
            _ => None,
        },
        Input::Outcome(outcome) => {
            let dispatch_next: bool = match phase {
                Phase::Draining => false,
                _ => true,
            };
            assert(dispatch_next == phase.dispatches());
            handle_outcome(outcome, state, client, cfg, today, dispatch_next)
        },
        Input::Closed => {
            if let Phase::Serving = phase {
                next_phase = Phase::Closing;
            }
            None
        },
        Input::Shutdown => {
            next_phase = Phase::Draining;
            None
        },
    };
    let ending: bool = match next_phase {
        Phase::Serving => false,
        _ => true,
    };
    let finished: bool = ending && state.convos.in_flight_count() == 0;
    Step { phase: next_phase, job, finished }
}

/// What the operator is told from time to time.
#[derive(Debug, Clone, Copy)]
pub struct Report {
    pub stats: Stats,
    /// Conversations demoted since start.
    pub evictions: u64,
    /// Conversations in the active tier.
    pub active: usize,
    /// Replies counted today.
    pub messages_today: u32,
    /// Tokens counted today.
    pub tokens_today: u64,
}

impl BotState {
    /// What to tell the operator on the day `today`.
    pub fn report(&self, today: u64) -> (report: Report)
        requires
            self.wf(),
        ensures
            report.stats == self@.stats,
            report.evictions == self@.convos.demotions,
            report.active == self@.convos.active.dom().len(),
            report.messages_today == self@.budget.on(today as nat).messages,
            report.tokens_today == self@.budget.on(today as nat).tokens,
    {
        let budget: DailyBudget = self.budget.seen_on(today);
        Report {
            stats: self.stats,
            evictions: self.convos.demotion_count(),
            active: self.convos.active_len(),
            messages_today: budget.messages(),
            tokens_today: budget.tokens(),
        }
    }
}

/// A message in a conversation that is known to be ignored is met with nothing:
/// no greeting, no reply, no LLM call, nothing spent and nothing remembered.
pub proof fn law_ignored_conversation_is_left_alone(
    before: BotView,
    after: BotView,
    event: Event,
    cfg: Config,
    now: nat,
    today: nat,
)
    requires
        event is MessageReceived,
        before.convos.class_of(event->MessageReceived_convo_id@) == Some(true),
        course(before, event, cfg, now, today).leads(before, after),
    ensures
        course(before, event, cfg, now, today).sends().len() == 0,
        course(before, event, cfg, now, today).job() is None,
        after.convos == before.convos,
        after.budget == before.budget,
{
}

/// With `ignore_groups` set, the start of a group is met with nothing, and the
/// group is known to be ignored from then on.
pub proof fn law_groups_are_ignored_when_asked(
    before: BotView,
    after: BotView,
    event: Event,
    cfg: Config,
    now: nat,
    today: nat,
)
    requires
        cfg.behavior.ignore_groups,
        event is ConversationStarted,
        event->class == ConversationClass::Group,
        course(before, event, cfg, now, today).leads(before, after),
    ensures
        course(before, event, cfg, now, today).sends().len() == 0,
        course(before, event, cfg, now, today).job() is None,
        after.convos.class_of(event->ConversationStarted_convo_id@) == Some(true),
{
}

/// A private conversation is never ignored, and no conversation is without
/// `ignore_groups`.
pub proof fn law_others_are_not_ignored(
    before: BotView,
    after: BotView,
    event: Event,
    cfg: Config,
    now: nat,
    today: nat,
)
    requires
        event is ConversationStarted,
        event->class == ConversationClass::Private || !cfg.behavior.ignore_groups,
        course(before, event, cfg, now, today).leads(before, after),
    ensures
        after.convos.class_of(event->ConversationStarted_convo_id@) == Some(false),
{
}

/// Within a conversation one LLM call is made at a time: an event leads to a
/// call only where none is in flight, and then one is.
pub proof fn law_one_call_at_a_time(
    before: BotView,
    after: BotView,
    event: Event,
    cfg: Config,
    now: nat,
    today: nat,
)
    requires
        course(before, event, cfg, now, today).leads(before, after),
        course(before, event, cfg, now, today).job() is Some,
    ensures
        ({
            let id = course(before, event, cfg, now, today).job()->0.convo_id;
            !before.awaits(id) && after.awaits(id)
        }),
{
}

/// A finished call leads to another only for the same conversation, where that
/// one is then in flight.
pub proof fn law_next_call_is_for_the_same_conversation(
    before: BotView,
    call: Finished,
    cfg: Config,
)
    requires
        before.job_after(call, cfg) is Some,
    ensures
        before.job_after(call, cfg)->0.convo_id == call.id,
        before.awaits(call.id),
        before.after_call(call, cfg).awaits(call.id),
{
}

/// A reply in progress always finds its state: whatever event comes in, and
/// whatever other call finishes, a message that is being answered still is.
pub proof fn law_reply_in_progress_is_kept(
    before: BotView,
    after: BotView,
    id: Seq<char>,
    event: Event,
    call: Finished,
    cfg: Config,
    now: nat,
    today: nat,
)
    requires
        before.awaits(id),
        call.id != id,
    ensures
        course(before, event, cfg, now, today).leads(before, after) ==> after.awaits(id)
            && after.convos.active[id].in_flight == before.convos.active[id].in_flight,
        before.after_call(call, cfg).awaits(id),
        before.after_call(call, cfg).convos.active[id] == before.convos.active[id],
{
}

/// What an event comes to depends on its own conversation and the budget alone:
/// calls in flight, queues and mutes elsewhere change nothing.
pub proof fn law_conversations_do_not_block_each_other(
    one: BotView,
    another: BotView,
    event: Event,
    cfg: Config,
    now: nat,
    today: nat,
)
    requires
        one.budget == another.budget,
        event is ConversationStarted ==> one.convos.state_at(
            event->ConversationStarted_convo_id@,
            now,
        ) == another.convos.state_at(event->ConversationStarted_convo_id@, now),
        event is MessageReceived ==> one.convos.state_at(event->MessageReceived_convo_id@, now)
            == another.convos.state_at(event->MessageReceived_convo_id@, now),
        event is MessageReceived ==> one.convos.class_of(event->MessageReceived_convo_id@)
            == another.convos.class_of(event->MessageReceived_convo_id@),
    ensures
        course(one, event, cfg, now, today) == course(another, event, cfg, now, today),
{
}

/// A failed call stays between the bot and its operator: the history keeps no
/// unanswered turn, nothing is spent, and nothing is sent but, if messages wait
/// and today's budget is spent, the word that it is.
pub proof fn law_failed_call_leaves_no_trace(before: BotView, call: Finished, cfg: Config)
    requires
        call.result is Err,
        before.awaits(call.id),
    ensures
        before.after_call(call, cfg).convos.active[call.id].history
            == before.convos.active[call.id].history,
        before.after_call(call, cfg).budget == before.budget || before.after_call(call, cfg).budget
            == before.budget.on(call.today),
        before.sends_after(call, cfg).len() > 0 ==> before.convos.active[call.id].pending.len() > 0
            && before.budget.on(call.today).is_exhausted(cfg.limits),
        before.sends_after(call, cfg).len() > 0 ==> before.sends_after(call, cfg) == seq![
            (call.id, vstd::utf8::encode_utf8(crate::limits::daily_limit_text())),
        ],
{
    if before.sends_after(call, cfg).len() > 0 {
        assert(before.sends_after(call, cfg) =~= seq![
            (call.id, vstd::utf8::encode_utf8(crate::limits::daily_limit_text())),
        ]);
    }
}

/// A reply counts against the budget only if it could be sent; it then counts
/// once, with the tokens that it took.
pub proof fn law_only_sent_replies_are_spent(before: BotView, call: Finished, cfg: Config)
    requires
        before.awaits(call.id),
    ensures
        !call.sent ==> before.after_call(call, cfg).budget.on(call.today) == before.budget.on(
            call.today,
        ),
        call.sent && call.result is Ok && !before.convos.active[call.id].ignored
            ==> before.after_call(call, cfg).budget == before.budget.with_reply(
            call.today,
            match call.result->Ok_0.tokens_used {
                Some(tokens) => tokens as nat,
                None => 0,
            },
        ),
{
}

/// No event spends anything: denied, dropped and queued messages, greetings and
/// the start of a call leave the budget as it is, seen on today's date at most.
pub proof fn law_events_spend_nothing(
    before: BotView,
    after: BotView,
    event: Event,
    cfg: Config,
    now: nat,
    today: nat,
)
    requires
        course(before, event, cfg, now, today).leads(before, after),
    ensures
        after.budget == before.budget || after.budget == before.budget.on(today),
{
}

/// Once today's budget is spent, no event leads to an LLM call.
pub proof fn law_spent_budget_starts_nothing(
    before: BotView,
    event: Event,
    cfg: Config,
    now: nat,
    today: nat,
)
    requires
        before.budget.on(today).is_exhausted(cfg.limits),
    ensures
        course(before, event, cfg, now, today).job() is None,
{
}

/// Once today's budget is spent, be it by the reply itself, no finished call
/// leads to another; what waited is refused, and nothing waits any longer.
pub proof fn law_spent_budget_starts_no_next_call(before: BotView, call: Finished, cfg: Config)
    requires
        before.after_call(call, cfg).budget.on(call.today).is_exhausted(cfg.limits),
    ensures
        before.job_after(call, cfg) is None,
        before.awaits(call.id) && call.dispatch_next ==> before.after_call(
            call,
            cfg,
        ).convos.active[call.id].is_idle(),
{
}

/// Nothing more is said in a conversation that is ignored by the time a call
/// finishes: no reply, no next call, and nothing waits any longer.
pub proof fn law_ignored_conversation_is_not_answered(
    convo: ConvoView,
    budget: BudgetView,
    text: Seq<char>,
    call: Finished,
    cfg: Config,
)
    ensures
        convo.ignored ==> on_outcome(convo, budget, text, call, cfg).sends.len() == 0
            && on_outcome(convo, budget, text, call, cfg).context is None && on_outcome(
            convo,
            budget,
            text,
            call,
            cfg,
        ).convo.is_idle(),
{
}

/// The turns of a call alternate between the peer and the model, from the peer's
/// first to the message to be answered.
pub proof fn law_context_alternates(convo: ConvoView, text: Seq<char>)
    requires
        in_order(convo),
    ensures
        ({
            let context = context_for(convo.history, text);
            &&& in_turn(context)
            &&& context.len() % 2 == 1
            &&& context[0].role == Role::User
            &&& context.last() == (TurnView { role: Role::User, content: text })
        }),
{
    let history = convo.history;
    let context = context_for(history, text);
    assert forall|i: int| 0 <= i < context.len() implies (#[trigger] context[i]).role == (if i % 2
        == 0 {
        Role::User
    } else {
        Role::Assistant
    }) by {
        if i < history.len() {
            assert(context[i] == history[i]);
        }
    }
    assert(context[0].role == Role::User);
}

/// The history stays bounded: after a reply it holds at most `history_turns`
/// exchanges, and if it may hold any, the reply is its last turn.
pub proof fn law_history_is_bounded(
    convo: ConvoView,
    budget: BudgetView,
    text: Seq<char>,
    call: Finished,
    cfg: Config,
)
    requires
        !convo.ignored,
        call.result is Ok,
    ensures
        ({
            let after = on_outcome(convo, budget, text, call, cfg).convo.history;
            &&& after.len() <= 2 * cfg.behavior.history_turns
            &&& cfg.behavior.history_turns > 0 ==> after.last() == (TurnView {
                role: Role::Assistant,
                content: call.result->Ok_0.text,
            })
        }),
{
}

/// The drain ends: while the bot shuts down, each awaited call that finishes
/// leaves one fewer in flight and starts none.
pub proof fn law_drain_makes_progress(before: BotView, call: Finished, cfg: Config)
    requires
        before.convos.active.dom().finite(),
        before.awaits(call.id),
        !call.dispatch_next,
    ensures
        before.job_after(call, cfg) is None,
        before.after_call(call, cfg).convos.in_flight_ids().len()
            == before.convos.in_flight_ids().len() - 1,
{
    let after = before.after_call(call, cfg);
    assert(after.convos.in_flight_ids() =~= before.convos.in_flight_ids().remove(call.id));
    assert(before.convos.in_flight_ids().contains(call.id));
}

/// Something that happens to one conversation while the bot serves it, with the
/// budget as it stands then.
pub enum Happening {
    Message { text: Seq<char>, budget: BudgetView, now: nat, today: nat },
    Reply { result: Result<CompletionView, LlmError>, sent: bool, budget: BudgetView, today: nat },
}

/// What a finished call for a message in flight comes to while the bot serves.
pub open spec fn served(
    convo: ConvoView,
    result: Result<CompletionView, LlmError>,
    sent: bool,
    budget: BudgetView,
    today: nat,
    cfg: Config,
) -> Settlement {
    on_outcome(
        convo,
        budget,
        convo.in_flight->0,
        Finished { id: Seq::empty(), result, sent, today, dispatch_next: true },
        cfg,
    )
}

/// A conversation after all that has happened to it since it was idle.
pub open spec fn convo_after(start: ConvoView, trace: Seq<Happening>, cfg: Config) -> ConvoView
    decreases trace.len(),
{
    if trace.len() == 0 {
        start
    } else {
        let convo = convo_after(start, trace.drop_last(), cfg);
        match trace.last() {
            Happening::Message { text, budget, now, today } => on_message(
                convo,
                budget,
                text,
                now,
                today,
                cfg,
            ).convo,
            Happening::Reply { result, sent, budget, today } => if convo.in_flight is Some {
                served(convo, result, sent, budget, today, cfg).convo
            } else {
                convo
            },
        }
    }
}

/// The messages taken on, in the order of arrival: those neither denied nor
/// dropped when they came in, nor refused while they waited.
pub open spec fn taken_on(start: ConvoView, trace: Seq<Happening>, cfg: Config) -> Seq<Seq<char>>
    decreases trace.len(),
{
    if trace.len() == 0 {
        Seq::empty()
    } else {
        let before = taken_on(start, trace.drop_last(), cfg);
        let convo = convo_after(start, trace.drop_last(), cfg);
        match trace.last() {
            Happening::Message { text, budget, now, today } => {
                let reaction = on_message(convo, budget, text, now, today, cfg);
                if reaction.denied || reaction.dropped {
                    before
                } else {
                    before.push(text)
                }
            },
            Happening::Reply { result, sent, budget, today } => if convo.in_flight is Some
                && served(convo, result, sent, budget, today, cfg).context is None {
                before.take(before.len() - convo.pending.len())
            } else {
                before
            },
        }
    }
}

/// The messages put to the model, in the order of the calls.
pub open spec fn put_to_model(start: ConvoView, trace: Seq<Happening>, cfg: Config) -> Seq<Seq<char>>
    decreases trace.len(),
{
    if trace.len() == 0 {
        Seq::empty()
    } else {
        let before = put_to_model(start, trace.drop_last(), cfg);
        let convo = convo_after(start, trace.drop_last(), cfg);
        match trace.last() {
            Happening::Message { text, budget, now, today } => match on_message(
                convo,
                budget,
                text,
                now,
                today,
                cfg,
            ).context {
                Some(context) => before.push(context.last().content),
                None => before,
            },
            Happening::Reply { result, sent, budget, today } => if convo.in_flight is Some {
                match served(convo, result, sent, budget, today, cfg).context {
                    Some(context) => before.push(context.last().content),
                    None => before,
                }
            } else {
                before
            },
        }
    }
}

/// Messages are answered in the order of arrival and none is lost: those put to
/// the model so far, and then those that wait, are exactly those taken on. No
/// message waits unless another is being answered.
pub proof fn law_messages_are_answered_in_order(
    start: ConvoView,
    trace: Seq<Happening>,
    cfg: Config,
)
    requires
        start.is_idle(),
    ensures
        taken_on(start, trace, cfg) == put_to_model(start, trace, cfg) + convo_after(
            start,
            trace,
            cfg,
        ).pending,
        convo_after(start, trace, cfg).pending.len() > 0 ==> convo_after(
            start,
            trace,
            cfg,
        ).in_flight is Some,
        convo_after(start, trace, cfg).pending.len() <= PENDING_CAP,
    decreases trace.len(),
{
    if trace.len() > 0 {
        let earlier = trace.drop_last();
        law_messages_are_answered_in_order(start, earlier, cfg);
        let convo = convo_after(start, earlier, cfg);
        let put = put_to_model(start, earlier, cfg);
        match trace.last() {
            Happening::Message { text, budget, now, today } => {
                let reaction = on_message(convo, budget, text, now, today, cfg);
                if let Some(context) = reaction.context {
                    assert(put + convo.pending =~= put);
                    assert(put.push(text) =~= put.push(text) + convo.pending);
                } else {
                    assert((put + convo.pending).push(text) =~= put + convo.pending.push(text));
                }
            },
            Happening::Reply { result, sent, budget, today } => {
                if convo.in_flight is Some {
                    if served(convo, result, sent, budget, today, cfg).context is Some {
                        assert(put + convo.pending =~= put.push(convo.pending[0])
                            + convo.pending.drop_first());
                    } else {
                        assert((put + convo.pending).take(put.len() as int) =~= put);
                        assert(put + Seq::<Seq<char>>::empty() =~= put);
                    }
                }
            },
        }
    }
}

/// A job, an outcome and a message on its way are seen whole.
pub proof fn law_jobs_and_outcomes_are_seen_whole(
    job: Job,
    i: int,
    outcome: Outcome,
    sent: bool,
    today: nat,
    dispatch_next: bool,
    message: Outgoing,
)
    ensures
        job@.convo_id == job.convo_id@,
        job@.context.len() == job.context@.len(),
        0 <= i < job.context@.len() ==> job@.context[i].role == job.context@[i].role
            && job@.context[i].content == job.context@[i].content@,
        opt_job(Some(job)) == Some(job@),
        opt_job(None) is None,
        outcome.call(sent, today, dispatch_next).id == outcome.convo_id@,
        outcome.call(sent, today, dispatch_next).sent == sent,
        outcome.call(sent, today, dispatch_next).today == today,
        outcome.call(sent, today, dispatch_next).dispatch_next == dispatch_next,
        outcome.result is Ok <==> outcome.call(sent, today, dispatch_next).result is Ok,
        outcome.result is Ok ==> outcome.call(sent, today, dispatch_next).result->Ok_0.text
            == outcome.result->Ok_0.text@ && outcome.call(
            sent,
            today,
            dispatch_next,
        ).result->Ok_0.tokens_used == outcome.result->Ok_0.tokens_used,
        outcome.result is Err ==> outcome.call(sent, today, dispatch_next).result->Err_0
            == outcome.result->Err_0,
        message@ == (message.convo_id@, message.bytes@),
{
}

/// The state of the bot is seen whole. One that has seen nothing has no
/// conversation, remembers none, and has counted nothing.
proof fn law_bot_is_seen_whole(state: BotState, max_active: nat, max_known: nat, budget: BudgetView)
    ensures
        state@.convos == state.convos@,
        state@.budget == state.budget@,
        state@.stats == state.stats,
        ({
            let idle = idle_bot(max_active, max_known, budget);
            &&& forall|id: Seq<char>| !#[trigger] idle.convos.active.contains_key(id)
            &&& idle.convos.known.len() == 0
            &&& idle.convos.max_active == max_active
            &&& idle.convos.max_known == max_known
            &&& idle.convos.demotions == 0
            &&& idle.budget == budget
            &&& idle.stats.events == 0
            &&& idle.stats.replies == 0
            &&& idle.stats.denies == 0
            &&& idle.stats.drops == 0
            &&& idle.stats.llm_failures == 0
        }),
{
}

/// An outbox accounts for every message it holds, in order and whole, and takes
/// any.
proof fn law_outbox_accounts_for_everything(
    outbox: Outbox,
    i: int,
    convo_id: Seq<char>,
    bytes: Seq<u8>,
)
    ensures
        Outbox::keeps_log(),
        outbox.accepts(convo_id, bytes),
        outbox.handed().len() == outbox.messages@.len(),
        0 <= i < outbox.messages@.len() ==> outbox.handed()[i] == (
            outbox.messages@[i].convo_id@,
            outbox.messages@[i].bytes@,
        ),
{
}

/// Whether a reply can be sent is told by the client as it is, of the whole reply
/// and its own conversation.
pub proof fn law_reply_is_accepted_by_its_client<C: SendMessage>(outcome: Outcome, client: C)
    ensures
        outcome.result is Ok ==> (outcome.is_accepted(client) <==> client.accepts(
            outcome.convo_id@,
            vstd::utf8::encode_utf8(outcome.result->Ok_0.text@),
        )),
{
}

/// A finished call leaves nothing open: it leads to one state and at most one
/// next call, those that follow from the state before.
pub proof fn law_finished_call_leaves_nothing_open(
    before: BotView,
    call: Finished,
    cfg: Config,
    one: BotView,
    one_job: Option<JobView>,
    other: BotView,
    other_job: Option<JobView>,
)
    requires
        before.settles(call, cfg, one, one_job),
        before.settles(call, cfg, other, other_job),
    ensures
        one == other,
        one_job == other_job,
        one == before.after_call(call, cfg),
        one_job == before.job_after(call, cfg),
{
}

} // verus!
