//! What holds of the bot over everything that happens to it: any number of events
//! and finished LLM calls, in any order.
//!
//! A run is the states that the bot goes through, and what happens between one
//! and the next: [`crate::bot::handle_event`] and
//! [`crate::bot::handle_outcome`] each take one step of it.
use vstd::prelude::*;

use crate::bot::{BotView, ConversationClass, Course, Event, Finished, JobView, PENDING_CAP};
use crate::config::Config;
use crate::limits::{Arrival, LimiterView};
use crate::llm::{Role, TurnView};

verus! {

/// Something that happens to the bot.
pub enum Occurrence {
    /// An event comes in at `now` on the day `today`.
    Event { event: Event, now: nat, today: nat },
    /// An LLM call finishes.
    Call(Finished),
}

impl Occurrence {
    /// The day on which this happens.
    pub open spec fn day(self) -> nat {
        match self {
            Occurrence::Event { today, .. } => today,
            Occurrence::Call(call) => call.today,
        }
    }

    /// Whether this is text from the peer of the conversation `id`.
    pub open spec fn is_message(self, id: Seq<char>, text: Seq<char>) -> bool {
        match self {
            Occurrence::Event { event: Event::MessageReceived { convo_id, content }, .. } => {
                &&& convo_id@ == id
                &&& vstd::utf8::valid_utf8(content@)
                &&& vstd::utf8::decode_utf8(content@) == text
            },
            _ => false,
        }
    }

    /// Whether this is the start of the conversation `id`.
    pub open spec fn is_start(self, id: Seq<char>) -> bool {
        match self {
            Occurrence::Event { event: Event::ConversationStarted { convo_id, .. }, .. } => convo_id@
                == id,
            _ => false,
        }
    }

    /// Whether this is the start of the conversation `id`, as a group.
    pub open spec fn is_group_start(self, id: Seq<char>) -> bool {
        match self {
            Occurrence::Event {
                event: Event::ConversationStarted { convo_id, class },
                ..
            } => convo_id@ == id && class == ConversationClass::Group,
            _ => false,
        }
    }
}

impl BotView {
    /// Whether something that happens leads from this state to another.
    pub open spec fn undergoes(self, what: Occurrence, cfg: Config, after: BotView) -> bool {
        match what {
            Occurrence::Event { event, now, today } => crate::bot::course(self, event, cfg, now, today).leads(
                self,
                after,
            ),
            Occurrence::Call(call) => after == self.after_call(call, cfg),
        }
    }

    /// What is sent on something that happens, and to which conversation.
    pub open spec fn sends_on(self, what: Occurrence, cfg: Config) -> Seq<(Seq<char>, Seq<u8>)> {
        match what {
            Occurrence::Event { event, now, today } => crate::bot::course(
                self,
                event,
                cfg,
                now,
                today,
            ).sends(),
            Occurrence::Call(call) => self.sends_after(call, cfg),
        }
    }

    /// The LLM call to make on something that happens, if one is to be made.
    pub open spec fn job_on(self, what: Occurrence, cfg: Config) -> Option<JobView> {
        match what {
            Occurrence::Event { event, now, today } => crate::bot::course(self, event, cfg, now, today).job(),
            Occurrence::Call(call) => self.job_after(call, cfg),
        }
    }

    /// Whether something that happens sends anything to the conversation `id`.
    pub open spec fn addresses(self, what: Occurrence, cfg: Config, id: Seq<char>) -> bool {
        exists|i: int|
            0 <= i < self.sends_on(what, cfg).len() && (#[trigger] self.sends_on(what, cfg)[i]).0
                == id
    }

    /// Whether a greeting is sent to `id` on something that happens.
    pub open spec fn greets(self, what: Occurrence, cfg: Config, id: Seq<char>) -> bool {
        match what {
            Occurrence::Event { event, now, .. } => match event {
                Event::ConversationStarted { convo_id, class } => {
                    &&& convo_id@ == id
                    &&& !(cfg.behavior.ignore_groups && class != ConversationClass::Private)
                    &&& crate::bot::greeting_due(self.convos.state_at(id, now), cfg.behavior).len() > 0
                },
                Event::MessageReceived { convo_id, content } => {
                    &&& convo_id@ == id
                    &&& vstd::utf8::valid_utf8(content@)
                    &&& self.convos.class_of(id) != Some(true)
                    &&& crate::bot::greeting_due(self.convos.state_at(id, now), cfg.behavior).len() > 0
                },
                _ => false,
            },
            Occurrence::Call(_) => false,
        }
    }

    /// Whether a message in `id` that comes in now is let through.
    pub open spec fn lets_through(
        self,
        id: Seq<char>,
        what: Occurrence,
        cfg: Config,
    ) -> bool {
        match what {
            Occurrence::Event { now, today, .. } => crate::limits::admitted(
                self.convos.state_at(id, now).limiter,
                self.budget,
                now,
                today,
                cfg.limits,
            ).verdict is Allow,
            Occurrence::Call(_) => false,
        }
    }

    /// What holds of a bot that started idle, whatever has happened since: its
    /// store is in order, histories are made of at most `history_turns` whole
    /// exchanges, and whoever is known counts as greeted.
    pub open spec fn sound(self, cfg: Config) -> bool {
        &&& self.convos.inv()
        &&& forall|id: Seq<char>| #[trigger]
            self.convos.active.contains_key(id) ==> {
                let convo = self.convos.active[id];
                &&& crate::bot::in_order(convo)
                &&& convo.history.len() <= 2 * cfg.behavior.history_turns
                &&& convo.greeted
            }
        &&& forall|i: int|
            0 <= i < self.convos.known.len() ==> (#[trigger] self.convos.known[i]).1.greeted
    }
}

/// Whether the bot goes through `states` as all of `happened` happens, in order.
pub open spec fn is_run(states: Seq<BotView>, happened: Seq<Occurrence>, cfg: Config) -> bool {
    &&& states.len() == happened.len() + 1
    &&& forall|k: int|
        0 <= k < happened.len() ==> states[k].undergoes(#[trigger] happened[k], cfg, states[k + 1])
}

/// Whether a run starts with a bot that has seen nothing, with any budget.
pub open spec fn starts_idle(states: Seq<BotView>, cfg: Config) -> bool {
    states.len() > 0 && states[0] == crate::bot::idle_bot(
        cfg.limits.max_active_conversations as nat,
        cfg.limits.max_known_conversations as nat,
        states[0].budget,
    )
}

/// Reading what is remembered of a known conversation: it counts as greeted.
proof fn lemma_known_are_greeted(state: BotView, cfg: Config, id: Seq<char>, now: nat)
    requires
        state.sound(cfg),
        state.convos.class_of(id) is Some,
    ensures
        state.convos.state_at(id, now).greeted,
{
    if !state.convos.active.contains_key(id) {
        crate::convos::lemma_skeleton_comes_from(state.convos.known, id);
    }
}

/// What happens to a sound bot leaves it sound.
proof fn lemma_stays_sound(before: BotView, what: Occurrence, cfg: Config, after: BotView)
    requires
        before.sound(cfg),
        before.undergoes(what, cfg, after),
    ensures
        after.sound(cfg),
        after.convos.max_active == before.convos.max_active,
        after.convos.max_known == before.convos.max_known,
{
    match what {
        Occurrence::Event { event, now, today } => {
            match crate::bot::course(before, event, cfg, now, today) {
                Course::Untouched { .. } => {},
                Course::Engaged { id, reaction } => {
                    crate::convos::law_tiers_stay_bounded(before.convos, id, after.convos);
                    assert(crate::bot::in_order(reaction.convo));
                    assert forall|other: Seq<char>| #[trigger]
                        after.convos.active.contains_key(other) implies ({
                        let convo = after.convos.active[other];
                        &&& crate::bot::in_order(convo)
                        &&& convo.history.len() <= 2 * cfg.behavior.history_turns
                        &&& convo.greeted
                    }) by {
                        if other != id {
                            assert(before.convos.active.contains_key(other));
                        }
                    }
                    assert forall|i: int| 0 <= i < after.convos.known.len() implies (
                    #[trigger] after.convos.known[i]).1.greeted by {
                        crate::convos::lemma_known_come_from(before.convos, id, after.convos, i);
                        if before.convos.known.contains(after.convos.known[i]) {
                            let j = choose|j: int|
                                0 <= j < before.convos.known.len() && before.convos.known[j]
                                    == after.convos.known[i];
                            assert(before.convos.known[j].1.greeted);
                        }
                    }
                },
            }
        },
        Occurrence::Call(call) => {
            if before.awaits(call.id) {
                crate::bot::lemma_settled_in_order(
                    before.convos.active[call.id],
                    before.budget,
                    before.convos.active[call.id].in_flight->0,
                    call,
                    cfg,
                );
                assert(after.convos.active.dom() =~= before.convos.active.dom());
            }
        },
    }
}

/// Every state of a run that starts idle is sound.
proof fn lemma_run_is_sound(states: Seq<BotView>, happened: Seq<Occurrence>, cfg: Config, n: int)
    requires
        is_run(states, happened, cfg),
        starts_idle(states, cfg),
        0 <= n < states.len(),
    ensures
        states[n].sound(cfg),
        states[n].convos.max_active == cfg.limits.max_active_conversations,
        states[n].convos.max_known == cfg.limits.max_known_conversations,
    decreases n,
{
    if n > 0 {
        lemma_run_is_sound(states, happened, cfg, n - 1);
        assert(states[n - 1].undergoes(happened[n - 1], cfg, states[n]));
        lemma_stays_sound(states[n - 1], happened[n - 1], cfg, states[n]);
    }
}

/// Whatever has happened since the bot started idle, every history is made of
/// whole exchanges, the peer's turn first, and of no more than `history_turns`;
/// so every LLM call is given turns that alternate, at most one more than two
/// for each exchange, from a turn of the peer to the message now answered, which
/// is then in flight.
pub proof fn law_histories_stay_in_turn(
    states: Seq<BotView>,
    happened: Seq<Occurrence>,
    cfg: Config,
    n: int,
    id: Seq<char>,
)
    requires
        is_run(states, happened, cfg),
        starts_idle(states, cfg),
        0 <= n < states.len(),
    ensures
        states[n].convos.active.contains_key(id) ==> {
            let history = states[n].convos.active[id].history;
            &&& history.len() % 2 == 0
            &&& history.len() <= 2 * cfg.behavior.history_turns
            &&& crate::bot::in_turn(history)
        },
        n < happened.len() && states[n].job_on(happened[n], cfg) is Some ==> {
            let job = states[n].job_on(happened[n], cfg)->0;
            &&& job.context.len() % 2 == 1
            &&& job.context.len() <= 2 * cfg.behavior.history_turns + 1
            &&& crate::bot::in_turn(job.context)
            &&& job.context[0].role == Role::User
            &&& job.context.last().role == Role::User
            &&& states[n + 1].convos.active.contains_key(job.convo_id)
            &&& states[n + 1].convos.active[job.convo_id].in_flight == Some(
                job.context.last().content,
            )
        },
{
    lemma_run_is_sound(states, happened, cfg, n);
    if n < happened.len() && states[n].job_on(happened[n], cfg) is Some {
        let job = states[n].job_on(happened[n], cfg)->0;
        assert(states[n].undergoes(happened[n], cfg, states[n + 1]));
        lemma_run_is_sound(states, happened, cfg, n + 1);
        let convo = states[n + 1].convos.active[job.convo_id];
        assert(states[n + 1].convos.active.contains_key(job.convo_id));
        assert(job.context == crate::bot::context_for(convo.history, convo.in_flight->0));
        crate::bot::law_context_alternates(convo, convo.in_flight->0);
    }
}

/// A flood of identities cannot grow the bot's memory without limit, however
/// long it lasts: while never more than `busy` conversations have a message in
/// progress at once, no more keep their full state than `max_active_conversations`
/// (or one more than are busy, where that is more), and no more than
/// `max_known_conversations` are remembered besides, by two bits each.
pub proof fn law_memory_stays_bounded(
    states: Seq<BotView>,
    happened: Seq<Occurrence>,
    cfg: Config,
    busy: nat,
    n: int,
)
    requires
        is_run(states, happened, cfg),
        starts_idle(states, cfg),
        forall|k: int| 0 <= k < n ==> (#[trigger] states[k]).convos.busy_ids().len() <= busy,
        0 <= n < states.len(),
    ensures
        states[n].convos.active.dom().len() <= crate::convos::most_active(
            cfg.limits.max_active_conversations as nat,
            busy,
        ),
        states[n].convos.known.len() <= cfg.limits.max_known_conversations,
{
    let stores = states.map_values(|state: BotView| state.convos);
    lemma_run_is_sound(states, happened, cfg, 0);
    assert forall|k: int| 0 <= k < stores.len() - 1 implies #[trigger] crate::convos::develops_at(
        stores,
        k,
    ) by {
        assert(states[k].undergoes(happened[k], cfg, states[k + 1]));
        lemma_occurrence_develops(states[k], happened[k], cfg, states[k + 1]);
    }
    assert forall|k: int| 0 <= k < n implies (#[trigger] stores[k]).busy_ids().len() <= busy by {
        assert(stores[k] == states[k].convos);
    }
    assert(stores[0].active.dom() =~= Set::empty());
    crate::convos::law_flood_stays_within_the_caps(stores, busy, n);
}

/// Whatever happens to the bot, one thing at most happens to its store.
proof fn lemma_occurrence_develops(before: BotView, what: Occurrence, cfg: Config, after: BotView)
    requires
        before.undergoes(what, cfg, after),
    ensures
        before.convos.develops(after.convos),
{
    match what {
        Occurrence::Event { event, now, today } => {
            if let Course::Engaged { id, reaction } = crate::bot::course(before, event, cfg, now, today) {
                assert(before.convos.brings_in(id, after.convos));
            }
        },
        Occurrence::Call(call) => {
            if before.awaits(call.id) {
                assert(after.convos.active.dom() =~= before.convos.active.dom());
            }
        },
    }
}

/// After an event at most one more call is in flight, and that only if the event
/// leads to a call.
proof fn lemma_calls_after_event(
    before: BotView,
    event: Event,
    now: nat,
    today: nat,
    cfg: Config,
    after: BotView,
)
    requires
        before.sound(cfg),
        before.undergoes(Occurrence::Event { event, now, today }, cfg, after),
    ensures
        after.convos.in_flight_ids().len() <= before.convos.in_flight_ids().len()
            + crate::bot::once_if(
            crate::bot::course(before, event, cfg, now, today).job() is Some,
        ),
{
    let taken = crate::bot::course(before, event, cfg, now, today);
    let flying = before.convos.in_flight_ids();
    if let Course::Engaged { id, reaction } = taken {
        if taken.job() is Some {
            assert(after.convos.in_flight_ids().subset_of(flying.insert(id)));
            vstd::set_lib::lemma_len_subset(after.convos.in_flight_ids(), flying.insert(id));
        } else {
            assert(after.convos.in_flight_ids().subset_of(flying));
            vstd::set_lib::lemma_len_subset(after.convos.in_flight_ids(), flying);
        }
    }
}

/// What a finished call leaves of the calls in flight: the one that was awaited
/// ends, and the next for the same conversation starts if there is one.
proof fn lemma_calls_after_call(before: BotView, call: Finished, cfg: Config)
    requires
        before.sound(cfg),
        before.awaits(call.id),
    ensures
        before.after_call(call, cfg).convos.in_flight_ids().len()
            == before.convos.in_flight_ids().len() - 1 + crate::bot::once_if(
            before.job_after(call, cfg) is Some,
        ),
{
    let flying = before.convos.in_flight_ids();
    let after = before.after_call(call, cfg).convos.in_flight_ids();
    assert(flying.contains(call.id));
    if before.job_after(call, cfg) is Some {
        assert(after =~= flying);
    } else {
        assert(after =~= flying.remove(call.id));
    }
}

/// The daily budget bounds a day's replies, whatever happens on that day: those
/// counted, and those that the calls in flight may still come to, are no more
/// than the cap and one fewer than are in flight at most. Where no two calls are
/// ever in flight at once, the cap itself holds.
pub proof fn law_daily_replies_are_bounded(
    states: Seq<BotView>,
    happened: Seq<Occurrence>,
    cfg: Config,
    today: nat,
    busy: nat,
    n: int,
)
    requires
        is_run(states, happened, cfg),
        starts_idle(states, cfg),
        states[0].budget.on(today).messages <= cfg.limits.daily_max_messages,
        forall|k: int| 0 <= k < happened.len() ==> (#[trigger] happened[k]).day() == today,
        forall|k: int| 0 <= k <= n ==> (#[trigger] states[k]).convos.in_flight_ids().len() <= busy,
        busy >= 1,
        0 <= n < states.len(),
    ensures
        states[n].budget.on(today).messages + states[n].convos.in_flight_ids().len()
            <= cfg.limits.daily_max_messages + busy - 1,
    decreases n,
{
    if n == 0 {
        assert(states[0].convos.in_flight_ids() =~= Set::empty());
    } else {
        let before = states[n - 1];
        let after = states[n];
        law_daily_replies_are_bounded(states, happened, cfg, today, busy, n - 1);
        lemma_run_is_sound(states, happened, cfg, n - 1);
        assert(before.undergoes(happened[n - 1], cfg, after));
        assert(happened[n - 1].day() == today);
        match happened[n - 1] {
            Occurrence::Event { event, now, .. } => {
                lemma_calls_after_event(before, event, now, today, cfg, after);
                crate::bot::law_events_spend_nothing(before, after, event, cfg, now, today);
                if before.budget.on(today).is_exhausted(cfg.limits) {
                    crate::bot::law_spent_budget_starts_nothing(before, event, cfg, now, today);
                }
            },
            Occurrence::Call(call) => {
                if before.awaits(call.id) {
                    lemma_calls_after_call(before, call, cfg);
                    if after.budget.on(today).is_exhausted(cfg.limits) {
                        crate::bot::law_spent_budget_starts_no_next_call(before, call, cfg);
                    }
                }
            },
        }
    }
}

/// Whoever is sent anything is known from then on.
proof fn lemma_addressed_are_known(
    before: BotView,
    what: Occurrence,
    cfg: Config,
    after: BotView,
    id: Seq<char>,
)
    requires
        before.undergoes(what, cfg, after),
        before.addresses(what, cfg, id),
    ensures
        after.convos.class_of(id) is Some,
{
    let i = choose|i: int|
        0 <= i < before.sends_on(what, cfg).len() && (#[trigger] before.sends_on(what, cfg)[i]).0
            == id;
    assert(before.sends_on(what, cfg)[i].0 == id);
}

/// Whether `id`, if it is known at `k`, is not forgotten by what happens then.
pub open spec fn is_not_forgotten(states: Seq<BotView>, id: Seq<char>, k: int) -> bool {
    states[k].convos.class_of(id) is Some ==> states[k + 1].convos.class_of(id) is Some
}

/// Whoever is known stays so while not forgotten.
proof fn lemma_known_from_then_on(states: Seq<BotView>, id: Seq<char>, from: int, to: int)
    requires
        0 <= from <= to < states.len(),
        states[from].convos.class_of(id) is Some,
        forall|k: int| from <= k < to ==> #[trigger] is_not_forgotten(states, id, k),
    ensures
        states[to].convos.class_of(id) is Some,
    decreases to - from,
{
    if from < to {
        lemma_known_from_then_on(states, id, from, to - 1);
        assert(is_not_forgotten(states, id, to - 1));
    }
}

/// A conversation is greeted at most once, before anything else is sent to it,
/// with the configured greeting, and never with an empty one, as long as it is
/// not forgotten, whatever happens.
pub proof fn law_greeted_once_and_first(
    states: Seq<BotView>,
    happened: Seq<Occurrence>,
    cfg: Config,
    id: Seq<char>,
    n: int,
)
    requires
        is_run(states, happened, cfg),
        starts_idle(states, cfg),
        forall|k: int| 0 <= k < happened.len() ==> #[trigger] is_not_forgotten(states, id, k),
        0 <= n < happened.len(),
        states[n].greets(happened[n], cfg, id),
    ensures
        cfg.behavior.greeting@.len() > 0,
        states[n].sends_on(happened[n], cfg).len() > 0,
        states[n].sends_on(happened[n], cfg)[0] == (
            id,
            vstd::utf8::encode_utf8(cfg.behavior.greeting@),
        ),
        forall|k: int|
            0 <= k < n ==> !states[k].addresses(#[trigger] happened[k], cfg, id),
        forall|k: int|
            0 <= k < happened.len() && k != n ==> !states[k].greets(#[trigger] happened[k], cfg, id),
{
    lemma_run_is_sound(states, happened, cfg, n);
    assert(states[n].undergoes(happened[n], cfg, states[n + 1]));
    lemma_greeted_are_new(states[n], happened[n], cfg, states[n + 1], id);
    assert forall|k: int| 0 <= k < n implies !states[k].addresses(
        #[trigger] happened[k],
        cfg,
        id,
    ) by {
        if states[k].addresses(happened[k], cfg, id) {
            assert(states[k].undergoes(happened[k], cfg, states[k + 1]));
            lemma_addressed_are_known(states[k], happened[k], cfg, states[k + 1], id);
            lemma_known_from_then_on(states, id, k + 1, n);
        }
    }
    assert forall|k: int| 0 <= k < happened.len() && k != n implies !states[k].greets(
        #[trigger] happened[k],
        cfg,
        id,
    ) by {
        if states[k].greets(happened[k], cfg, id) {
            lemma_run_is_sound(states, happened, cfg, k);
            assert(states[k].undergoes(happened[k], cfg, states[k + 1]));
            lemma_greeted_are_new(states[k], happened[k], cfg, states[k + 1], id);
            if k < n {
                lemma_known_from_then_on(states, id, k + 1, n);
            } else {
                lemma_known_from_then_on(states, id, n + 1, k);
            }
        }
    }
}

/// Whoever is greeted was not known before, is known afterwards, and is sent the
/// greeting before anything else.
proof fn lemma_greeted_are_new(
    before: BotView,
    what: Occurrence,
    cfg: Config,
    after: BotView,
    id: Seq<char>,
)
    requires
        before.sound(cfg),
        before.undergoes(what, cfg, after),
        before.greets(what, cfg, id),
    ensures
        before.convos.class_of(id) is None,
        after.convos.class_of(id) is Some,
        before.sends_on(what, cfg).len() > 0,
        before.sends_on(what, cfg)[0] == (id, vstd::utf8::encode_utf8(cfg.behavior.greeting@)),
{
    if before.convos.class_of(id) is Some {
        lemma_known_are_greeted(before, cfg, id, what->now);
    }
}

/// Besides a greeting, an event sends one canned reply at most, to a message
/// that is denied; so nothing else that is sent on an event is a greeting.
pub proof fn law_events_send_only_greetings_and_refusals(
    before: BotView,
    event: Event,
    now: nat,
    today: nat,
    cfg: Config,
    id: Seq<char>,
)
    requires
        before.addresses(Occurrence::Event { event, now, today }, cfg, id),
    ensures
        ({
            let what = Occurrence::Event { event, now, today };
            let taken = crate::bot::course(before, event, cfg, now, today);
            &&& taken is Engaged
            &&& taken->id == id
            &&& taken.sends().len() == crate::bot::once_if(before.greets(what, cfg, id))
                + crate::bot::once_if(taken->reaction.denied)
        }),
{
    let what = Occurrence::Event { event, now, today };
    let sends = before.sends_on(what, cfg);
    let i = choose|i: int| 0 <= i < sends.len() && (#[trigger] sends[i]).0 == id;
    assert(sends[i].0 == id);
}

/// While the last start of a conversation was that of a group, and groups are
/// ignored, nothing at all is sent to it and no LLM call made for it, as long as
/// it is not forgotten, whatever happens.
pub proof fn law_nothing_is_said_in_an_ignored_group(
    states: Seq<BotView>,
    happened: Seq<Occurrence>,
    cfg: Config,
    id: Seq<char>,
    start: int,
    n: int,
)
    requires
        is_run(states, happened, cfg),
        starts_idle(states, cfg),
        cfg.behavior.ignore_groups,
        0 <= start <= n < happened.len(),
        happened[start].is_group_start(id),
        forall|k: int| start < k <= n ==> !(#[trigger] happened[k]).is_start(id),
        forall|k: int| start < k <= n ==> (#[trigger] states[k]).convos.class_of(id) is Some,
    ensures
        !states[n].addresses(happened[n], cfg, id),
        states[n].job_on(happened[n], cfg) is Some ==> states[n].job_on(
            happened[n],
            cfg,
        )->0.convo_id != id,
{
    assert(states[n].undergoes(happened[n], cfg, states[n + 1]));
    if start < n {
        lemma_group_stays_ignored(states, happened, cfg, id, start, n);
        lemma_ignored_is_left_alone(states[n], happened[n], cfg, id);
    } else {
        assert(states[n].sends_on(happened[n], cfg).len() == 0);
    }
}

/// Nothing is sent to, and no call made for, a conversation that is known to be
/// ignored, unless it starts again.
proof fn lemma_ignored_is_left_alone(before: BotView, what: Occurrence, cfg: Config, id: Seq<char>)
    requires
        before.convos.class_of(id) == Some(true),
        !what.is_start(id),
    ensures
        !before.addresses(what, cfg, id),
        before.job_on(what, cfg) is Some ==> before.job_on(what, cfg)->0.convo_id != id,
{
    let sends = before.sends_on(what, cfg);
    match what {
        Occurrence::Event { event, now, today } => {
            if let Course::Engaged { id: other, reaction } = crate::bot::course(before, event, cfg, now, today) {
                assert(other != id);
                assert forall|i: int| 0 <= i < sends.len() implies (#[trigger] sends[i]).0 != id by {
                    assert(sends[i].0 == other);
                }
            }
        },
        Occurrence::Call(call) => {
            if call.id == id {
                assert(sends.len() == 0);
            }
        },
    }
}

/// A group that is ignored stays so until it starts again.
proof fn lemma_group_stays_ignored(
    states: Seq<BotView>,
    happened: Seq<Occurrence>,
    cfg: Config,
    id: Seq<char>,
    start: int,
    n: int,
)
    requires
        is_run(states, happened, cfg),
        starts_idle(states, cfg),
        cfg.behavior.ignore_groups,
        0 <= start < n < states.len(),
        happened[start].is_group_start(id),
        forall|k: int| start < k < n ==> !(#[trigger] happened[k]).is_start(id),
        forall|k: int| start < k <= n ==> (#[trigger] states[k]).convos.class_of(id) is Some,
    ensures
        states[n].convos.class_of(id) == Some(true),
    decreases n,
{
    let before = states[n - 1];
    let what = happened[n - 1];
    let after = states[n];
    assert(before.undergoes(what, cfg, after));
    if start < n - 1 {
        lemma_group_stays_ignored(states, happened, cfg, id, start, n - 1);
        lemma_run_is_sound(states, happened, cfg, n - 1);
        assert(!what.is_start(id));
        match what {
            Occurrence::Event { event, now, today } => {
                if let Course::Engaged { id: other, reaction } = crate::bot::course(
                    before,
                    event,
                    cfg,
                    now,
                    today,
                ) {
                    crate::convos::lemma_class_of_others(before.convos, other, after.convos, id);
                }
            },
            Occurrence::Call(call) => {},
        }
    }
}

/// A message that is let through in a conversation that is not known to be
/// ignored leads to a call at once if none is in flight there, whatever is in
/// flight elsewhere.
pub proof fn law_idle_conversation_gets_its_call(
    before: BotView,
    what: Occurrence,
    cfg: Config,
    id: Seq<char>,
    text: Seq<char>,
)
    requires
        what.is_message(id, text),
        before.lets_through(id, what, cfg),
        before.convos.class_of(id) != Some(true),
        !before.awaits(id),
    ensures
        before.job_on(what, cfg) is Some,
        before.job_on(what, cfg)->0.convo_id == id,
        before.job_on(what, cfg)->0.context.last() == (TurnView {
            role: Role::User,
            content: text,
        }),
{
}

/// How many of `n` messages find a place in the queue.
pub open spec fn queued_of(n: nat) -> nat {
    if n <= PENDING_CAP {
        n
    } else {
        PENDING_CAP as nat
    }
}

/// Whether `happened` begins with one message after the other in the
/// conversation `id`, each let through.
pub open spec fn messages_come_in(
    states: Seq<BotView>,
    happened: Seq<Occurrence>,
    cfg: Config,
    id: Seq<char>,
    texts: Seq<Seq<char>>,
) -> bool {
    forall|k: int|
        0 <= k < texts.len() ==> (#[trigger] happened[k]).is_message(id, texts[k])
            && states[k].lets_through(id, happened[k], cfg)
}

/// Whether from `from` on `happened` is made of finished calls for `id`, none of
/// which finds the budget spent.
pub open spec fn calls_finish(
    states: Seq<BotView>,
    happened: Seq<Occurrence>,
    cfg: Config,
    id: Seq<char>,
    from: int,
) -> bool {
    forall|k: int|
        from <= k < happened.len() ==> match #[trigger] happened[k] {
            Occurrence::Call(call) => {
                &&& call.id == id
                &&& call.dispatch_next
                &&& !states[k + 1].budget.on(call.today).is_exhausted(cfg.limits)
            },
            _ => false,
        }
}

/// What a full queue comes to: while a message in `id` is being answered, more
/// of them come in and are let through; no call is made for any of them then.
/// As calls finish, exactly as many follow as the queue has room for (the rest
/// were dropped), one message at a time and in the order of arrival; then the
/// conversation is idle.
pub proof fn law_full_queue_is_answered_in_order(
    states: Seq<BotView>,
    happened: Seq<Occurrence>,
    cfg: Config,
    id: Seq<char>,
    texts: Seq<Seq<char>>,
)
    requires
        is_run(states, happened, cfg),
        happened.len() == texts.len() + queued_of(texts.len()) + 1,
        states[0].awaits(id),
        states[0].convos.active[id].pending.len() == 0,
        !states[0].convos.active[id].ignored,
        messages_come_in(states, happened, cfg, id, texts),
        calls_finish(states, happened, cfg, id, texts.len() as int),
    ensures
        forall|k: int|
            0 <= k < texts.len() ==> states[k].job_on(#[trigger] happened[k], cfg) is None,
        forall|k: int|
            PENDING_CAP <= k < texts.len() ==> crate::bot::course(
                states[k],
                (#[trigger] happened[k])->event,
                cfg,
                happened[k]->now,
                happened[k]->Event_today,
            )->reaction.dropped,
        states[texts.len() as int].convos.active[id].in_flight
            == states[0].convos.active[id].in_flight,
        forall|j: int|
            0 <= j <= queued_of(texts.len()) ==> (#[trigger] states[texts.len() + j]).awaits(id),
        forall|j: int|
            0 <= j < queued_of(texts.len()) ==> {
                let job = states[texts.len() + j].job_on(#[trigger] happened[texts.len() + j], cfg);
                &&& job is Some
                &&& job->0.convo_id == id
                &&& job->0.context.last() == (TurnView { role: Role::User, content: texts[j] })
            },
        states[states.len() - 2].job_on(happened.last(), cfg) is None,
        states.last().convos.active[id].is_idle(),
{
    let n = texts.len() as int;
    let room = queued_of(texts.len()) as int;
    assert forall|k: int| 0 <= k < n implies states[k].job_on(#[trigger] happened[k], cfg) is None
        && (k >= PENDING_CAP ==> crate::bot::course(
        states[k],
        happened[k]->event,
        cfg,
        happened[k]->now,
        happened[k]->Event_today,
    )->reaction.dropped) by {
        lemma_queue_fills(states, happened, cfg, id, texts, k);
        assert(happened[k].is_message(id, texts[k]));
    }
    lemma_queue_fills(states, happened, cfg, id, texts, n);
    assert forall|j: int| 0 <= j <= room implies (#[trigger] states[n + j]).awaits(id) by {
        lemma_queue_drains(states, happened, cfg, id, texts, j);
    }
    assert forall|j: int| 0 <= j < room implies ({
        let job = states[n + j].job_on(#[trigger] happened[n + j], cfg);
        &&& job is Some
        &&& job->0.convo_id == id
        &&& job->0.context.last() == (TurnView { role: Role::User, content: texts[j] })
    }) by {
        lemma_queue_drains(states, happened, cfg, id, texts, j);
        assert(states[n + j].undergoes(happened[n + j], cfg, states[n + j + 1]));
        assert(states[n + j].convos.active[id].pending[0] == texts[j]);
    }
    lemma_queue_drains(states, happened, cfg, id, texts, room);
    assert(states[n + room].undergoes(happened[n + room], cfg, states[n + room + 1]));
    assert(happened[n + room] is Call);
}

/// The queue after the first `k` messages of [`messages_come_in`].
proof fn lemma_queue_fills(
    states: Seq<BotView>,
    happened: Seq<Occurrence>,
    cfg: Config,
    id: Seq<char>,
    texts: Seq<Seq<char>>,
    k: int,
)
    requires
        is_run(states, happened, cfg),
        0 <= k <= texts.len() < states.len(),
        states[0].awaits(id),
        states[0].convos.active[id].pending.len() == 0,
        !states[0].convos.active[id].ignored,
        messages_come_in(states, happened, cfg, id, texts),
    ensures
        states[k].awaits(id),
        !states[k].convos.active[id].ignored,
        states[k].convos.active[id].in_flight == states[0].convos.active[id].in_flight,
        states[k].convos.active[id].pending == texts.take(queued_of(k as nat) as int),
    decreases k,
{
    if k == 0 {
        assert(states[0].convos.active[id].pending =~= texts.take(0));
    } else {
        lemma_queue_fills(states, happened, cfg, id, texts, k - 1);
        assert(states[k - 1].undergoes(happened[k - 1], cfg, states[k]));
        assert(happened[k - 1].is_message(id, texts[k - 1]));
        assert(states[k - 1].lets_through(id, happened[k - 1], cfg));
        if k <= PENDING_CAP {
            assert(texts.take(k) =~= texts.take(k - 1).push(texts[k - 1]));
        }
    }
}

/// The queue after the first `j` of the calls that finish.
proof fn lemma_queue_drains(
    states: Seq<BotView>,
    happened: Seq<Occurrence>,
    cfg: Config,
    id: Seq<char>,
    texts: Seq<Seq<char>>,
    j: int,
)
    requires
        is_run(states, happened, cfg),
        happened.len() == texts.len() + queued_of(texts.len()) + 1,
        states[0].awaits(id),
        states[0].convos.active[id].pending.len() == 0,
        !states[0].convos.active[id].ignored,
        messages_come_in(states, happened, cfg, id, texts),
        calls_finish(states, happened, cfg, id, texts.len() as int),
        0 <= j <= queued_of(texts.len()),
    ensures
        states[texts.len() + j].awaits(id),
        !states[texts.len() + j].convos.active[id].ignored,
        states[texts.len() + j].convos.active[id].pending == texts.take(
            queued_of(texts.len()) as int,
        ).skip(j),
    decreases j,
{
    let n = texts.len() as int;
    let queue = texts.take(queued_of(texts.len()) as int);
    if j == 0 {
        lemma_queue_fills(states, happened, cfg, id, texts, n);
        assert(queue.skip(0) =~= queue);
    } else {
        lemma_queue_drains(states, happened, cfg, id, texts, j - 1);
        assert(states[n + j - 1].undergoes(happened[n + j - 1], cfg, states[n + j]));
        assert(happened[n + j - 1] is Call);
        assert(queue.skip(j - 1).drop_first() =~= queue.skip(j));
    }
}

/// As long as every finished call may lead to the next, nobody waits for
/// nothing: whatever happens, where a message waits another is being answered.
pub proof fn law_nobody_waits_for_nothing(
    states: Seq<BotView>,
    happened: Seq<Occurrence>,
    cfg: Config,
    n: int,
    id: Seq<char>,
)
    requires
        is_run(states, happened, cfg),
        starts_idle(states, cfg),
        forall|k: int|
            0 <= k < happened.len() && #[trigger] happened[k] is Call ==> happened[k]->Call_0.dispatch_next,
        0 <= n < states.len(),
        states[n].convos.active.contains_key(id),
        states[n].convos.active[id].pending.len() > 0,
    ensures
        states[n].awaits(id),
    decreases n,
{
    if n > 0 {
        let before = states[n - 1];
        assert(before.undergoes(happened[n - 1], cfg, states[n]));
        if before.convos.active.contains_key(id) && before.convos.active[id].pending.len() > 0 {
            law_nobody_waits_for_nothing(states, happened, cfg, n - 1, id);
        }
    }
}

/// Whether a finished call sends its reply: somebody waits for it, the bot still
/// takes part, there is one, and the client succeeds in sending it.
pub open spec fn sends_reply(state: BotView, what: Occurrence) -> bool {
    match what {
        Occurrence::Call(call) => {
            &&& state.awaits(call.id)
            &&& !state.convos.active[call.id].ignored
            &&& call.result is Ok
            &&& call.sent
        },
        _ => false,
    }
}

/// How many replies are sent in the first `n` steps of a run.
pub open spec fn replies_sent(states: Seq<BotView>, happened: Seq<Occurrence>, n: int) -> nat
    decreases n,
{
    if n <= 0 {
        0
    } else {
        replies_sent(states, happened, n - 1) + crate::bot::once_if(
            sends_reply(states[n - 1], happened[n - 1]),
        )
    }
}

/// How many tokens the replies took that are sent in the first `n` steps of a
/// run, as far as they were reported.
pub open spec fn tokens_sent(states: Seq<BotView>, happened: Seq<Occurrence>, n: int) -> nat
    decreases n,
{
    if n <= 0 {
        0
    } else {
        tokens_sent(states, happened, n - 1) + (match happened[n - 1] {
            Occurrence::Call(call) => if sends_reply(states[n - 1], happened[n - 1])
                && call.result->Ok_0.tokens_used is Some {
                call.result->Ok_0.tokens_used->0 as nat
            } else {
                0
            },
            _ => 0,
        })
    }
}

/// The budget keeps count: on any day its counters are what they were at first,
/// and one for each reply sent since and the tokens these took, and only stop at
/// their largest values.
pub proof fn law_budget_counts_the_replies_sent(
    states: Seq<BotView>,
    happened: Seq<Occurrence>,
    cfg: Config,
    today: nat,
    n: int,
)
    requires
        is_run(states, happened, cfg),
        crate::limits::fits(states[0].budget),
        forall|k: int| 0 <= k < happened.len() ==> (#[trigger] happened[k]).day() == today,
        0 <= n < states.len(),
    ensures
        ({
            let first = states[0].budget.on(today);
            let then = states[n].budget.on(today);
            let messages = first.messages + replies_sent(states, happened, n);
            let tokens = first.tokens + tokens_sent(states, happened, n);
            &&& messages <= u32::MAX ==> then.messages == messages
            &&& messages > u32::MAX ==> then.messages == u32::MAX
            &&& tokens <= u64::MAX ==> then.tokens == tokens
            &&& tokens > u64::MAX ==> then.tokens == u64::MAX
        }),
    decreases n,
{
    if n > 0 {
        law_budget_counts_the_replies_sent(states, happened, cfg, today, n - 1);
        let before = states[n - 1];
        let after = states[n];
        assert(before.undergoes(happened[n - 1], cfg, after));
        assert(happened[n - 1].day() == today);
        match happened[n - 1] {
            Occurrence::Event { event, now, .. } => {
                crate::bot::law_events_spend_nothing(before, after, event, cfg, now, today);
            },
            Occurrence::Call(call) => {},
        }
    }
}

/// The daily cap bounds the replies that are sent, not only those counted: on a
/// day that starts within the cap, those counted before it, those sent, and those
/// that the calls in flight may still come to, are no more than the cap and one
/// fewer than are in flight at most.
pub proof fn law_replies_sent_in_a_day_are_bounded(
    states: Seq<BotView>,
    happened: Seq<Occurrence>,
    cfg: Config,
    today: nat,
    busy: nat,
    n: int,
)
    requires
        is_run(states, happened, cfg),
        starts_idle(states, cfg),
        crate::limits::fits(states[0].budget),
        states[0].budget.on(today).messages <= cfg.limits.daily_max_messages,
        forall|k: int| 0 <= k < happened.len() ==> (#[trigger] happened[k]).day() == today,
        forall|k: int| 0 <= k <= n ==> (#[trigger] states[k]).convos.in_flight_ids().len() <= busy,
        busy >= 1,
        0 <= n < states.len(),
    ensures
        states[0].budget.on(today).messages + replies_sent(states, happened, n)
            + states[n].convos.in_flight_ids().len() <= cfg.limits.daily_max_messages + busy - 1,
    decreases n,
{
    if n == 0 {
        assert(states[0].convos.in_flight_ids() =~= Set::empty());
    } else {
        let before = states[n - 1];
        let after = states[n];
        law_replies_sent_in_a_day_are_bounded(states, happened, cfg, today, busy, n - 1);
        law_budget_counts_the_replies_sent(states, happened, cfg, today, n - 1);
        law_budget_counts_the_replies_sent(states, happened, cfg, today, n);
        lemma_run_is_sound(states, happened, cfg, n - 1);
        assert(before.undergoes(happened[n - 1], cfg, after));
        assert(happened[n - 1].day() == today);
        match happened[n - 1] {
            Occurrence::Event { event, now, .. } => {
                lemma_calls_after_event(before, event, now, today, cfg, after);
                if before.budget.on(today).is_exhausted(cfg.limits) {
                    crate::bot::law_spent_budget_starts_nothing(before, event, cfg, now, today);
                }
            },
            Occurrence::Call(call) => {
                if before.awaits(call.id) {
                    lemma_calls_after_call(before, call, cfg);
                    if after.budget.on(today).is_exhausted(cfg.limits) {
                        crate::bot::law_spent_budget_starts_no_next_call(before, call, cfg);
                    }
                }
            },
        }
    }
}

impl Occurrence {
    /// Whether this is any text from the peer of the conversation `id`.
    pub open spec fn is_text(self, id: Seq<char>) -> bool {
        match self {
            Occurrence::Event { event: Event::MessageReceived { convo_id, content }, .. } => {
                &&& convo_id@ == id
                &&& vstd::utf8::valid_utf8(content@)
            },
            _ => false,
        }
    }
}

/// Whether events come in the order of the clock.
pub open spec fn events_in_clock_order(happened: Seq<Occurrence>) -> bool {
    forall|i: int, j: int|
        0 <= i <= j < happened.len() && (#[trigger] happened[i]) is Event && (
        #[trigger] happened[j]) is Event ==> happened[i]->now <= happened[j]->now
}

/// The times of the messages in `id` that are let through, between the steps
/// `from` and `n` of a run.
pub open spec fn let_through_times(
    states: Seq<BotView>,
    happened: Seq<Occurrence>,
    cfg: Config,
    id: Seq<char>,
    from: int,
    n: int,
) -> Seq<nat>
    decreases n - from,
{
    if n <= from {
        Seq::empty()
    } else {
        let before = let_through_times(states, happened, cfg, id, from, n - 1);
        let what = happened[n - 1];
        if what.is_text(id) && states[n - 1].convos.class_of(id) != Some(true)
            && states[n - 1].lets_through(id, what, cfg) {
            before.push(what->now)
        } else {
            before
        }
    }
}

/// The times at which the peer of `id` is told of a limit, between the steps
/// `from` and `n` of a run: when a message of it is denied, or, for messages that
/// waited, when it was active last.
pub open spec fn told_times(
    states: Seq<BotView>,
    happened: Seq<Occurrence>,
    cfg: Config,
    id: Seq<char>,
    from: int,
    n: int,
) -> Seq<nat>
    decreases n - from,
{
    if n <= from {
        Seq::empty()
    } else {
        let before = told_times(states, happened, cfg, id, from, n - 1);
        let state = states[n - 1];
        match happened[n - 1] {
            Occurrence::Event { event, now, today } => {
                let taken = crate::bot::course(state, event, cfg, now, today);
                if taken is Engaged && taken->id == id && taken->reaction.denied {
                    before.push(now)
                } else {
                    before
                }
            },
            Occurrence::Call(call) => if call.id == id && state.awaits(id) && state.settlement(
                call,
                cfg,
            ).denied {
                before.push(state.convos.active[id].last_active)
            } else {
                before
            },
        }
    }
}

/// What is put to the limiter of `id` in one step: a message that comes in, or
/// the messages that wait once the budget is spent.
spec fn arrivals_at(state: BotView, what: Occurrence, cfg: Config, id: Seq<char>) -> Seq<Arrival> {
    match what {
        Occurrence::Event { now, today, .. } => if what.is_text(id) && state.convos.class_of(id)
            != Some(true) {
            seq![Arrival { now, today, budget: state.budget }]
        } else {
            Seq::empty()
        },
        Occurrence::Call(call) => {
            let convo = state.convos.active[id];
            let settled = crate::bot::on_result(
                convo,
                state.budget,
                convo.in_flight->0,
                call,
                cfg.behavior,
            );
            if call.id == id && state.awaits(id) && !convo.ignored && call.dispatch_next
                && convo.pending.len() > 0 && settled.budget.on(call.today).is_exhausted(
                cfg.limits,
            ) {
                seq![Arrival { now: convo.last_active, today: call.today, budget: settled.budget }]
            } else {
                Seq::empty()
            }
        },
    }
}

/// All that is put to the limiter of `id` between the steps `from` and `n`.
spec fn arrivals_between(
    states: Seq<BotView>,
    happened: Seq<Occurrence>,
    cfg: Config,
    id: Seq<char>,
    from: int,
    n: int,
) -> Seq<Arrival>
    decreases n - from,
{
    if n <= from {
        Seq::empty()
    } else {
        arrivals_between(states, happened, cfg, id, from, n - 1) + arrivals_at(
            states[n - 1],
            happened[n - 1],
            cfg,
            id,
        )
    }
}

/// The limiter of `id` at some step, or of one that is not active.
spec fn limiter_at(state: BotView, id: Seq<char>) -> LimiterView {
    if state.convos.active.contains_key(id) {
        state.convos.active[id].limiter
    } else {
        crate::limits::idle_limiter()
    }
}

/// What one step does to the limiter of `id`: what is put to it decides, and
/// nothing else changes it.
proof fn lemma_limiter_after_step(
    before: BotView,
    what: Occurrence,
    cfg: Config,
    after: BotView,
    id: Seq<char>,
)
    requires
        before.sound(cfg),
        before.undergoes(what, cfg, after),
        after.convos.active.contains_key(id),
        what.is_text(id) || what.is_start(id) || before.convos.active.contains_key(id),
    ensures
        ({
            let put = arrivals_at(before, what, cfg, id);
            &&& put.len() == 0 ==> limiter_at(after, id) == limiter_at(before, id)
            &&& put.len() > 0 ==> put.len() == 1 && limiter_at(after, id)
                == crate::limits::admitted(
                limiter_at(before, id),
                put[0].budget,
                put[0].now,
                put[0].today,
                cfg.limits,
            ).limiter
        }),
        ({
            let put = arrivals_at(before, what, cfg, id);
            let verdict = crate::limits::admitted(
                limiter_at(before, id),
                put[0].budget,
                put[0].now,
                put[0].today,
                cfg.limits,
            ).verdict;
            &&& (put.len() > 0 && verdict is Allow) <==> (what.is_text(id)
                && before.convos.class_of(id) != Some(true) && before.lets_through(id, what, cfg))
            &&& (put.len() > 0 && verdict is Allow) ==> put[0].now == what->now
            &&& (put.len() > 0 && verdict is Deny) <==> told_now(before, what, cfg, id)
        }),
{
    match what {
        Occurrence::Event { event, now, today } => {
            if let Course::Engaged { id: other, reaction } = crate::bot::course(
                before,
                event,
                cfg,
                now,
                today,
            ) {
                if other != id {
                    assert(before.convos.active.contains_key(id));
                }
            }
        },
        Occurrence::Call(call) => {},
    }
}

/// Whether the peer of `id` is told of a limit in a step.
spec fn told_now(state: BotView, what: Occurrence, cfg: Config, id: Seq<char>) -> bool {
    match what {
        Occurrence::Event { event, now, today } => {
            let taken = crate::bot::course(state, event, cfg, now, today);
            taken is Engaged && taken->id == id && taken->reaction.denied
        },
        Occurrence::Call(call) => call.id == id && state.awaits(id) && state.settlement(
            call,
            cfg,
        ).denied,
    }
}

/// Whether `id` is active from the step after `from` to `n`, and was not at
/// `from`.
pub open spec fn is_active_between(
    states: Seq<BotView>,
    id: Seq<char>,
    from: int,
    n: int,
) -> bool {
    &&& 0 <= from <= n < states.len()
    &&& !states[from].convos.active.contains_key(id)
    &&& forall|k: int| from < k <= n ==> (#[trigger] states[k]).convos.active.contains_key(id)
}

/// While a conversation stays active, its limiter is what all that was put to it
/// makes of an idle one.
proof fn lemma_limiter_of_a_run(
    states: Seq<BotView>,
    happened: Seq<Occurrence>,
    cfg: Config,
    id: Seq<char>,
    from: int,
    n: int,
)
    requires
        is_run(states, happened, cfg),
        starts_idle(states, cfg),
        events_in_clock_order(happened),
        is_active_between(states, id, from, n),
    ensures
        ({
            let put = arrivals_between(states, happened, cfg, id, from, n);
            &&& limiter_at(states[n], id) == crate::limits::limiter_after(put, cfg.limits)
            &&& crate::limits::answered_times(put, cfg.limits) == let_through_times(
                states,
                happened,
                cfg,
                id,
                from,
                n,
            )
            &&& crate::limits::denied_times(put, cfg.limits) == told_times(
                states,
                happened,
                cfg,
                id,
                from,
                n,
            )
            &&& crate::limits::in_clock_order(put)
            &&& put.len() > 0 ==> n > from && put.last().now
                <= states[n].convos.active[id].last_active
            &&& n > from ==> forall|m: int|
                n <= m < happened.len() && (#[trigger] happened[m]) is Event
                    ==> states[n].convos.active[id].last_active <= happened[m]->now
        }),
    decreases n - from,
{
    if n > from {
        assert(is_active_between(states, id, from, n - 1));
        lemma_limiter_of_a_run(states, happened, cfg, id, from, n - 1);
        lemma_run_is_sound(states, happened, cfg, n - 1);
        let before = states[n - 1];
        let what = happened[n - 1];
        let after = states[n];
        assert(before.undergoes(what, cfg, after));
        assert(after.convos.active.contains_key(id));
        lemma_limiter_after_step(before, what, cfg, after, id);
        let earlier = arrivals_between(states, happened, cfg, id, from, n - 1);
        let put = arrivals_at(before, what, cfg, id);
        let all = arrivals_between(states, happened, cfg, id, from, n);
        lemma_last_active_after_step(before, what, cfg, after, id);
        if put.len() > 0 {
            assert(all =~= earlier.push(put[0]));
            assert(all.drop_last() =~= earlier);
            assert(all.last() == put[0]);
            assert(earlier.len() > 0 ==> earlier.last().now <= put[0].now);
            assert forall|i: int, j: int| 0 <= i <= j < all.len() implies (#[trigger] all[i]).now
                <= (#[trigger] all[j]).now by {
                if j < earlier.len() {
                    assert(all[i] == earlier[i] && all[j] == earlier[j]);
                } else if i < earlier.len() {
                    assert(all[i] == earlier[i]);
                    assert(earlier[i].now <= earlier[earlier.len() - 1].now);
                }
            }
        } else {
            assert(all =~= earlier);
        }
        assert forall|m: int|
            n <= m < happened.len() && (#[trigger] happened[m]) is Event implies states[n].convos.active[id].last_active
            <= happened[m]->now by {
            if what is Event {
                assert(happened[n - 1]->now <= happened[m]->now);
            }
        }
    }
}

/// When a conversation was last active after one step: at the time of an event
/// about it, and otherwise when it was before.
proof fn lemma_last_active_after_step(
    before: BotView,
    what: Occurrence,
    cfg: Config,
    after: BotView,
    id: Seq<char>,
)
    requires
        before.undergoes(what, cfg, after),
        after.convos.active.contains_key(id),
    ensures
        ({
            ||| what is Event && after.convos.active[id].last_active == what->now
            ||| before.convos.active.contains_key(id) && after.convos.active[id].last_active
                == before.convos.active[id].last_active && !(arrivals_at(
                before,
                what,
                cfg,
                id,
            ).len() > 0 && what is Event)
        }),
        what is Call && arrivals_at(before, what, cfg, id).len() > 0 ==> arrivals_at(
            before,
            what,
            cfg,
            id,
        )[0].now == before.convos.active[id].last_active,
{
}

/// The sliding window keeps its promise whatever else happens: while a
/// conversation stays active, of any run of its messages that are let through,
/// one longer than the window's maximum, the last comes a whole window or more
/// after the first. No reply, failure, event or other conversation shortens that.
pub proof fn law_window_holds_over_a_run(
    states: Seq<BotView>,
    happened: Seq<Occurrence>,
    cfg: Config,
    id: Seq<char>,
    from: int,
    n: int,
    i: int,
)
    requires
        is_run(states, happened, cfg),
        starts_idle(states, cfg),
        events_in_clock_order(happened),
        is_active_between(states, id, from, n),
        0 <= i,
        i + cfg.limits.per_convo_max_messages < let_through_times(
            states,
            happened,
            cfg,
            id,
            from,
            n,
        ).len(),
    ensures
        ({
            let times = let_through_times(states, happened, cfg, id, from, n);
            times[i] + cfg.limits.per_convo_window@ <= times[i
                + cfg.limits.per_convo_max_messages]
        }),
{
    lemma_limiter_of_a_run(states, happened, cfg, id, from, n);
    crate::limits::law_at_most_max_answers_per_window(
        arrivals_between(states, happened, cfg, id, from, n),
        cfg.limits,
        i,
    );
}

/// Whoever keeps to the limits is let through whatever else happens: while a
/// conversation stays active, a message of it is let through exactly if its peer
/// was not told of a limit less than a window ago, today's budget is left, and
/// fewer of its messages than the maximum were let through in the window that
/// ends now.
pub proof fn law_let_through_while_there_is_room(
    states: Seq<BotView>,
    happened: Seq<Occurrence>,
    cfg: Config,
    id: Seq<char>,
    from: int,
    n: int,
)
    requires
        is_run(states, happened, cfg),
        starts_idle(states, cfg),
        events_in_clock_order(happened),
        is_active_between(states, id, from, n),
        n < happened.len(),
        happened[n].is_text(id),
    ensures
        ({
            let now = happened[n]->now;
            let today = happened[n].day();
            let span = cfg.limits.per_convo_window@;
            let told = told_times(states, happened, cfg, id, from, n);
            let passed = let_through_times(states, happened, cfg, id, from, n);
            states[n].lets_through(id, happened[n], cfg) <==> {
                &&& forall|i: int| 0 <= i < told.len() ==> #[trigger] told[i] + span <= now
                &&& !states[n].budget.on(today).is_exhausted(cfg.limits)
                &&& crate::limits::within(passed, now, span).len()
                    < cfg.limits.per_convo_max_messages
            }
        }),
{
    lemma_limiter_of_a_run(states, happened, cfg, id, from, n);
    let put = arrivals_between(states, happened, cfg, id, from, n);
    let next = Arrival {
        now: happened[n]->now,
        today: happened[n].day(),
        budget: states[n].budget,
    };
    let all = put.push(next);
    assert forall|i: int, j: int| 0 <= i <= j < all.len() implies (#[trigger] all[i]).now <= (
    #[trigger] all[j]).now by {
        if j < put.len() {
            assert(all[i] == put[i] && all[j] == put[j]);
        } else if i < put.len() {
            assert(all[i] == put[i]);
            assert(put[i].now <= put[put.len() - 1].now);
        }
    }
    crate::limits::law_answered_while_there_is_room(put, cfg.limits, next);
}

} // verus!
