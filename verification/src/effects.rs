//! What a single event or finished LLM call changes, and what it leaves alone.
use vstd::prelude::*;

use crate::bot::{BotView, ConversationClass, Event, Finished, Input, Phase, PENDING_CAP};
use crate::config::{Behavior, Config};
use crate::convos::{ConvoView, StoreView};
use crate::limits::BudgetView;
use crate::llm::{Role, TurnView};

verus! {

/// The turns of a call are the whole history, as it is, and the whole message to
/// be answered as the peer's turn.
pub proof fn law_context_is_the_history_and_the_message(history: Seq<TurnView>, text: Seq<char>)
    ensures
        crate::bot::context_for(history, text).len() == history.len() + 1,
        forall|i: int|
            0 <= i < history.len() ==> #[trigger] crate::bot::context_for(history, text)[i]
                == history[i],
        crate::bot::context_for(history, text).last().role == Role::User,
        crate::bot::context_for(history, text).last().content == text,
{
}

/// Trimming a history drops its oldest turns only, and no more of them than it
/// has to: two turns for each exchange are kept, the latest, in order.
pub proof fn law_trimming_drops_the_oldest_turns(history: Seq<TurnView>, max_turns: nat)
    ensures
        ({
            let kept = crate::bot::recent(history, max_turns);
            &&& history.len() <= 2 * max_turns ==> kept.len() == history.len()
            &&& history.len() > 2 * max_turns ==> kept.len() == 2 * max_turns
            &&& forall|i: int|
                0 <= i < kept.len() ==> #[trigger] kept[i] == history[i + history.len()
                    - kept.len()]
        }),
{
}

/// The start of a conversation makes it count as greeted and settles whether it
/// is ignored; all else about it stays, and nothing is spent or asked of the
/// model.
pub proof fn law_start_settles_two_bits(
    convo: ConvoView,
    budget: BudgetView,
    ignored: bool,
    behavior: Behavior,
)
    ensures
        ({
            let reaction = crate::bot::on_started(convo, budget, ignored, behavior);
            &&& reaction.convo.greeted
            &&& reaction.convo.ignored == ignored
            &&& reaction.convo.history == convo.history
            &&& reaction.convo.limiter == convo.limiter
            &&& reaction.convo.pending == convo.pending
            &&& reaction.convo.in_flight == convo.in_flight
            &&& reaction.convo.last_active == convo.last_active
            &&& reaction.budget == budget
            &&& reaction.context is None
            &&& !reaction.denied
            &&& !reaction.dropped
            &&& ignored || convo.greeted || behavior.greeting@.len() == 0 ==> reaction.sends.len()
                == 0
            &&& !ignored && !convo.greeted && behavior.greeting@.len() > 0 ==> reaction.sends.len()
                == 1 && reaction.sends[0] == vstd::utf8::encode_utf8(behavior.greeting@)
        }),
{
}

/// Whatever comes of a message, the conversation counts as greeted from then on,
/// and its history, its class and the time it was last active stay; its limiter
/// and the budget become what the decision to admit it makes of them.
pub proof fn law_message_leaves_the_rest(
    convo: ConvoView,
    budget: BudgetView,
    text: Seq<char>,
    now: nat,
    today: nat,
    cfg: Config,
)
    ensures
        ({
            let reaction = crate::bot::on_message(convo, budget, text, now, today, cfg);
            let decided = crate::limits::admitted(convo.limiter, budget, now, today, cfg.limits);
            &&& reaction.convo.greeted
            &&& reaction.convo.ignored == convo.ignored
            &&& reaction.convo.history == convo.history
            &&& reaction.convo.last_active == convo.last_active
            &&& reaction.convo.limiter == decided.limiter
            &&& reaction.budget == decided.budget
            &&& reaction.denied <==> decided.verdict is Deny
        }),
{
}

/// A message that is let through is put to the model at once, behind the history,
/// if none is being answered; joins the end of the queue if there is room; and
/// is dropped otherwise. Nothing already in flight or waiting is touched, and
/// nothing but a greeting is sent.
pub proof fn law_message_let_through_is_answered_or_waits(
    convo: ConvoView,
    budget: BudgetView,
    text: Seq<char>,
    now: nat,
    today: nat,
    cfg: Config,
)
    requires
        crate::limits::admitted(convo.limiter, budget, now, today, cfg.limits).verdict is Allow,
    ensures
        ({
            let reaction = crate::bot::on_message(convo, budget, text, now, today, cfg);
            let room = convo.pending.len() < PENDING_CAP;
            &&& convo.in_flight is None ==> {
                &&& reaction.convo.in_flight == Some(text)
                &&& reaction.convo.pending == convo.pending
                &&& reaction.context is Some
                &&& reaction.context->0.len() == convo.history.len() + 1
                &&& reaction.context->0.drop_last() == convo.history
                &&& reaction.context->0.last() == (TurnView { role: Role::User, content: text })
                &&& !reaction.dropped
            }
            &&& convo.in_flight is Some ==> {
                &&& reaction.convo.in_flight == convo.in_flight
                &&& reaction.context is None
                &&& reaction.dropped <==> !room
            }
            &&& convo.in_flight is Some && room ==> reaction.convo.pending == convo.pending.push(
                text,
            )
            &&& convo.in_flight is Some && !room ==> reaction.convo.pending == convo.pending
            &&& reaction.sends.len() == (if convo.greeted || cfg.behavior.greeting@.len() == 0 {
                0int
            } else {
                1int
            })
        }),
{
    let reaction = crate::bot::on_message(convo, budget, text, now, today, cfg);
    if convo.in_flight is None {
        assert(reaction.context->0.drop_last() =~= convo.history);
    }
}

/// A message that is not let through is met with the words of the refusal, if
/// there are any, after a greeting if one is due; it neither is put to the model
/// nor waits.
pub proof fn law_message_refused_is_not_taken_on(
    convo: ConvoView,
    budget: BudgetView,
    text: Seq<char>,
    now: nat,
    today: nat,
    cfg: Config,
)
    requires
        !(crate::limits::admitted(convo.limiter, budget, now, today, cfg.limits).verdict is Allow),
    ensures
        ({
            let reaction = crate::bot::on_message(convo, budget, text, now, today, cfg);
            let verdict = crate::limits::admitted(
                convo.limiter,
                budget,
                now,
                today,
                cfg.limits,
            ).verdict;
            let greetings: int = if convo.greeted || cfg.behavior.greeting@.len() == 0 {
                0
            } else {
                1
            };
            &&& reaction.context is None
            &&& reaction.convo.in_flight == convo.in_flight
            &&& reaction.convo.pending == convo.pending
            &&& greetings == 1 ==> reaction.sends[0] == vstd::utf8::encode_utf8(
                cfg.behavior.greeting@,
            )
            &&& verdict is Deny ==> reaction.sends.len() == greetings + 1 && reaction.sends.last()
                == vstd::utf8::encode_utf8(verdict->Deny_0) && !reaction.dropped
            &&& verdict is SilentlyDrop ==> reaction.sends.len() == greetings && reaction.dropped
        }),
{
}

/// Which events engage the bot: the start of a conversation, and text in one that
/// is not known to be ignored; each about its own conversation, with the whole
/// text. Nothing else touches a conversation or says anything, and of all that
/// only text in an ignored conversation counts as dropped.
pub proof fn law_starts_and_texts_engage(
    before: BotView,
    event: Event,
    cfg: Config,
    now: nat,
    today: nat,
)
    ensures
        ({
            let taken = crate::bot::course(before, event, cfg, now, today);
            match event {
                Event::ConversationStarted { convo_id, class } => taken is Engaged && taken->id
                    == convo_id@ && taken->reaction.convo.ignored == (cfg.behavior.ignore_groups
                    && class == ConversationClass::Group),
                Event::MessageReceived { convo_id, content } => {
                    let readable = vstd::utf8::valid_utf8(content@);
                    let ignored = before.convos.class_of(convo_id@) == Some(true);
                    &&& taken is Engaged <==> readable && !ignored
                    &&& taken is Engaged ==> taken->id == convo_id@
                    &&& taken is Engaged && taken->reaction.context is Some
                        ==> vstd::utf8::encode_utf8(
                        taken->reaction.context->0.last().content,
                    ) == content@
                    &&& taken is Untouched ==> (taken->dropped <==> readable)
                },
                _ => taken is Untouched && !taken->dropped,
            }
        }),
{
    if let Event::MessageReceived { convo_id, content } = event {
        if vstd::utf8::valid_utf8(content@) {
            vstd::utf8::decode_utf8_encode_utf8(content@);
        }
    }
}

/// What does not engage the bot leaves all but its counters as they are, sends
/// nothing and asks nothing of the model.
pub proof fn law_untouched_is_untouched(
    before: BotView,
    after: BotView,
    event: Event,
    cfg: Config,
    now: nat,
    today: nat,
)
    requires
        crate::bot::course(before, event, cfg, now, today) is Untouched,
        crate::bot::course(before, event, cfg, now, today).leads(before, after),
    ensures
        after.convos == before.convos,
        after.budget == before.budget,
        crate::bot::course(before, event, cfg, now, today).sends().len() == 0,
        crate::bot::course(before, event, cfg, now, today).job() is None,
{
}

/// What engages the bot is dealt with as the conversation stands and under its
/// own name: what the reaction sends goes to it, whole and in order, and the
/// call that it asks for is made for it.
pub proof fn law_reaction_stays_in_its_conversation(
    before: BotView,
    after: BotView,
    event: Event,
    cfg: Config,
    now: nat,
    today: nat,
)
    requires
        crate::bot::course(before, event, cfg, now, today) is Engaged,
        crate::bot::course(before, event, cfg, now, today).leads(before, after),
    ensures
        ({
            let taken = crate::bot::course(before, event, cfg, now, today);
            let reaction = taken->reaction;
            &&& after.convos.active.contains_key(taken->id)
            &&& after.convos.active[taken->id] == reaction.convo
            &&& after.budget == reaction.budget
            &&& taken.sends().len() == reaction.sends.len()
            &&& forall|i: int|
                0 <= i < reaction.sends.len() ==> #[trigger] taken.sends()[i] == (
                    taken->id,
                    reaction.sends[i],
                )
            &&& taken.job() is Some <==> reaction.context is Some
            &&& taken.job() is Some ==> taken.job()->0.convo_id == taken->id
                && taken.job()->0.context == reaction.context->0
            &&& reaction.convo.last_active == now
        }),
{
}

/// Whoever is new is greeted, by the start of a conversation that is not ignored
/// or by the first message, whatever else comes of that; with nothing, if the
/// greeting is empty.
pub proof fn law_newcomers_are_greeted(
    before: BotView,
    event: Event,
    cfg: Config,
    now: nat,
    today: nat,
)
    requires
        cfg.behavior.greeting@.len() > 0,
        match event {
            Event::ConversationStarted { convo_id, class } => before.convos.class_of(convo_id@) is None
                && (class == ConversationClass::Private || !cfg.behavior.ignore_groups),
            Event::MessageReceived { convo_id, content } => before.convos.class_of(convo_id@) is None
                && vstd::utf8::valid_utf8(content@),
            _ => false,
        },
    ensures
        ({
            let sends = crate::bot::course(before, event, cfg, now, today).sends();
            &&& sends.len() > 0
            &&& sends[0].1 == vstd::utf8::encode_utf8(cfg.behavior.greeting@)
            &&& event is ConversationStarted ==> sends[0].0 == event->ConversationStarted_convo_id@
            &&& event is MessageReceived ==> sends[0].0 == event->MessageReceived_convo_id@
        }),
{
}

/// Whatever a finished call comes to, the conversation stays as greeted and as
/// ignored as it was, and as recently active.
pub proof fn law_finished_call_leaves_the_bits(
    convo: ConvoView,
    budget: BudgetView,
    text: Seq<char>,
    call: Finished,
    cfg: Config,
)
    ensures
        ({
            let settled = crate::bot::on_outcome(convo, budget, text, call, cfg);
            &&& settled.convo.greeted == convo.greeted
            &&& settled.convo.ignored == convo.ignored
            &&& settled.convo.last_active == convo.last_active
        }),
{
}

/// A finished call lifts no limit: the limiter stays as it was, unless messages
/// that wait are refused because the budget is spent.
pub proof fn law_finished_call_leaves_the_limiter(
    convo: ConvoView,
    budget: BudgetView,
    text: Seq<char>,
    call: Finished,
    cfg: Config,
)
    ensures
        ({
            let settled = crate::bot::on_outcome(convo, budget, text, call, cfg);
            settled.convo.limiter == convo.limiter || (call.dispatch_next && convo.pending.len() > 0
                && settled.convo.pending.len() == 0 && !convo.ignored && settled.budget.on(
                call.today,
            ).is_exhausted(cfg.limits))
        }),
{
}

/// A reply is sent whole, before anything else, and joins the end of the history
/// whole, behind the message it answers; of a history that is too long then the
/// oldest turns go. A failure changes no turn and sends nothing of its own.
pub proof fn law_reply_is_sent_and_remembered(
    convo: ConvoView,
    budget: BudgetView,
    text: Seq<char>,
    call: Finished,
    cfg: Config,
)
    requires
        !convo.ignored,
    ensures
        ({
            let settled = crate::bot::on_outcome(convo, budget, text, call, cfg);
            let history = settled.convo.history;
            let turns = cfg.behavior.history_turns;
            &&& call.result is Ok ==> {
                let reply = call.result->Ok_0.text;
                let whole = convo.history.push(TurnView { role: Role::User, content: text }).push(
                    TurnView { role: Role::Assistant, content: reply },
                );
                &&& settled.sends.len() >= 1
                &&& settled.sends[0] == vstd::utf8::encode_utf8(reply)
                &&& history.len() <= whole.len()
                &&& whole.len() <= 2 * turns ==> history.len() == whole.len()
                &&& whole.len() > 2 * turns ==> history.len() == 2 * turns
                &&& forall|i: int|
                    0 <= i < history.len() ==> #[trigger] history[i] == whole[i + whole.len()
                        - history.len()]
                &&& settled.replied <==> call.sent
            }
            &&& call.result is Err ==> history == convo.history && !settled.replied
        }),
{
}

/// What waits moves up by one: unless the budget is spent, the message that has
/// waited longest is in flight after a finished call and put to the model behind
/// the history as it is then; the others wait on in their order.
pub proof fn law_next_in_line_is_put_to_the_model(
    convo: ConvoView,
    budget: BudgetView,
    text: Seq<char>,
    call: Finished,
    cfg: Config,
)
    requires
        !convo.ignored,
        call.dispatch_next,
        convo.pending.len() > 0,
        !crate::bot::on_outcome(convo, budget, text, call, cfg).budget.on(call.today).is_exhausted(
            cfg.limits,
        ),
    ensures
        ({
            let settled = crate::bot::on_outcome(convo, budget, text, call, cfg);
            &&& settled.convo.in_flight == Some(convo.pending[0])
            &&& settled.convo.pending.len() == convo.pending.len() - 1
            &&& forall|i: int|
                0 <= i < settled.convo.pending.len() ==> #[trigger] settled.convo.pending[i]
                    == convo.pending[i + 1]
            &&& settled.context is Some
            &&& settled.context->0.drop_last() == settled.convo.history
            &&& settled.context->0.last() == (TurnView {
                role: Role::User,
                content: convo.pending[0],
            })
            &&& settled.sends.len() == (if call.result is Ok {
                1int
            } else {
                0int
            })
            &&& !settled.denied
            &&& settled.dropped == 0
        }),
{
    let settled = crate::bot::on_outcome(convo, budget, text, call, cfg);
    assert(settled.context->0.drop_last() =~= settled.convo.history);
}

/// Where nothing waits, or nothing more may be started, a finished call leaves
/// the conversation with none in flight and what waits as it is.
pub proof fn law_nothing_next_leaves_the_line(
    convo: ConvoView,
    budget: BudgetView,
    text: Seq<char>,
    call: Finished,
    cfg: Config,
)
    requires
        !convo.ignored,
        !call.dispatch_next || convo.pending.len() == 0,
    ensures
        ({
            let settled = crate::bot::on_outcome(convo, budget, text, call, cfg);
            &&& settled.convo.in_flight is None
            &&& settled.convo.pending == convo.pending
            &&& settled.context is None
            &&& settled.sends.len() == (if call.result is Ok {
                1int
            } else {
                0int
            })
            &&& !settled.denied
            &&& settled.dropped == 0
        }),
{
}

/// Where the budget is spent by the time a call finishes, all that waits is
/// refused: none of it is put to the model, and the peer is told so, once, unless
/// it is muted.
pub proof fn law_line_is_refused_once_the_budget_is_spent(
    convo: ConvoView,
    budget: BudgetView,
    text: Seq<char>,
    call: Finished,
    cfg: Config,
)
    requires
        !convo.ignored,
        call.dispatch_next,
        convo.pending.len() > 0,
        crate::bot::on_outcome(convo, budget, text, call, cfg).budget.on(call.today).is_exhausted(
            cfg.limits,
        ),
    ensures
        ({
            let settled = crate::bot::on_outcome(convo, budget, text, call, cfg);
            let muted = convo.limiter.muted_until is Some && convo.last_active
                < convo.limiter.muted_until->0;
            let replies: int = if call.result is Ok {
                1
            } else {
                0
            };
            &&& settled.convo.in_flight is None
            &&& settled.convo.pending.len() == 0
            &&& settled.context is None
            &&& muted ==> settled.sends.len() == replies && settled.dropped == convo.pending.len()
                && settled.convo.limiter == convo.limiter
            &&& !muted ==> settled.sends.len() == replies + 1 && settled.sends.last()
                == vstd::utf8::encode_utf8("Daily limit reached. Please try again tomorrow."@)
                && settled.dropped == convo.pending.len() - 1
                && settled.convo.limiter.muted_until == Some(
                convo.last_active + cfg.limits.per_convo_window@,
            )
            &&& settled.denied <==> !muted
        }),
{
}

/// In a conversation that is ignored by the time a call finishes, the reply leaves
/// no trace: no turn, nothing spent, and it counts as dropped with all that
/// waited.
pub proof fn law_reply_to_an_ignored_conversation_leaves_no_trace(
    convo: ConvoView,
    budget: BudgetView,
    text: Seq<char>,
    call: Finished,
    cfg: Config,
)
    requires
        convo.ignored,
    ensures
        ({
            let settled = crate::bot::on_outcome(convo, budget, text, call, cfg);
            &&& settled.convo.history == convo.history
            &&& settled.convo.limiter == convo.limiter
            &&& settled.convo.in_flight is None
            &&& settled.budget == budget
            &&& !settled.replied
            &&& !settled.denied
            &&& call.result is Ok ==> settled.dropped == convo.pending.len() + 1
            &&& call.result is Err ==> settled.dropped == convo.pending.len()
        }),
{
}

/// A finished call that nobody awaits changes nothing at all; one that is awaited
/// changes its own conversation, the budget and the counters, and what comes of
/// it is sent to and asked for that conversation.
pub proof fn law_finished_call_stays_in_its_conversation(
    before: BotView,
    call: Finished,
    cfg: Config,
    other: Seq<char>,
)
    ensures
        ({
            let after = before.after_call(call, cfg);
            let settled = before.settlement(call, cfg);
            &&& !before.awaits(call.id) ==> after == before && before.sends_after(
                call,
                cfg,
            ).len() == 0 && before.job_after(call, cfg) is None
            &&& before.awaits(call.id) ==> {
                &&& after.convos.active[call.id] == settled.convo
                &&& after.budget == settled.budget
                &&& before.sends_after(call, cfg).len() == settled.sends.len()
                &&& forall|i: int|
                    0 <= i < settled.sends.len() ==> #[trigger] before.sends_after(call, cfg)[i]
                        == (call.id, settled.sends[i])
                &&& before.job_after(call, cfg) is Some <==> settled.context is Some
                &&& before.job_after(call, cfg) is Some ==> before.job_after(call, cfg)->0.convo_id
                    == call.id && before.job_after(call, cfg)->0.context == settled.context->0
            }
            &&& other != call.id ==> (after.convos.active.contains_key(other)
                == before.convos.active.contains_key(other))
            &&& other != call.id && before.convos.active.contains_key(other)
                ==> after.convos.active[other] == before.convos.active[other]
            &&& after.convos.known == before.convos.known
            &&& after.convos.demotions == before.convos.demotions
        }),
{
}

/// An event counts once, whatever comes of it, and so does a refusal or a dropped
/// message; nothing else is counted on an event.
pub proof fn law_events_are_counted(
    before: BotView,
    after: BotView,
    event: Event,
    cfg: Config,
    now: nat,
    today: nat,
)
    requires
        crate::bot::course(before, event, cfg, now, today).leads(before, after),
        before.stats.events < u64::MAX,
        before.stats.denies < u64::MAX,
        before.stats.drops < u64::MAX,
    ensures
        ({
            let taken = crate::bot::course(before, event, cfg, now, today);
            let denied = taken is Engaged && taken->reaction.denied;
            let dropped = (taken is Engaged && taken->reaction.dropped) || (taken is Untouched
                && taken->dropped);
            &&& after.stats.events == before.stats.events + 1
            &&& denied ==> after.stats.denies == before.stats.denies + 1
            &&& !denied ==> after.stats.denies == before.stats.denies
            &&& dropped ==> after.stats.drops == before.stats.drops + 1
            &&& !dropped ==> after.stats.drops == before.stats.drops
            &&& after.stats.replies == before.stats.replies
            &&& after.stats.llm_failures == before.stats.llm_failures
        }),
{
}

/// A finished call that was awaited counts as a reply if it was sent, as a
/// failure if it failed, and what it leads to be refused or dropped counts so.
pub proof fn law_finished_calls_are_counted(before: BotView, call: Finished, cfg: Config)
    requires
        before.awaits(call.id),
        before.stats.replies < u64::MAX,
        before.stats.denies < u64::MAX,
        before.stats.drops + before.settlement(call, cfg).dropped <= u64::MAX,
        before.stats.llm_failures < u64::MAX,
    ensures
        ({
            let after = before.after_call(call, cfg);
            let settled = before.settlement(call, cfg);
            let replied = call.result is Ok && call.sent && !before.convos.active[call.id].ignored;
            &&& replied ==> after.stats.replies == before.stats.replies + 1
            &&& !replied ==> after.stats.replies == before.stats.replies
            &&& call.result is Err ==> after.stats.llm_failures == before.stats.llm_failures + 1
            &&& call.result is Ok ==> after.stats.llm_failures == before.stats.llm_failures
            &&& settled.denied ==> after.stats.denies == before.stats.denies + 1
            &&& !settled.denied ==> after.stats.denies == before.stats.denies
            &&& after.stats.drops == before.stats.drops + settled.dropped
            &&& after.stats.events == before.stats.events
        }),
{
}

/// The bot serves until it is asked to stop or there are no more events; from
/// then on it never serves again. Only a bot that was asked to stop leaves what
/// waits unanswered, and once asked it stays so.
pub proof fn law_phases_only_go_forward(phase: Phase, input: Input)
    ensures
        input is Shutdown ==> phase.after(input) == Phase::Draining,
        input is Closed && phase == Phase::Serving ==> phase.after(input) == Phase::Closing,
        input is Event || input is Outcome ==> phase.after(input) == phase,
        phase == Phase::Draining ==> phase.after(input) == Phase::Draining,
        phase != Phase::Serving ==> phase.after(input) != Phase::Serving,
        Phase::Serving.dispatches(),
        Phase::Closing.dispatches(),
        !Phase::Draining.dispatches(),
{
}

/// An active conversation that becomes active again is the same but for the time
/// it was last active.
pub proof fn law_activity_is_all_that_changes(store: StoreView, id: Seq<char>, now: nat)
    requires
        store.active.contains_key(id),
    ensures
        ({
            let then = store.state_at(id, now);
            let convo = store.active[id];
            &&& then.last_active == now
            &&& then.greeted == convo.greeted
            &&& then.ignored == convo.ignored
            &&& then.history == convo.history
            &&& then.limiter == convo.limiter
            &&& then.pending == convo.pending
            &&& then.in_flight == convo.in_flight
        }),
{
}

/// A conversation that becomes active, and was not, starts anew but for the two
/// bits remembered for it; one of which nothing is remembered is neither greeted
/// nor ignored.
pub proof fn law_others_start_anew(store: StoreView, id: Seq<char>, now: nat)
    requires
        store.inv(),
        !store.active.contains_key(id),
    ensures
        ({
            let then = store.state_at(id, now);
            &&& then.last_active == now
            &&& then.history.len() == 0
            &&& then.limiter.window.len() == 0
            &&& then.limiter.muted_until is None
            &&& then.pending.len() == 0
            &&& then.in_flight is None
            &&& forall|i: int|
                0 <= i < store.known.len() && (#[trigger] store.known[i]).0 == id ==> then.greeted
                    == store.known[i].1.greeted && then.ignored == store.known[i].1.ignored
            &&& (forall|i: int| 0 <= i < store.known.len() ==> (#[trigger] store.known[i]).0 != id)
                ==> !then.greeted && !then.ignored
        }),
{
    assert forall|i: int| 0 <= i < store.known.len() && (#[trigger] store.known[i]).0
        == id implies store.state_at(id, now).greeted == store.known[i].1.greeted
        && store.state_at(id, now).ignored == store.known[i].1.ignored by {
        crate::convos::law_remembered_by_the_pair_that_holds_it(store.known, id, i);
    }
    if forall|i: int| 0 <= i < store.known.len() ==> (#[trigger] store.known[i]).0 != id {
        crate::convos::law_remembered_by_the_pair_that_holds_it(store.known, id, 0);
    }
}

} // verus!
