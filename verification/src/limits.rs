//! Bot-side rate limiting. Two layers:
//!
//! - a per-conversation sliding window (anti-flood / fairness), and
//! - a global daily budget of replies and tokens (the real spend cap).
//!
//! All of it is best-effort: conversation state is in memory and identities are
//! free to mint, so a determined sybil evades the per-conversation window. The
//! daily budget is what actually bounds spend, so it can be written to a file
//! and read back after a restart.
use std::collections::VecDeque;

use vstd::prelude::*;
use vstd::string::*;

use crate::text::{chars_of, decimal_text, read_literal, read_number};
use crate::time::{Duration, Instant};

verus! {

/// Rate-limit thresholds, resolved from config.
#[derive(Debug, Clone, Copy)]
pub struct Limits {
    pub per_convo_window: Duration,
    pub per_convo_max_messages: usize,
    pub daily_max_messages: u32,
    pub daily_max_tokens: u64,
    /// How many conversations keep their full state.
    pub max_active_conversations: usize,
    /// How many demoted conversations are remembered.
    pub max_known_conversations: usize,
}

/// What a [`ConvoLimiter`] remembers: the times of the messages it let through
/// in the current window, oldest first, and until when it stays silent.
#[verifier::ext_equal]
pub struct LimiterView {
    pub window: Seq<nat>,
    pub muted_until: Option<nat>,
}

/// What a [`DailyBudget`] has counted on `day`.
pub struct BudgetView {
    pub day: nat,
    pub messages: nat,
    pub tokens: nat,
}

/// The decision for one inbound message, with the reply's text as characters.
pub enum Verdict {
    Allow,
    Deny(Seq<char>),
    SilentlyDrop,
}

/// Per-conversation flood control: a sliding window of recent inbound times
/// plus a mute deadline set when the window trips, so the peer is told once and
/// then met with silence for the rest of the window.
#[derive(Debug)]
pub struct ConvoLimiter {
    window: VecDeque<Instant>,
    muted_until: Option<u128>,
}

impl View for ConvoLimiter {
    type V = LimiterView;

    closed spec fn view(&self) -> LimiterView {
        LimiterView {
            window: self.window@.map_values(|t: Instant| t@),
            muted_until: match self.muted_until {
                Some(t) => Some(t as nat),
                None => None,
            },
        }
    }
}

/// A limiter that has seen nothing.
pub open spec fn idle_limiter() -> LimiterView {
    LimiterView { window: Seq::empty(), muted_until: None }
}

impl Default for ConvoLimiter {
    fn default() -> (limiter: Self)
        ensures
            limiter@ == idle_limiter(),
    {
        ConvoLimiter { window: VecDeque::new(), muted_until: None }
    }
}

/// Global spend cap, reset at each UTC-midnight day boundary. `day` is days
/// since the Unix epoch; a change rolls the counters back to zero.
#[derive(Debug, Clone, Copy, PartialEq, Eq, Structural)]
pub struct DailyBudget {
    day: u64,
    messages: u32,
    tokens: u64,
}

impl View for DailyBudget {
    type V = BudgetView;

    closed spec fn view(&self) -> BudgetView {
        BudgetView {
            day: self.day as nat,
            messages: self.messages as nat,
            tokens: self.tokens as nat,
        }
    }
}

/// A budget of which nothing is spent, on day 0.
pub open spec fn unspent_budget() -> BudgetView {
    BudgetView { day: 0, messages: 0, tokens: 0 }
}

impl Default for DailyBudget {
    fn default() -> (budget: Self)
        ensures
            budget@ == unspent_budget(),
    {
        DailyBudget { day: 0, messages: 0, tokens: 0 }
    }
}

/// The smaller of two numbers.
pub open spec fn min(a: nat, b: nat) -> nat {
    if a <= b {
        a
    } else {
        b
    }
}

impl BudgetView {
    /// The budget seen on `today`: unchanged on its own day, empty on any other.
    pub open spec fn on(self, today: nat) -> BudgetView {
        if self.day == today {
            self
        } else {
            BudgetView { day: today, messages: 0, tokens: 0 }
        }
    }

    /// The budget after one more reply of `tokens` tokens on `today`. The
    /// counters stop at their largest value.
    pub open spec fn with_reply(self, today: nat, tokens: nat) -> BudgetView {
        BudgetView {
            day: today,
            messages: min(self.on(today).messages + 1, u32::MAX as nat),
            tokens: min(self.on(today).tokens + tokens, u64::MAX as nat),
        }
    }

    /// Whether either daily cap is reached.
    pub open spec fn is_exhausted(self, limits: Limits) -> bool {
        self.messages >= limits.daily_max_messages || self.tokens >= limits.daily_max_tokens
    }
}

impl DailyBudget {
    fn rollover(&mut self, today: u64)
        ensures
            final(self)@ == old(self)@.on(today as nat),
    {
        if self.day != today {
            self.day = today;
            self.messages = 0;
            self.tokens = 0;
        }
    }

    /// Record a produced reply and its token usage against today's budget.
    pub fn record(&mut self, today: u64, tokens: u64)
        ensures
            final(self)@ == old(self)@.with_reply(today as nat, tokens as nat),
    {
        self.rollover(today);
        self.messages = self.messages.saturating_add(1);
        self.tokens = self.tokens.saturating_add(tokens);
    }

    /// Whether either daily cap is reached.
    pub fn exhausted(&self, limits: &Limits) -> (res: bool)
        ensures
            res == self@.is_exhausted(*limits),
    {
        self.messages >= limits.daily_max_messages || self.tokens >= limits.daily_max_tokens
    }

    /// This budget as it is seen on `today`.
    pub fn seen_on(&self, today: u64) -> (budget: DailyBudget)
        ensures
            budget@ == self@.on(today as nat),
    {
        let mut budget: DailyBudget = *self;
        budget.rollover(today);
        budget
    }

    /// The replies counted on this budget's day.
    pub fn messages(&self) -> (n: u32)
        ensures
            n == self@.messages,
    {
        self.messages
    }

    /// The tokens counted on this budget's day.
    pub fn tokens(&self) -> (n: u64)
        ensures
            n == self@.tokens,
    {
        self.tokens
    }
}

/// The decision for one inbound message.
#[derive(Debug, PartialEq, Eq)]
pub enum Admission {
    /// Answer it.
    Allow,
    /// Send this one canned reply, then go quiet for the window.
    Deny(String),
    /// Already told the peer once this window; send nothing.
    SilentlyDrop,
}

impl View for Admission {
    type V = Verdict;

    open spec fn view(&self) -> Verdict {
        match self {
            Admission::Allow => Verdict::Allow,
            Admission::Deny(reply) => Verdict::Deny(reply@),
            Admission::SilentlyDrop => Verdict::SilentlyDrop,
        }
    }
}

/// The window without the times at its front that lie `span` or more before
/// `now`.
pub open spec fn slide(window: Seq<nat>, now: nat, span: nat) -> Seq<nat>
    decreases window.len(),
{
    if window.len() > 0 && window[0] + span <= now {
        slide(window.drop_first(), now, span)
    } else {
        window
    }
}

/// The canned reply once the daily budget is spent.
pub open spec fn daily_limit_text() -> Seq<char> {
    "Daily limit reached. Please try again tomorrow."@
}

/// The canned reply to a peer that sends too quickly, when the window is `span`
/// nanoseconds long.
pub open spec fn too_quick_text(span: nat) -> Seq<char> {
    "You're sending messages too quickly. Please try again in about "@ + crate::text::decimal(
        span / (crate::time::NANOS_PER_SEC as nat) / 60 + 1,
    ) + " minute(s)."@
}

/// What an admission decides and leaves behind.
pub struct Admitted {
    pub limiter: LimiterView,
    pub budget: BudgetView,
    pub verdict: Verdict,
}

/// The decision on a message that arrives at `now` on `today`: silence while
/// the conversation is muted; one canned reply, and a mute for one window, when
/// the day's budget is spent or the sliding window is full; otherwise an
/// answer, and the time joins the window.
pub open spec fn admitted(
    convo: LimiterView,
    budget: BudgetView,
    now: nat,
    today: nat,
    limits: Limits,
) -> Admitted {
    let budget = budget.on(today);
    let span = limits.per_convo_window@;
    let muted = convo.muted_until matches Some(until) && now < until;
    let recent = slide(convo.window, now, span);
    if muted {
        Admitted { limiter: convo, budget, verdict: Verdict::SilentlyDrop }
    } else if budget.is_exhausted(limits) {
        Admitted {
            limiter: LimiterView { window: convo.window, muted_until: Some(now + span) },
            budget,
            verdict: Verdict::Deny(daily_limit_text()),
        }
    } else if recent.len() >= limits.per_convo_max_messages {
        Admitted {
            limiter: LimiterView { window: recent, muted_until: Some(now + span) },
            budget,
            verdict: Verdict::Deny(too_quick_text(span)),
        }
    } else {
        Admitted {
            limiter: LimiterView { window: recent.push(now), muted_until: None },
            budget,
            verdict: Verdict::Allow,
        }
    }
}

/// Drop the times at the front of the window that lie `span` or more before
/// `now`.
fn slide_window(window: &mut VecDeque<Instant>, now: Instant, span: u128)
    requires
        span < 0x1_0000_0000_0000_0000 * 1_000_000_000,
    ensures
        final(window)@.map_values(|t: Instant| t@) == slide(
            old(window)@.map_values(|t: Instant| t@),
            now@,
            span as nat,
        ),
{
    while window.len() > 0 && window[0].as_nanos() as u128 + span <= now.as_nanos() as u128
        invariant
            span < 0x1_0000_0000_0000_0000 * 1_000_000_000,
            slide(window@.map_values(|t: Instant| t@), now@, span as nat) == slide(
                old(window)@.map_values(|t: Instant| t@),
                now@,
                span as nat,
            ),
        decreases window@.len(),
    {
        let ghost before = window@.map_values(|t: Instant| t@);
        let _ = window.pop_front();
        assert(window@.map_values(|t: Instant| t@) =~= before.drop_first());
    }
}

/// The reply to a peer that sends too quickly.
fn too_quick_reply(span: &Duration) -> (reply: String)
    ensures
        reply@ == too_quick_text(span@),
{
    let minutes: u64 = span.as_secs() / 60 + 1;
    "You're sending messages too quickly. Please try again in about ".to_owned().concat(
        decimal_text(minutes).as_str(),
    ).concat(" minute(s).")
}

/// Decide whether to answer an inbound message arriving at `now` on `today`.
///
/// Mutates the per-conversation window and mute deadline and rolls the daily
/// budget over to `today`. It does not count the reply: the caller records that
/// on a successful send via [`DailyBudget::record`], so denied and failed
/// messages never consume budget.
pub fn admit_message(
    convo: &mut ConvoLimiter,
    budget: &mut DailyBudget,
    now: Instant,
    today: u64,
    limits: &Limits,
) -> (admission: Admission)
    ensures
        ({
            let decided = admitted(old(convo)@, old(budget)@, now@, today as nat, *limits);
            &&& final(convo)@ == decided.limiter
            &&& final(budget)@ == decided.budget
            &&& admission@ == decided.verdict
        }),
{
    budget.rollover(today);
    let span: u128 = limits.per_convo_window.as_nanos();
    let deadline: u128 = now.as_nanos() as u128 + span;

    if let Some(until) = convo.muted_until {
        if (now.as_nanos() as u128) < until {
            return Admission::SilentlyDrop;
        }
        convo.muted_until = None;
    }
    if budget.exhausted(limits) {
        // Tell the peer once, then go silent for the window like a flood trip,
        // so an exhausted budget does not turn every inbound message into a
        // canned reply.
        convo.muted_until = Some(deadline);
        return Admission::Deny("Daily limit reached. Please try again tomorrow.".to_owned());
    }
    slide_window(&mut convo.window, now, span);

    if convo.window.len() >= limits.per_convo_max_messages {
        convo.muted_until = Some(deadline);
        return Admission::Deny(too_quick_reply(&limits.per_convo_window));
    }
    let ghost before = convo.window@.map_values(|t: Instant| t@);
    convo.window.push_back(now);
    assert(convo.window@.map_values(|t: Instant| t@) =~= before.push(now@));
    Admission::Allow
}

/// A denied peer is told once: every message from then until one window later
/// is met with silence, which leaves the limiter as it is.
pub proof fn law_told_once_then_silence(
    convo: LimiterView,
    budget: BudgetView,
    now: nat,
    today: nat,
    limits: Limits,
    later_budget: BudgetView,
    later: nat,
    later_today: nat,
)
    requires
        admitted(convo, budget, now, today, limits).verdict is Deny,
        later < now + limits.per_convo_window@,
    ensures
        ({
            let denied = admitted(convo, budget, now, today, limits);
            let next = admitted(denied.limiter, later_budget, later, later_today, limits);
            &&& next.verdict is SilentlyDrop
            &&& next.limiter == denied.limiter
        }),
{
}

/// Deciding on a message spends nothing: the budget is only seen on today's
/// date, whatever the decision.
pub proof fn law_admission_spends_nothing(
    convo: LimiterView,
    budget: BudgetView,
    now: nat,
    today: nat,
    limits: Limits,
)
    ensures
        admitted(convo, budget, now, today, limits).budget == budget.on(today),
{
}

/// Once today's replies or tokens have reached their cap, no message that comes
/// in is let through for the rest of the day, in any conversation and however
/// many more replies are recorded.
pub proof fn law_spent_budget_answers_nothing(
    convo: LimiterView,
    budget: BudgetView,
    more_tokens: nat,
    now: nat,
    today: nat,
    limits: Limits,
)
    requires
        budget.on(today).is_exhausted(limits),
    ensures
        !(admitted(convo, budget, now, today, limits).verdict is Allow),
        budget.with_reply(today, more_tokens).on(today).is_exhausted(limits),
{
}

/// A new day starts with nothing spent, whatever was spent before.
pub proof fn law_new_day_resets_the_budget(budget: BudgetView, today: nat)
    requires
        budget.day != today,
    ensures
        budget.on(today) == (BudgetView { day: today, messages: 0, tokens: 0 }),
{
}

/// One message that reaches a conversation, with the budget as it stands then.
pub struct Arrival {
    pub now: nat,
    pub today: nat,
    pub budget: BudgetView,
}

/// Whether messages arrive in the order of the clock.
pub open spec fn in_clock_order(arrivals: Seq<Arrival>) -> bool {
    forall|i: int, j: int|
        0 <= i <= j < arrivals.len() ==> (#[trigger] arrivals[i]).now <= (
        #[trigger] arrivals[j]).now
}

/// The limiter of a conversation after all of `arrivals`.
pub open spec fn limiter_after(arrivals: Seq<Arrival>, limits: Limits) -> LimiterView
    decreases arrivals.len(),
{
    if arrivals.len() == 0 {
        idle_limiter()
    } else {
        let a = arrivals.last();
        admitted(
            limiter_after(arrivals.drop_last(), limits),
            a.budget,
            a.now,
            a.today,
            limits,
        ).limiter
    }
}

/// The times of those of `arrivals` that are answered.
pub open spec fn answered_times(arrivals: Seq<Arrival>, limits: Limits) -> Seq<nat>
    decreases arrivals.len(),
{
    if arrivals.len() == 0 {
        Seq::empty()
    } else {
        let a = arrivals.last();
        let before = answered_times(arrivals.drop_last(), limits);
        let limiter = limiter_after(arrivals.drop_last(), limits);
        if admitted(limiter, a.budget, a.now, a.today, limits).verdict is Allow {
            before.push(a.now)
        } else {
            before
        }
    }
}

/// Sliding drops times from the front, each of them a whole span old.
proof fn lemma_slide_drops_a_prefix(window: Seq<nat>, now: nat, span: nat) -> (k: int)
    ensures
        0 <= k <= window.len(),
        slide(window, now, span) == window.skip(k),
        forall|i: int| 0 <= i < k ==> #[trigger] window[i] + span <= now,
    decreases window.len(),
{
    if window.len() > 0 && window[0] + span <= now {
        let rest = window.drop_first();
        let k = lemma_slide_drops_a_prefix(rest, now, span);
        assert(rest.skip(k) =~= window.skip(k + 1));
        assert forall|i: int| 0 <= i < k + 1 implies #[trigger] window[i] + span <= now by {
            if i > 0 {
                assert(rest[i - 1] == window[i]);
            }
        }
        k + 1
    } else {
        assert(window.skip(0) =~= window);
        0
    }
}

/// The window holds the latest answered times; those it has dropped are a whole
/// span older than the last arrival.
proof fn lemma_window_holds_the_latest(arrivals: Seq<Arrival>, limits: Limits) -> (k: int)
    requires
        in_clock_order(arrivals),
    ensures
        0 <= k <= answered_times(arrivals, limits).len(),
        limiter_after(arrivals, limits).window == answered_times(arrivals, limits).skip(k),
        limiter_after(arrivals, limits).window.len() <= limits.per_convo_max_messages,
        forall|i: int|
            0 <= i < k ==> arrivals.len() > 0 && #[trigger] answered_times(arrivals, limits)[i]
                + limits.per_convo_window@ <= arrivals.last().now,
        forall|i: int|
            0 <= i < answered_times(arrivals, limits).len() ==> arrivals.len() > 0
                && #[trigger] answered_times(arrivals, limits)[i] <= arrivals.last().now,
        forall|i: int|
            0 <= i && i + limits.per_convo_max_messages < answered_times(arrivals, limits).len()
                ==> #[trigger] answered_times(arrivals, limits)[i] + limits.per_convo_window@
                <= answered_times(arrivals, limits)[i + limits.per_convo_max_messages],
    decreases arrivals.len(),
{
    let times = answered_times(arrivals, limits);
    if arrivals.len() == 0 {
        assert(times.skip(0) =~= times);
        0
    } else {
        let a = arrivals.last();
        let earlier = arrivals.drop_last();
        let before = answered_times(earlier, limits);
        let limiter = limiter_after(earlier, limits);
        let span = limits.per_convo_window@;
        let max = limits.per_convo_max_messages as int;
        let k0 = lemma_window_holds_the_latest(earlier, limits);
        let verdict = admitted(limiter, a.budget, a.now, a.today, limits).verdict;
        if earlier.len() > 0 {
            assert(earlier.last() == arrivals[arrivals.len() - 2]);
            assert(earlier.last().now <= a.now);
        }
        let dropped = lemma_slide_drops_a_prefix(limiter.window, a.now, span);
        let k1 = k0 + dropped;
        assert(before.skip(k0).skip(dropped) =~= before.skip(k1));
        assert forall|i: int| 0 <= i < k1 implies #[trigger] before[i] + span <= a.now by {
            if i >= k0 {
                assert(limiter.window[i - k0] == before[i]);
            }
        }
        if verdict is Allow {
            assert(times == before.push(a.now));
            assert(before.skip(k1).push(a.now) =~= times.skip(k1));
            assert forall|i: int| 0 <= i && i + max < times.len() implies #[trigger] times[i] + span
                <= times[i + max] by {
                assert(times[i] == before[i]);
            }
            k1
        } else if limiter_after(arrivals, limits).window == limiter.window {
            k0
        } else {
            k1
        }
    }
}

/// The sliding window keeps its promise: however fast a conversation sends, of
/// any run of answered messages one longer than the window's maximum, the last
/// comes a whole window or more after the first.
pub proof fn law_at_most_max_answers_per_window(arrivals: Seq<Arrival>, limits: Limits, i: int)
    requires
        in_clock_order(arrivals),
        0 <= i,
        i + limits.per_convo_max_messages < answered_times(arrivals, limits).len(),
    ensures
        answered_times(arrivals, limits)[i] + limits.per_convo_window@ <= answered_times(
            arrivals,
            limits,
        )[i + limits.per_convo_max_messages],
{
    let _ = lemma_window_holds_the_latest(arrivals, limits);
}

/// A conversation's limiter never holds more times than the window's maximum,
/// whatever order its messages come in.
pub proof fn law_window_is_bounded(arrivals: Seq<Arrival>, limits: Limits)
    ensures
        limiter_after(arrivals, limits).window.len() <= limits.per_convo_max_messages,
    decreases arrivals.len(),
{
    if arrivals.len() > 0 {
        let a = arrivals.last();
        law_window_is_bounded(arrivals.drop_last(), limits);
        let _ = lemma_slide_drops_a_prefix(
            limiter_after(arrivals.drop_last(), limits).window,
            a.now,
            limits.per_convo_window@,
        );
    }
}

/// Recording a reply counts it once on its day, whatever the tokens it took, and
/// adds its tokens to those of the day; the counters only stop at their largest
/// values. What was counted on another day is forgotten.
pub proof fn law_recorded_reply_counts_once(budget: BudgetView, today: nat, tokens: nat)
    requires
        fits(budget),
    ensures
        ({
            let after = budget.with_reply(today, tokens);
            &&& after.day == today
            &&& budget.day == today && budget.messages < u32::MAX ==> after.messages
                == budget.messages + 1
            &&& budget.day == today && budget.messages == u32::MAX ==> after.messages == u32::MAX
            &&& budget.day == today && budget.tokens + tokens <= u64::MAX ==> after.tokens
                == budget.tokens + tokens
            &&& budget.day == today && budget.tokens + tokens > u64::MAX ==> after.tokens
                == u64::MAX
            &&& budget.day != today ==> after.messages == 1
            &&& budget.day != today && tokens <= u64::MAX ==> after.tokens == tokens
        }),
{
}

/// Two replies count the same in either order, and one more than one of them
/// does, even where neither reports a token.
pub proof fn law_every_reply_counts(budget: BudgetView, today: nat, one: nat, other: nat)
    requires
        fits(budget),
        budget.on(today).messages + 2 <= u32::MAX,
    ensures
        budget.with_reply(today, one).with_reply(today, other) == budget.with_reply(
            today,
            other,
        ).with_reply(today, one),
        budget.with_reply(today, one).with_reply(today, other).messages == budget.on(
            today,
        ).messages + 2,
{
}

/// On its own day a budget is seen as it is.
pub proof fn law_budget_stands_for_its_day(budget: BudgetView)
    ensures
        budget.on(budget.day) == budget,
{
}

/// The budget is left exactly as long as both counters are below their caps.
pub proof fn law_budget_is_spent_at_either_cap(budget: BudgetView, limits: Limits)
    ensures
        !budget.is_exhausted(limits) <==> budget.messages < limits.daily_max_messages
            && budget.tokens < limits.daily_max_tokens,
{
}

/// Whether times are in the order of the clock.
pub open spec fn times_in_order(times: Seq<nat>) -> bool {
    forall|i: int, j: int|
        0 <= i <= j < times.len() ==> (#[trigger] times[i]) <= (#[trigger] times[j])
}

/// Those of `times` that lie in the window of `span` that ends `now`.
pub open spec fn within(times: Seq<nat>, now: nat, span: nat) -> Seq<nat> {
    times.filter(|t: nat| now < t + span)
}

/// Where each is kept, all are; where none is, none are.
proof fn lemma_filter_all_or_none(times: Seq<nat>, now: nat, span: nat)
    ensures
        (forall|i: int| 0 <= i < times.len() ==> now < #[trigger] times[i] + span) ==> within(
            times,
            now,
            span,
        ) == times,
        (forall|i: int| 0 <= i < times.len() ==> #[trigger] times[i] + span <= now) ==> within(
            times,
            now,
            span,
        ) == Seq::<nat>::empty(),
    decreases times.len(),
{
    reveal(Seq::filter);
    if times.len() > 0 {
        let front = times.drop_last();
        lemma_filter_all_or_none(front, now, span);
        assert(times =~= front.push(times.last()));
        assert(times[times.len() - 1] == times.last());
        if forall|i: int| 0 <= i < times.len() ==> now < #[trigger] times[i] + span {
            assert forall|i: int| 0 <= i < front.len() implies now < #[trigger] front[i] + span by {
                assert(front[i] == times[i]);
            }
        }
        if forall|i: int| 0 <= i < times.len() ==> #[trigger] times[i] + span <= now {
            assert forall|i: int| 0 <= i < front.len() implies #[trigger] front[i] + span <= now by {
                assert(front[i] == times[i]);
            }
        }
    } else {
        assert(within(times, now, span) =~= times);
    }
}

/// Dropping times from the front that lie outside the window leaves those within
/// it.
proof fn lemma_within_skip(times: Seq<nat>, now: nat, span: nat, k: int)
    requires
        0 <= k <= times.len(),
        forall|i: int| 0 <= i < k ==> #[trigger] times[i] + span <= now,
    ensures
        within(times.skip(k), now, span) == within(times, now, span),
{
    let old_times = times.take(k);
    let rest = times.skip(k);
    assert(times =~= old_times + rest);
    Seq::filter_distributes_over_add(old_times, rest, |t: nat| now < t + span);
    lemma_filter_all_or_none(old_times, now, span);
    assert forall|i: int| 0 <= i < old_times.len() implies #[trigger] old_times[i] + span <= now by {
        assert(old_times[i] == times[i]);
    }
    assert(within(old_times, now, span) + within(rest, now, span) =~= within(rest, now, span));
}

/// Sliding leaves exactly the times within the window that ends now, where times
/// are in the order of the clock: each leaves it when it is a whole window old,
/// and no sooner.
pub proof fn law_sliding_leaves_what_is_within_the_window(window: Seq<nat>, now: nat, span: nat)
    requires
        times_in_order(window),
    ensures
        slide(window, now, span) == within(window, now, span),
{
    let k = lemma_slide_drops_a_prefix(window, now, span);
    let rest = window.skip(k);
    lemma_slide_stops(window, now, span);
    lemma_within_skip(window, now, span, k);
    assert forall|i: int| 0 <= i < rest.len() implies now < #[trigger] rest[i] + span by {
        assert(rest[0] == window[k]);
        assert(rest[i] == window[k + i]);
    }
    lemma_filter_all_or_none(rest, now, span);
}

/// Sliding stops at a time that is within the window.
proof fn lemma_slide_stops(window: Seq<nat>, now: nat, span: nat)
    ensures
        slide(window, now, span).len() > 0 ==> now < slide(window, now, span)[0] + span,
    decreases window.len(),
{
    if window.len() > 0 && window[0] + span <= now {
        lemma_slide_stops(window.drop_first(), now, span);
    }
}

/// What decides on a message: it is answered exactly if the conversation is not
/// muted, both daily counters are below their caps, and fewer messages than the
/// maximum were let through in the window that ends now. A muted conversation is
/// met with silence and left as it is. Otherwise the peer is told which limit it
/// met, and muted for one window from now.
pub proof fn law_admission_is_decided_by_mute_budget_and_window(
    convo: LimiterView,
    budget: BudgetView,
    now: nat,
    today: nat,
    limits: Limits,
)
    requires
        times_in_order(convo.window),
    ensures
        ({
            let decided = admitted(convo, budget, now, today, limits);
            let span = limits.per_convo_window@;
            let recent = within(convo.window, now, span);
            let muted = convo.muted_until is Some && now < convo.muted_until->0;
            let left = budget.day != today || (budget.messages < limits.daily_max_messages
                && budget.tokens < limits.daily_max_tokens);
            let room = recent.len() < limits.per_convo_max_messages;
            let allowed = limits.daily_max_messages > 0 && limits.daily_max_tokens > 0;
            &&& decided.verdict is SilentlyDrop <==> muted
            &&& decided.verdict is Allow <==> !muted && left && allowed && room
            &&& muted ==> decided.limiter == convo
            &&& decided.verdict is Allow ==> decided.limiter.window == recent.push(now)
                && decided.limiter.muted_until is None
            &&& decided.verdict is Deny ==> decided.limiter.muted_until == Some(now + span)
                && within(decided.limiter.window, now, span) == recent
            &&& !muted && !(left && allowed) ==> decided.verdict == Verdict::Deny(
                "Daily limit reached. Please try again tomorrow."@,
            )
            &&& !muted && left && allowed && !room ==> decided.verdict == Verdict::Deny(
                "You're sending messages too quickly. Please try again in about "@
                    + crate::text::decimal(span / 60_000_000_000 + 1) + " minute(s)."@,
            )
        }),
{
    let span = limits.per_convo_window@;
    law_sliding_leaves_what_is_within_the_window(convo.window, now, span);
    let k = lemma_slide_drops_a_prefix(convo.window, now, span);
    lemma_within_skip(convo.window, now, span, k);
    assert(span / 1_000_000_000 / 60 == span / 60_000_000_000) by (nonlinear_arith);
}

/// The times of those of `arrivals` that are denied.
pub open spec fn denied_times(arrivals: Seq<Arrival>, limits: Limits) -> Seq<nat>
    decreases arrivals.len(),
{
    if arrivals.len() == 0 {
        Seq::empty()
    } else {
        let a = arrivals.last();
        let before = denied_times(arrivals.drop_last(), limits);
        let limiter = limiter_after(arrivals.drop_last(), limits);
        if admitted(limiter, a.budget, a.now, a.today, limits).verdict is Deny {
            before.push(a.now)
        } else {
            before
        }
    }
}

/// Until when a conversation is muted: one window after it was denied last,
/// unless a message was let through since.
proof fn lemma_muted_since_denied(arrivals: Seq<Arrival>, limits: Limits)
    requires
        in_clock_order(arrivals),
    ensures
        ({
            let denied = denied_times(arrivals, limits);
            let muted_until = limiter_after(arrivals, limits).muted_until;
            &&& forall|i: int|
                0 <= i < denied.len() ==> arrivals.len() > 0 && #[trigger] denied[i]
                    <= arrivals.last().now
            &&& muted_until is Some ==> denied.len() > 0 && muted_until->0 == denied.last()
                + limits.per_convo_window@
            &&& muted_until is None ==> forall|i: int|
                0 <= i < denied.len() ==> #[trigger] denied[i] + limits.per_convo_window@
                    <= arrivals.last().now
            &&& times_in_order(denied)
        }),
    decreases arrivals.len(),
{
    if arrivals.len() > 0 {
        let earlier = arrivals.drop_last();
        lemma_muted_since_denied(earlier, limits);
        let before = denied_times(earlier, limits);
        let denied = denied_times(arrivals, limits);
        if earlier.len() > 0 {
            assert(earlier.last() == arrivals[arrivals.len() - 2]);
            assert(earlier.last().now <= arrivals.last().now);
        }
        if before.len() > 0 {
            assert forall|i: int| 0 <= i < before.len() implies #[trigger] before[i]
                <= before.last() by {}
        }
        assert forall|i: int| 0 <= i < denied.len() implies #[trigger] denied[i]
            <= arrivals.last().now by {
            if i < before.len() {
                assert(denied[i] == before[i]);
            }
        }
        if limiter_after(arrivals, limits).muted_until is None {
            assert forall|i: int| 0 <= i < denied.len() implies #[trigger] denied[i]
                + limits.per_convo_window@ <= arrivals.last().now by {
                assert(denied[i] == before[i]);
            }
        }
    }
}

/// A peer that was told is met with silence for exactly one window: a message is
/// met with silence if and only if an earlier one was denied less than a window
/// ago.
pub proof fn law_silence_lasts_one_window_from_a_denial(
    arrivals: Seq<Arrival>,
    limits: Limits,
    next: Arrival,
)
    requires
        in_clock_order(arrivals.push(next)),
    ensures
        admitted(
            limiter_after(arrivals, limits),
            next.budget,
            next.now,
            next.today,
            limits,
        ).verdict is SilentlyDrop <==> exists|i: int|
            0 <= i < denied_times(arrivals, limits).len() && next.now < #[trigger] denied_times(
                arrivals,
                limits,
            )[i] + limits.per_convo_window@,
{
    lemma_prefix_in_clock_order(arrivals, next);
    lemma_muted_since_denied(arrivals, limits);
    let denied = denied_times(arrivals, limits);
    if arrivals.len() > 0 {
        assert(arrivals.push(next)[arrivals.len() - 1] == arrivals.last());
        assert(arrivals.push(next)[arrivals.len() as int] == next);
    }
    if denied.len() > 0 {
        assert(denied[denied.len() - 1] == denied.last());
        assert forall|i: int| 0 <= i < denied.len() implies #[trigger] denied[i]
            <= denied.last() by {}
    }
}

/// What comes before in the order of the clock is in that order.
proof fn lemma_prefix_in_clock_order(arrivals: Seq<Arrival>, next: Arrival)
    requires
        in_clock_order(arrivals.push(next)),
    ensures
        in_clock_order(arrivals),
{
    let all = arrivals.push(next);
    assert forall|i: int, j: int| 0 <= i <= j < arrivals.len() implies (#[trigger] arrivals[i]).now
        <= (#[trigger] arrivals[j]).now by {
        assert(all[i] == arrivals[i]);
        assert(all[j] == arrivals[j]);
    }
}

/// Whoever keeps to the limits is answered: a message is answered exactly if no
/// earlier one was denied less than a window ago, the budget is left, and fewer
/// than the maximum were answered in the window that ends now.
pub proof fn law_answered_while_there_is_room(
    arrivals: Seq<Arrival>,
    limits: Limits,
    next: Arrival,
)
    requires
        in_clock_order(arrivals.push(next)),
    ensures
        ({
            let span = limits.per_convo_window@;
            admitted(
                limiter_after(arrivals, limits),
                next.budget,
                next.now,
                next.today,
                limits,
            ).verdict is Allow <==> {
                &&& forall|i: int|
                    0 <= i < denied_times(arrivals, limits).len() ==> #[trigger] denied_times(
                        arrivals,
                        limits,
                    )[i] + span <= next.now
                &&& !next.budget.on(next.today).is_exhausted(limits)
                &&& within(answered_times(arrivals, limits), next.now, span).len()
                    < limits.per_convo_max_messages
            }
        }),
{
    let span = limits.per_convo_window@;
    let limiter = limiter_after(arrivals, limits);
    law_silence_lasts_one_window_from_a_denial(arrivals, limits, next);
    lemma_prefix_in_clock_order(arrivals, next);
    let k = lemma_window_holds_the_latest(arrivals, limits);
    lemma_answered_in_order(arrivals, limits);
    let times = answered_times(arrivals, limits);
    if arrivals.len() > 0 {
        assert(arrivals.push(next)[arrivals.len() - 1] == arrivals.last());
        assert(arrivals.push(next)[arrivals.len() as int] == next);
    }
    assert forall|i: int| 0 <= i < k implies #[trigger] times[i] + span <= next.now by {}
    lemma_within_skip(times, next.now, span, k);
    assert forall|i: int, j: int| 0 <= i <= j < limiter.window.len() implies (
    #[trigger] limiter.window[i]) <= (#[trigger] limiter.window[j]) by {
        assert(limiter.window[i] == times[i + k]);
        assert(limiter.window[j] == times[j + k]);
    }
    law_sliding_leaves_what_is_within_the_window(limiter.window, next.now, span);
}

/// Messages are answered in the order in which they come.
proof fn lemma_answered_in_order(arrivals: Seq<Arrival>, limits: Limits)
    requires
        in_clock_order(arrivals),
    ensures
        times_in_order(answered_times(arrivals, limits)),
    decreases arrivals.len(),
{
    if arrivals.len() > 0 {
        let earlier = arrivals.drop_last();
        lemma_answered_in_order(earlier, limits);
        let before = answered_times(earlier, limits);
        let times = answered_times(arrivals, limits);
        let _ = lemma_window_holds_the_latest(arrivals, limits);
        assert forall|i: int, j: int| 0 <= i <= j < times.len() implies (#[trigger] times[i]) <= (
        #[trigger] times[j]) by {
            if j < before.len() {
                assert(times[i] == before[i] && times[j] == before[j]);
            } else {
                assert(times[j] == arrivals.last().now);
            }
        }
    }
}

/// Whether the counters fit in a [`DailyBudget`].
pub open spec fn fits(budget: BudgetView) -> bool {
    budget.day <= u64::MAX && budget.messages <= u32::MAX && budget.tokens <= u64::MAX
}

/// The text of the file that keeps a budget over a restart.
pub open spec fn budget_text(budget: BudgetView) -> Seq<char> {
    "{\"day\":"@ + crate::text::decimal(budget.day) + ",\"messages\":"@ + crate::text::decimal(
        budget.messages,
    ) + ",\"tokens\":"@ + crate::text::decimal(budget.tokens) + "}"@
}

/// A number that stands between two pieces of text, the second of which starts
/// with no digit, is read back where it stands.
proof fn lemma_number_in_text(s: Seq<char>, before: Seq<char>, n: nat, after: Seq<char>)
    requires
        s == before + crate::text::decimal(n) + after,
        after.len() > 0,
        !crate::text::is_digit(after[0]),
    ensures
        ({
            let from = before.len() as int;
            let to = from + crate::text::decimal(n).len();
            &&& crate::text::digits_end(s, from) == to
            &&& from < to <= s.len()
            &&& s.subrange(from, to) == crate::text::decimal(n)
            &&& crate::text::decimal_value(s.subrange(from, to)) == n
        }),
{
    crate::text::law_decimal_reads_back(n);
    let from = before.len() as int;
    let to = from + crate::text::decimal(n).len();
    assert(s.subrange(from, to) =~= crate::text::decimal(n));
    assert forall|i: int| from <= i < to implies crate::text::is_digit(#[trigger] s[i]) by {
        assert(s[i] == crate::text::decimal(n)[i - from]);
    }
    assert(s[to] == after[0]);
    crate::text::lemma_digits_end(s, from, to);
}

/// Where three numbers stand that four pieces of text hold apart.
proof fn lemma_three_numbers_in_text(
    open: Seq<char>,
    x: nat,
    second: Seq<char>,
    y: nat,
    third: Seq<char>,
    z: nat,
    close: Seq<char>,
)
    requires
        second.len() > 0 && !crate::text::is_digit(second[0]),
        third.len() > 0 && !crate::text::is_digit(third[0]),
        close.len() > 0 && !crate::text::is_digit(close[0]),
    ensures
        ({
            let s = open + crate::text::decimal(x) + second + crate::text::decimal(y) + third
                + crate::text::decimal(z) + close;
            let p1 = open.len() as int;
            let p2 = crate::text::digits_end(s, p1);
            let p3 = p2 + second.len();
            let p4 = crate::text::digits_end(s, p3);
            let p5 = p4 + third.len();
            let p6 = crate::text::digits_end(s, p5);
            &&& 0 <= p1 < p2 < p3 < p4 < p5 < p6 < s.len()
            &&& s.subrange(0, p1) == open
            &&& crate::text::decimal_value(s.subrange(p1, p2)) == x
            &&& s.subrange(p2, p3) == second
            &&& crate::text::decimal_value(s.subrange(p3, p4)) == y
            &&& s.subrange(p4, p5) == third
            &&& crate::text::decimal_value(s.subrange(p5, p6)) == z
        }),
{
    let dx = crate::text::decimal(x);
    let dy = crate::text::decimal(y);
    let dz = crate::text::decimal(z);
    let s = open + dx + second + dy + third + dz + close;
    let after_x = second + dy + third + dz + close;
    let after_y = third + dz + close;
    assert(s =~= open + dx + after_x);
    assert(after_x[0] == second[0]);
    lemma_number_in_text(s, open, x, after_x);
    assert(s =~= (open + dx + second) + dy + after_y);
    assert(after_y[0] == third[0]);
    lemma_number_in_text(s, open + dx + second, y, after_y);
    lemma_number_in_text(s, open + dx + second + dy + third, z, close);
    let p1 = open.len() as int;
    let p2 = p1 + dx.len();
    let p3 = p2 + second.len();
    let p4 = p3 + dy.len();
    let p5 = p4 + third.len();
    assert(s.subrange(0, p1) =~= open);
    assert(s.subrange(p2, p3) =~= second);
    assert(s.subrange(p4, p5) =~= third);
}

/// Where the parts of a saved budget stand in its text.
proof fn lemma_budget_text_layout(b: BudgetView)
    ensures
        ({
            let s = budget_text(b);
            let p1 = "{\"day\":"@.len() as int;
            let p2 = crate::text::digits_end(s, p1);
            let p3 = p2 + ",\"messages\":"@.len();
            let p4 = crate::text::digits_end(s, p3);
            let p5 = p4 + ",\"tokens\":"@.len();
            let p6 = crate::text::digits_end(s, p5);
            &&& 0 <= p1 < p2 < p3 < p4 < p5 < p6 < s.len()
            &&& s.subrange(0, p1) == "{\"day\":"@
            &&& crate::text::decimal_value(s.subrange(p1, p2)) == b.day
            &&& s.subrange(p2, p3) == ",\"messages\":"@
            &&& crate::text::decimal_value(s.subrange(p3, p4)) == b.messages
            &&& s.subrange(p4, p5) == ",\"tokens\":"@
            &&& crate::text::decimal_value(s.subrange(p5, p6)) == b.tokens
        }),
{
    reveal_strlit(",\"messages\":");
    reveal_strlit(",\"tokens\":");
    reveal_strlit("}");
    lemma_three_numbers_in_text(
        "{\"day\":"@,
        b.day,
        ",\"messages\":"@,
        b.messages,
        ",\"tokens\":"@,
        b.tokens,
        "}"@,
    );
}

/// A saved budget can be told from its text: two budgets that are written alike
/// are the same budget.
pub proof fn law_saved_budget_is_told_from_its_text(a: BudgetView, b: BudgetView)
    requires
        budget_text(a) == budget_text(b),
    ensures
        a == b,
{
    lemma_budget_text_layout(a);
    lemma_budget_text_layout(b);
}

/// Whether `budget` is what a restart makes of `text`: the budget saved there,
/// or an unspent one if no budget is saved like that.
pub open spec fn is_restored_from(budget: BudgetView, text: Seq<char>) -> bool {
    ||| fits(budget) && text == budget_text(budget)
    ||| budget == unspent_budget() && forall|b: BudgetView|
        fits(b) ==> text != #[trigger] budget_text(b)
}

impl DailyBudget {
    /// The text to save, so that a restart does not reset the spend cap.
    pub fn to_json(&self) -> (text: String)
        ensures
            text@ == budget_text(self@),
            fits(self@),
    {
        "{\"day\":".to_owned().concat(decimal_text(self.day).as_str()).concat(
            ",\"messages\":",
        ).concat(decimal_text(self.messages as u64).as_str()).concat(",\"tokens\":").concat(
            decimal_text(self.tokens).as_str(),
        ).concat("}")
    }

    /// The counters that a text seems to hold; [`DailyBudget::from_json`] still
    /// has to see whether they would be written like that.
    fn scan_json(text: &str) -> (found: Option<DailyBudget>)
        ensures
            forall|b: BudgetView|
                fits(b) && text@ == #[trigger] budget_text(b) ==> found is Some && found->0@ == b,
    {
        let chars: Vec<char> = chars_of(text);
        proof {
            assert forall|b: BudgetView| fits(b) && text@ == #[trigger] budget_text(b) implies ({
                let p1 = "{\"day\":"@.len() as int;
                let p2 = crate::text::digits_end(text@, p1);
                let p3 = p2 + ",\"messages\":"@.len();
                let p4 = crate::text::digits_end(text@, p3);
                let p5 = p4 + ",\"tokens\":"@.len();
                let p6 = crate::text::digits_end(text@, p5);
                &&& 0 <= p1 < p2 < p3 < p4 < p5 < p6 < text@.len()
                &&& text@.subrange(0, p1) == "{\"day\":"@
                &&& crate::text::decimal_value(text@.subrange(p1, p2)) == b.day
                &&& text@.subrange(p2, p3) == ",\"messages\":"@
                &&& crate::text::decimal_value(text@.subrange(p3, p4)) == b.messages
                &&& text@.subrange(p4, p5) == ",\"tokens\":"@
                &&& crate::text::decimal_value(text@.subrange(p5, p6)) == b.tokens
            }) by {
                lemma_budget_text_layout(b);
            }
        }
        let at_day: usize = match read_literal(&chars, 0, "{\"day\":") {
            Some(end) => end,
            None => {
                return None;
            },
        };
        let (day, end_day) = read_number(&chars, at_day);
        let at_messages: usize = match read_literal(&chars, end_day, ",\"messages\":") {
            Some(end) => end,
            None => {
                return None;
            },
        };
        let (messages, end_messages) = read_number(&chars, at_messages);
        let at_tokens: usize = match read_literal(&chars, end_messages, ",\"tokens\":") {
            Some(end) => end,
            None => {
                return None;
            },
        };
        let (tokens, end_tokens) = read_number(&chars, at_tokens);
        match (day, messages, tokens) {
            (Some(day), Some(messages), Some(tokens)) => {
                if messages > u32::MAX as u64 {
                    return None;
                }
                Some(DailyBudget { day, messages: messages as u32, tokens })
            },
            _ => None,
        }
    }

    /// The budget that was saved as `text`, or `None` if no budget is saved
    /// like that.
    pub fn from_json(text: &str) -> (saved: Option<DailyBudget>)
        ensures
            match saved {
                Some(budget) => fits(budget@) && text@ == budget_text(budget@),
                None => forall|b: BudgetView| fits(b) ==> text@ != #[trigger] budget_text(b),
            },
    {
        match DailyBudget::scan_json(text) {
            Some(budget) => {
                if budget.to_json() == text.to_owned() {
                    Some(budget)
                } else {
                    None
                }
            },
            None => None,
        }
    }

    /// The budget to start with: the saved one if there is one to be read, an
    /// unspent one otherwise.
    pub fn restore(saved: Option<&str>) -> (budget: DailyBudget)
        ensures
            match saved {
                Some(text) => is_restored_from(budget@, text@),
                None => budget@ == unspent_budget(),
            },
    {
        match saved {
            Some(text) => match DailyBudget::from_json(text) {
                Some(budget) => budget,
                None => DailyBudget::default(),
            },
            None => DailyBudget::default(),
        }
    }
}

/// A restart does not reset the spend cap: what a restart makes of the text
/// that a budget was saved as is that budget.
pub proof fn law_restart_keeps_the_budget(before: BudgetView, restored: BudgetView)
    requires
        fits(before),
        is_restored_from(restored, budget_text(before)),
    ensures
        restored == before,
{
    if fits(restored) && budget_text(before) == budget_text(restored) {
        law_saved_budget_is_told_from_its_text(restored, before);
    }
}

/// A budget is seen whole: its day and both its counters. A new one has counted
/// nothing.
proof fn law_budget_is_seen_whole(budget: DailyBudget)
    ensures
        budget@.day == budget.day,
        budget@.messages == budget.messages,
        budget@.tokens == budget.tokens,
        unspent_budget().messages == 0,
        unspent_budget().tokens == 0,
        unspent_budget().day == 0,
{
}

/// A limiter is seen whole: every time in its window, in order, and until when it
/// stays silent. A new one holds no time and is not muted.
proof fn law_limiter_is_seen_whole(limiter: ConvoLimiter, i: int)
    ensures
        limiter@.window.len() == limiter.window@.len(),
        0 <= i < limiter.window@.len() ==> limiter@.window[i] == limiter.window@[i]@,
        limiter.muted_until is None <==> limiter@.muted_until is None,
        limiter.muted_until is Some ==> limiter@.muted_until == Some(
            limiter.muted_until->0 as nat,
        ),
        idle_limiter().window.len() == 0,
        idle_limiter().muted_until is None,
{
}

/// A decision is seen as it is, with the whole of a canned reply.
pub proof fn law_admission_is_seen_whole(reply: String)
    ensures
        Admission::Allow@ is Allow,
        Admission::Deny(reply)@ == Verdict::Deny(reply@),
        Admission::SilentlyDrop@ is SilentlyDrop,
{
}

/// A file that no budget is saved as is treated as none: the bot starts with
/// nothing spent. One that a budget is saved as gives that budget and no other.
pub proof fn law_only_a_saved_budget_is_restored(
    restored: BudgetView,
    saved: BudgetView,
    text: Seq<char>,
)
    requires
        is_restored_from(restored, text),
    ensures
        fits(saved) && text == budget_text(saved) ==> restored == saved,
        (forall|b: BudgetView| fits(b) ==> text != #[trigger] budget_text(b)) ==> restored.messages
            == 0 && restored.tokens == 0,
        restored.messages > 0 || restored.tokens > 0 ==> text == budget_text(restored),
{
    if fits(saved) && text == budget_text(saved) {
        law_restart_keeps_the_budget(saved, restored);
    }
}

} // verus!
