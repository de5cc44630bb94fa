//! Bounded per-conversation state.
//!
//! Identities are free to mint, so the set of conversations the bot has seen is
//! attacker-growable and cannot be kept in full forever. Two tiers bound it:
//!
//! - the **active** tier holds full state (history, flood limiter, the in-flight
//!   reply and its queue) for the most recently active conversations, capped and
//!   evicted least-recently-active; an in-flight conversation is never evicted so
//!   a reply in progress always finds its state, and
//! - the **skeleton** tier holds just two bits (greeted, ignored) for demoted
//!   conversations, so a returning peer is neither greeted twice nor
//!   misclassified, capped and evicted oldest-first.
//!
//! A conversation absent from both tiers is genuinely unknown; the caller
//! decides how to treat it.
use std::collections::VecDeque;

use vstd::prelude::*;
use vstd::string::*;

use crate::limits::{ConvoLimiter, LimiterView};
use crate::llm::{Turn, TurnView};
use crate::time::Instant;

verus! {

/// Full state for an actively-tracked conversation.
#[derive(Debug)]
pub struct ConvoState {
    pub greeted: bool,
    /// True for a conversation the bot stays out of (a group under
    /// `ignore_groups`); messages on it are dropped.
    pub ignored: bool,
    pub history: Vec<Turn>,
    pub limiter: ConvoLimiter,
    /// Admitted messages that arrived while an LLM call for this conversation
    /// was in flight, kept so its replies stay in order.
    pub pending: VecDeque<String>,
    /// The user message currently being answered, or `None` when idle. Set on
    /// dispatch and cleared on completion.
    pub in_flight: Option<String>,
    pub last_active: Instant,
}

/// What is known of an actively-tracked conversation.
#[verifier::ext_equal]
pub struct ConvoView {
    pub greeted: bool,
    pub ignored: bool,
    pub history: Seq<TurnView>,
    pub limiter: LimiterView,
    pub pending: Seq<Seq<char>>,
    pub in_flight: Option<Seq<char>>,
    pub last_active: nat,
}

/// The characters of an optional text.
pub open spec fn opt_view(text: Option<String>) -> Option<Seq<char>> {
    match text {
        Some(t) => Some(t@),
        None => None,
    }
}

impl View for ConvoState {
    type V = ConvoView;

    open spec fn view(&self) -> ConvoView {
        ConvoView {
            greeted: self.greeted,
            ignored: self.ignored,
            history: crate::llm::turn_views(self.history@),
            limiter: self.limiter@,
            pending: self.pending@.map_values(|t: String| t@),
            in_flight: opt_view(self.in_flight),
            last_active: self.last_active@,
        }
    }
}

impl ConvoView {
    /// The state of a conversation that is seen for the first time, or again
    /// with only its two bits remembered.
    pub open spec fn fresh(skeleton: Skeleton, now: nat) -> ConvoView {
        ConvoView {
            greeted: skeleton.greeted,
            ignored: skeleton.ignored,
            history: Seq::empty(),
            limiter: crate::limits::idle_limiter(),
            pending: Seq::empty(),
            in_flight: None,
            last_active: now,
        }
    }

    /// Idle: no reply in flight and nothing queued.
    pub open spec fn is_idle(self) -> bool {
        self.in_flight is None && self.pending.len() == 0
    }

    /// The two bits that outlive a demotion.
    pub open spec fn bits(self) -> Skeleton {
        Skeleton { greeted: self.greeted, ignored: self.ignored }
    }
}

impl ConvoState {
    fn fresh(now: Instant) -> (state: Self)
        ensures
            state@ == ConvoView::fresh(unknown_bits(), now@),
    {
        let state = ConvoState {
            greeted: false,
            ignored: false,
            history: Vec::new(),
            limiter: ConvoLimiter::default(),
            pending: VecDeque::new(),
            in_flight: None,
            last_active: now,
        };
        assert(state@ =~= ConvoView::fresh(unknown_bits(), now@));
        state
    }

    fn from_skeleton(skeleton: Skeleton, now: Instant) -> (state: Self)
        ensures
            state@ == ConvoView::fresh(skeleton, now@),
    {
        let mut state = ConvoState::fresh(now);
        state.greeted = skeleton.greeted;
        state.ignored = skeleton.ignored;
        assert(state@ =~= ConvoView::fresh(skeleton, now@));
        state
    }

    /// Evictable when idle: no reply in flight and nothing queued, so demoting
    /// it loses no in-progress work.
    fn is_evictable(&self) -> (res: bool)
        ensures
            res == self@.is_idle(),
    {
        self.in_flight.is_none() && self.pending.len() == 0
    }
}

/// The two bits kept for a demoted conversation.
#[derive(Debug, Clone, Copy, PartialEq, Eq, Structural)]
pub struct Skeleton {
    pub greeted: bool,
    pub ignored: bool,
}

/// The bits of a conversation of which nothing is remembered.
pub open spec fn unknown_bits() -> Skeleton {
    Skeleton { greeted: false, ignored: false }
}

/// A conversation of the active tier.
#[derive(Debug)]
struct Entry {
    id: String,
    state: ConvoState,
}

/// A conversation of the skeleton tier.
#[derive(Debug)]
struct Known {
    id: String,
    skeleton: Skeleton,
}

/// The active tier plus the skeleton tier, each independently capped.
#[derive(Debug)]
pub struct ConvoStore {
    /// No id occurs twice.
    active: Vec<Entry>,
    /// In the order of demotion, oldest first; no id occurs twice.
    known: Vec<Known>,
    max_active: usize,
    max_known: usize,
    demotions: u64,
}

/// The two tiers: the active conversations by id, and the demoted ones with
/// their bits, oldest demotion first.
#[verifier::ext_equal]
pub struct StoreView {
    pub active: Map<Seq<char>, ConvoView>,
    pub known: Seq<(Seq<char>, Skeleton)>,
    pub max_active: nat,
    pub max_known: nat,
    pub demotions: nat,
}

/// The bits remembered for `id`, if it is in the skeleton tier.
pub open spec fn skeleton_of(known: Seq<(Seq<char>, Skeleton)>, id: Seq<char>) -> Option<Skeleton>
    decreases known.len(),
{
    if known.len() == 0 {
        None
    } else if known.last().0 == id {
        Some(known.last().1)
    } else {
        skeleton_of(known.drop_last(), id)
    }
}

/// The skeleton tier without `id`.
pub open spec fn without(known: Seq<(Seq<char>, Skeleton)>, id: Seq<char>) -> Seq<
    (Seq<char>, Skeleton),
>
    decreases known.len(),
{
    if known.len() == 0 {
        known
    } else if known.last().0 == id {
        without(known.drop_last(), id)
    } else {
        without(known.drop_last(), id).push(known.last())
    }
}

/// The skeleton tier after one more demotion: the newcomer joins at the end,
/// and the oldest leaves if that is one too many.
pub open spec fn joined(
    known: Seq<(Seq<char>, Skeleton)>,
    id: Seq<char>,
    bits: Skeleton,
    max_known: nat,
) -> Seq<(Seq<char>, Skeleton)> {
    let all = known.push((id, bits));
    if all.len() > max_known {
        all.drop_first()
    } else {
        all
    }
}

/// Whether no id occurs twice.
pub open spec fn distinct(known: Seq<(Seq<char>, Skeleton)>) -> bool {
    forall|i: int, j: int|
        0 <= i < j < known.len() ==> (#[trigger] known[i]).0 != (#[trigger] known[j]).0
}

impl StoreView {
    /// No conversation is in both tiers or twice in one, and the skeleton tier
    /// is within its cap.
    pub open spec fn inv(self) -> bool {
        &&& self.active.dom().finite()
        &&& distinct(self.known)
        &&& self.known.len() <= self.max_known
        &&& forall|i: int|
            0 <= i < self.known.len() ==> !self.active.contains_key((#[trigger] self.known[i]).0)
    }

    /// Whether a conversation is known to be ignored: `Some(ignored)` if it is
    /// in either tier, `None` if it is in neither.
    pub open spec fn class_of(self, id: Seq<char>) -> Option<bool> {
        if self.active.contains_key(id) {
            Some(self.active[id].ignored)
        } else {
            match skeleton_of(self.known, id) {
                Some(skeleton) => Some(skeleton.ignored),
                None => None,
            }
        }
    }

    /// The state that `id` has once it is active at `now`: the state it has, or
    /// a fresh one that carries the bits remembered for it.
    pub open spec fn state_at(self, id: Seq<char>, now: nat) -> ConvoView {
        if self.active.contains_key(id) {
            ConvoView { last_active: now, ..self.active[id] }
        } else {
            match skeleton_of(self.known, id) {
                Some(skeleton) => ConvoView::fresh(skeleton, now),
                None => ConvoView::fresh(unknown_bits(), now),
            }
        }
    }

    /// Whether the active tier is at (or over) its cap.
    pub open spec fn is_full(self) -> bool {
        self.active.dom().len() >= self.max_active
    }

    /// Whether `id` may be demoted to make room: it is idle, and no idle
    /// conversation was active longer ago.
    pub open spec fn is_victim(self, id: Seq<char>) -> bool {
        &&& self.active.contains_key(id)
        &&& self.active[id].is_idle()
        &&& forall|other: Seq<char>| #[trigger]
            self.active.contains_key(other) && self.active[other].is_idle()
                ==> self.active[id].last_active <= self.active[other].last_active
    }

    /// Whether `id` can be brought into the active tier: it is there already,
    /// there is room, or one more demotion can be counted.
    pub open spec fn can_take(self, id: Seq<char>) -> bool {
        self.active.contains_key(id) || !self.is_full() || self.demotions < u64::MAX
    }

    /// Whether `next` is this store with `id` brought into the active tier,
    /// whatever the state of `id` in it: a conversation that was active already
    /// moves nothing; for a new one a victim is demoted if the tier is full and
    /// there is one, and then `id` leaves the skeleton tier.
    pub open spec fn brings_in(self, id: Seq<char>, next: StoreView) -> bool {
        &&& next.active.contains_key(id)
        &&& next.max_active == self.max_active
        &&& next.max_known == self.max_known
        &&& if self.active.contains_key(id) {
            &&& next.active == self.active.insert(id, next.active[id])
            &&& next.known == self.known
            &&& next.demotions == self.demotions
        } else if self.is_full() && exists|v: Seq<char>| self.is_victim(v) {
            &&& next.demotions == self.demotions + 1
            &&& exists|v: Seq<char>| #[trigger]
                self.is_victim(v) && next.active == self.active.remove(v).insert(
                    id,
                    next.active[id],
                ) && next.known == without(
                    joined(self.known, v, self.active[v].bits(), self.max_known),
                    id,
                )
        } else {
            &&& next.active == self.active.insert(id, next.active[id])
            &&& next.known == without(self.known, id)
            &&& next.demotions == self.demotions
        }
    }

    /// Whether `next` is this store after one thing happened to it: a conversation
    /// was brought in, or only the state of active conversations changed.
    pub open spec fn develops(self, next: StoreView) -> bool {
        ||| exists|id: Seq<char>| #[trigger] self.brings_in(id, next)
        ||| {
            &&& next.active.dom() == self.active.dom()
            &&& next.known == self.known
            &&& next.max_active == self.max_active
            &&& next.max_known == self.max_known
            &&& next.demotions == self.demotions
        }
    }

    /// The active conversations that have a message in progress: one is being
    /// answered or waits.
    pub open spec fn busy_ids(self) -> Set<Seq<char>> {
        self.active.dom().filter(|id: Seq<char>| !self.active[id].is_idle())
    }

    /// The active conversations that have a reply in flight.
    pub open spec fn in_flight_ids(self) -> Set<Seq<char>> {
        self.active.dom().filter(|id: Seq<char>| self.active[id].in_flight is Some)
    }
}

/// Whether no id occurs twice.
spec fn ids_distinct(entries: Seq<Entry>) -> bool {
    forall|i: int, j: int|
        0 <= i < j < entries.len() ==> (#[trigger] entries[i]).id@ != (#[trigger] entries[j]).id@
}

/// The conversations of the active tier by id.
spec fn by_id(entries: Seq<Entry>) -> Map<Seq<char>, ConvoView>
    decreases entries.len(),
{
    if entries.len() == 0 {
        Map::empty()
    } else {
        by_id(entries.drop_last()).insert(entries.last().id@, entries.last().state@)
    }
}

/// The skeleton tier as pairs.
spec fn pairs(known: Seq<Known>) -> Seq<(Seq<char>, Skeleton)> {
    known.map_values(|k: Known| (k.id@, k.skeleton))
}

proof fn lemma_by_id_holds(entries: Seq<Entry>, i: int)
    requires
        ids_distinct(entries),
        0 <= i < entries.len(),
    ensures
        by_id(entries).contains_key(entries[i].id@),
        by_id(entries)[entries[i].id@] == entries[i].state@,
    decreases entries.len(),
{
    if i < entries.len() - 1 {
        lemma_by_id_holds(entries.drop_last(), i);
        assert(entries[i].id@ != entries.last().id@);
    }
}

proof fn lemma_by_id_holds_only(entries: Seq<Entry>, id: Seq<char>)
    requires
        by_id(entries).contains_key(id),
    ensures
        exists|i: int| 0 <= i < entries.len() && (#[trigger] entries[i]).id@ == id,
    decreases entries.len(),
{
    if entries.last().id@ != id {
        let front = entries.drop_last();
        lemma_by_id_holds_only(front, id);
        let i = choose|i: int| 0 <= i < front.len() && (#[trigger] front[i]).id@ == id;
        assert(entries[i].id@ == id);
    } else {
        assert(entries[entries.len() - 1].id@ == id);
    }
}

proof fn lemma_by_id_len(entries: Seq<Entry>)
    requires
        ids_distinct(entries),
    ensures
        by_id(entries).dom().finite(),
        by_id(entries).dom().len() == entries.len(),
    decreases entries.len(),
{
    if entries.len() > 0 {
        let front = entries.drop_last();
        lemma_by_id_len(front);
        if by_id(front).contains_key(entries.last().id@) {
            lemma_by_id_holds_only(front, entries.last().id@);
        }
        assert(by_id(entries).dom() =~= by_id(front).dom().insert(entries.last().id@));
    }
}

proof fn lemma_by_id_update(entries: Seq<Entry>, i: int, entry: Entry)
    requires
        ids_distinct(entries),
        0 <= i < entries.len(),
        entry.id@ == entries[i].id@,
    ensures
        ids_distinct(entries.update(i, entry)),
        by_id(entries.update(i, entry)) == by_id(entries).insert(entry.id@, entry.state@),
{
    let updated = entries.update(i, entry);
    let left = by_id(updated);
    let right = by_id(entries).insert(entry.id@, entry.state@);
    assert forall|id: Seq<char>| left.contains_key(id) implies #[trigger] right.contains_key(id)
        && right[id] == left[id] by {
        lemma_by_id_holds_only(updated, id);
        let j = choose|j: int| 0 <= j < updated.len() && (#[trigger] updated[j]).id@ == id;
        lemma_by_id_holds(updated, j);
        lemma_by_id_holds(entries, j);
    }
    assert forall|id: Seq<char>| right.contains_key(id) implies #[trigger] left.contains_key(id) by {
        if id == entry.id@ {
            lemma_by_id_holds(updated, i);
        } else {
            lemma_by_id_holds_only(entries, id);
            let j = choose|j: int| 0 <= j < entries.len() && (#[trigger] entries[j]).id@ == id;
            lemma_by_id_holds(updated, j);
        }
    }
    assert(left =~= right);
}

proof fn lemma_by_id_push(entries: Seq<Entry>, entry: Entry)
    requires
        ids_distinct(entries),
        !by_id(entries).contains_key(entry.id@),
    ensures
        ids_distinct(entries.push(entry)),
        by_id(entries.push(entry)) == by_id(entries).insert(entry.id@, entry.state@),
{
    assert(entries.push(entry).drop_last() =~= entries);
    assert forall|i: int| 0 <= i < entries.len() implies (#[trigger] entries[i]).id@
        != entry.id@ by {
        lemma_by_id_holds(entries, i);
    }
}

proof fn lemma_by_id_remove(entries: Seq<Entry>, i: int)
    requires
        ids_distinct(entries),
        0 <= i < entries.len(),
    ensures
        ids_distinct(entries.remove(i)),
        by_id(entries.remove(i)) == by_id(entries).remove(entries[i].id@),
{
    let removed = entries.remove(i);
    let left = by_id(removed);
    let right = by_id(entries).remove(entries[i].id@);
    assert forall|id: Seq<char>| left.contains_key(id) implies #[trigger] right.contains_key(id)
        && right[id] == left[id] by {
        lemma_by_id_holds_only(removed, id);
        let j = choose|j: int| 0 <= j < removed.len() && (#[trigger] removed[j]).id@ == id;
        lemma_by_id_holds(removed, j);
        let k = if j < i {
            j
        } else {
            j + 1
        };
        assert(removed[j] == entries[k]);
        lemma_by_id_holds(entries, k);
    }
    assert forall|id: Seq<char>| right.contains_key(id) implies #[trigger] left.contains_key(id) by {
        lemma_by_id_holds_only(entries, id);
        let k = choose|k: int| 0 <= k < entries.len() && (#[trigger] entries[k]).id@ == id;
        let j = if k < i {
            k
        } else {
            k - 1
        };
        assert(removed[j] == entries[k]);
        lemma_by_id_holds(removed, j);
    }
    assert(left =~= right);
}

/// The bits remembered for an id are those of the one pair that holds it.
proof fn lemma_skeleton_of(known: Seq<(Seq<char>, Skeleton)>, i: int)
    requires
        distinct(known),
        0 <= i < known.len(),
    ensures
        skeleton_of(known, known[i].0) == Some(known[i].1),
    decreases known.len(),
{
    if i < known.len() - 1 {
        assert(known[i].0 != known.last().0);
        assert(distinct(known.drop_last()));
        lemma_skeleton_of(known.drop_last(), i);
    }
}

/// The bits remembered for an id are held by a pair.
pub proof fn lemma_skeleton_comes_from(known: Seq<(Seq<char>, Skeleton)>, id: Seq<char>)
    requires
        skeleton_of(known, id) is Some,
    ensures
        exists|i: int|
            0 <= i < known.len() && #[trigger] known[i] == (id, skeleton_of(known, id)->0),
    decreases known.len(),
{
    if known.last().0 == id {
        assert(known[known.len() - 1] == (id, skeleton_of(known, id)->0));
    } else {
        let front = known.drop_last();
        lemma_skeleton_comes_from(front, id);
        let i = choose|i: int|
            0 <= i < front.len() && #[trigger] front[i] == (id, skeleton_of(front, id)->0);
        assert(known[i] == front[i]);
    }
}

/// An id that no pair holds has no bits remembered, and nothing leaves with it.
proof fn lemma_not_known(known: Seq<(Seq<char>, Skeleton)>, id: Seq<char>)
    requires
        forall|i: int| 0 <= i < known.len() ==> (#[trigger] known[i]).0 != id,
    ensures
        skeleton_of(known, id) is None,
        without(known, id) == known,
    decreases known.len(),
{
    if known.len() > 0 {
        assert(known[known.len() - 1].0 != id);
        lemma_not_known(known.drop_last(), id);
        assert(known.drop_last().push(known.last()) =~= known);
    }
}

/// Taking an id out is taking out the one pair that holds it.
proof fn lemma_without(known: Seq<(Seq<char>, Skeleton)>, i: int)
    requires
        distinct(known),
        0 <= i < known.len(),
    ensures
        without(known, known[i].0) == known.remove(i),
    decreases known.len(),
{
    let id = known[i].0;
    let front = known.drop_last();
    if i == known.len() - 1 {
        lemma_not_known(front, id);
        assert(known.remove(i) =~= front);
    } else {
        assert(known[i].0 != known.last().0);
        assert(distinct(front));
        lemma_without(front, i);
        assert(known.remove(i) =~= front.remove(i).push(known.last()));
    }
}

/// What is left after taking an id out: the other pairs, in their order.
proof fn lemma_without_keeps_order(known: Seq<(Seq<char>, Skeleton)>, id: Seq<char>)
    requires
        distinct(known),
    ensures
        distinct(without(known, id)),
        without(known, id).len() <= known.len(),
        forall|i: int|
            0 <= i < without(known, id).len() ==> (#[trigger] without(known, id)[i]).0 != id
                && known.contains(without(known, id)[i]),
{
    if exists|i: int| 0 <= i < known.len() && (#[trigger] known[i]).0 == id {
        let i = choose|i: int| 0 <= i < known.len() && (#[trigger] known[i]).0 == id;
        lemma_without(known, i);
        let rest = known.remove(i);
        assert forall|j: int| 0 <= j < rest.len() implies (#[trigger] rest[j]).0 != id
            && known.contains(rest[j]) by {
            let k = if j < i {
                j
            } else {
                j + 1
            };
            assert(rest[j] == known[k]);
        }
    } else {
        lemma_not_known(known, id);
    }
}

/// Taking an id out leaves what is remembered of any other.
proof fn lemma_without_others(known: Seq<(Seq<char>, Skeleton)>, id: Seq<char>, other: Seq<char>)
    requires
        other != id,
    ensures
        skeleton_of(without(known, id), other) == skeleton_of(known, other),
    decreases known.len(),
{
    if known.len() > 0 {
        let front = known.drop_last();
        lemma_without_others(front, id, other);
        if known.last().0 != id {
            assert(without(front, id).push(known.last()).drop_last() =~= without(front, id));
        }
    }
}

/// What is brought in is brought in whatever its state becomes.
proof fn lemma_brings_in_any_state(store: StoreView, id: Seq<char>, next: StoreView, state: ConvoView)
    requires
        store.brings_in(id, next),
        next.inv(),
    ensures
        ({
            let changed = StoreView { active: next.active.insert(id, state), ..next };
            store.brings_in(id, changed) && changed.inv()
        }),
{
    let changed = StoreView { active: next.active.insert(id, state), ..next };
    assert(changed.active.dom() =~= next.active.dom());
    if store.active.contains_key(id) {
        assert(changed.active =~= store.active.insert(id, state));
    } else if store.is_full() && exists|v: Seq<char>| store.is_victim(v) {
        let v = choose|v: Seq<char>| #[trigger]
            store.is_victim(v) && next.active == store.active.remove(v).insert(id, next.active[id])
                && next.known == without(
                joined(store.known, v, store.active[v].bits(), store.max_known),
                id,
            );
        assert(changed.active =~= store.active.remove(v).insert(id, state));
    } else {
        assert(changed.active =~= store.active.insert(id, state));
    }
}

impl View for ConvoStore {
    type V = StoreView;

    closed spec fn view(&self) -> StoreView {
        StoreView {
            active: by_id(self.active@),
            known: pairs(self.known@),
            max_active: self.max_active as nat,
            max_known: self.max_known as nat,
            demotions: self.demotions as nat,
        }
    }
}

impl ConvoStore {
    /// Whether no conversation is held twice in the active tier.
    pub closed spec fn ids_are_distinct(&self) -> bool {
        ids_distinct(self.active@)
    }

    /// Whether the store is in order.
    pub open spec fn wf(&self) -> bool {
        self.ids_are_distinct() && self@.inv()
    }

    /// An empty store that keeps at most `max_active` conversations in full
    /// while any is idle, and remembers at most `max_known` demoted ones.
    pub fn new(max_active: usize, max_known: usize) -> (store: Self)
        ensures
            store.wf(),
            store@ == (StoreView {
                active: Map::empty(),
                known: Seq::empty(),
                max_active: max_active as nat,
                max_known: max_known as nat,
                demotions: 0,
            }),
    {
        let store = ConvoStore {
            active: Vec::new(),
            known: Vec::new(),
            max_active,
            max_known,
            demotions: 0,
        };
        assert(pairs(store.known@) =~= Seq::empty());
        store
    }

    /// Total conversations demoted from the active tier since start (for stats).
    pub fn demotion_count(&self) -> (n: u64)
        ensures
            n == self@.demotions,
    {
        self.demotions
    }

    /// Where `id` stands in the active tier.
    fn position(&self, id: &str) -> (found: Option<usize>)
        requires
            self.ids_are_distinct(),
        ensures
            match found {
                Some(i) => {
                    &&& i < self.active@.len()
                    &&& self.active@[i as int].id@ == id@
                    &&& self@.active.contains_key(id@)
                    &&& self@.active[id@] == self.active@[i as int].state@
                },
                None => !self@.active.contains_key(id@),
            },
    {
        let key: String = id.to_owned();
        let mut i: usize = 0;
        while i < self.active.len()
            invariant
                i <= self.active@.len(),
                self.ids_are_distinct(),
                key@ == id@,
                forall|j: int| 0 <= j < i ==> (#[trigger] self.active@[j]).id@ != id@,
            decreases self.active@.len() - i,
        {
            if self.active[i].id == key {
                proof {
                    lemma_by_id_holds(self.active@, i as int);
                }
                return Some(i);
            }
            i = i + 1;
        }
        proof {
            if self@.active.contains_key(id@) {
                lemma_by_id_holds_only(self.active@, id@);
            }
        }
        None
    }

    /// Where `id` stands in the skeleton tier.
    fn known_position(&self, id: &str) -> (found: Option<usize>)
        requires
            distinct(self@.known),
        ensures
            match found {
                Some(i) => {
                    &&& i < self.known@.len()
                    &&& skeleton_of(self@.known, id@) == Some(self.known@[i as int].skeleton)
                    &&& without(self@.known, id@) == self@.known.remove(i as int)
                },
                None => {
                    &&& skeleton_of(self@.known, id@) is None
                    &&& without(self@.known, id@) == self@.known
                },
            },
    {
        let key: String = id.to_owned();
        let mut i: usize = 0;
        while i < self.known.len()
            invariant
                i <= self.known@.len(),
                distinct(self@.known),
                key@ == id@,
                forall|j: int| 0 <= j < i ==> (#[trigger] self@.known[j]).0 != id@,
            decreases self.known@.len() - i,
        {
            if self.known[i].id == key {
                proof {
                    assert(self@.known[i as int].0 == id@);
                    lemma_skeleton_of(self@.known, i as int);
                    lemma_without(self@.known, i as int);
                }
                return Some(i);
            }
            assert(self@.known[i as int].0 == self.known@[i as int].id@);
            i = i + 1;
        }
        proof {
            lemma_not_known(self@.known, id@);
        }
        None
    }

    /// The state of an active conversation.
    pub fn get(&self, id: &str) -> (state: Option<&ConvoState>)
        requires
            self.wf(),
        ensures
            match state {
                Some(s) => self@.active.contains_key(id@) && s@ == self@.active[id@],
                None => !self@.active.contains_key(id@),
            },
    {
        match self.position(id) {
            Some(i) => Some(&self.active[i].state),
            None => None,
        }
    }

    /// The state of an active conversation, to change.
    pub fn get_mut(&mut self, id: &str) -> (state: Option<&mut ConvoState>)
        requires
            old(self).wf(),
        ensures
            final(self).wf(),
            match state {
                Some(s) => {
                    &&& old(self)@.active.contains_key(id@)
                    &&& (*s)@ == old(self)@.active[id@]
                    &&& final(self)@ == (StoreView {
                        active: old(self)@.active.insert(id@, (*final(s))@),
                        ..old(self)@
                    })
                },
                None => !old(self)@.active.contains_key(id@) && *final(self) == *old(self),
            },
    {
        match self.position(id) {
            Some(i) => {
                let ghost before = self.active@;
                let ghost store = self@;
                let state = &mut self.active[i].state;
                proof {
                    let entry = Entry { id: before[i as int].id, state: *final(state) };
                    lemma_by_id_update(before, i as int, entry);
                    assert(store.active.insert(id@, (*final(state))@).dom() =~= store.active.dom());
                }
                Some(state)
            },
            None => None,
        }
    }

    /// How many conversations are in the active tier.
    pub fn active_len(&self) -> (n: usize)
        requires
            self.wf(),
        ensures
            n == self@.active.dom().len(),
    {
        proof {
            lemma_by_id_len(self.active@);
        }
        self.active.len()
    }

    /// Whether a conversation is known to be ignored: `Some(ignored)` if it is
    /// in either tier, `None` if it has never been seen (or has aged out of
    /// both).
    pub fn classification(&self, id: &str) -> (ignored: Option<bool>)
        requires
            self.wf(),
        ensures
            ignored == self@.class_of(id@),
    {
        match self.position(id) {
            Some(i) => Some(self.active[i].state.ignored),
            None => match self.known_position(id) {
                Some(i) => Some(self.known[i].skeleton.ignored),
                None => None,
            },
        }
    }

    /// How many active conversations have a reply in flight. Used during
    /// shutdown to know when the drain is complete.
    pub fn in_flight_count(&self) -> (n: usize)
        requires
            self.wf(),
        ensures
            n == self@.in_flight_ids().len(),
    {
        let mut n: usize = 0;
        let mut i: usize = 0;
        proof {
            assert(self.active@.take(0).len() == 0);
            assert(in_flight_in(by_id(self.active@.take(0))) =~= Set::empty());
        }
        while i < self.active.len()
            invariant
                i <= self.active@.len(),
                n <= i,
                self.ids_are_distinct(),
                in_flight_in(by_id(self.active@.take(i as int))).finite(),
                n == in_flight_in(by_id(self.active@.take(i as int))).len(),
            decreases self.active@.len() - i,
        {
            proof {
                let entry = self.active@[i as int];
                let before = self.active@.take(i as int);
                assert(self.active@.take(i + 1) =~= before.push(entry));
                if by_id(before).contains_key(entry.id@) {
                    lemma_by_id_holds_only(before, entry.id@);
                }
                lemma_by_id_push(before, entry);
                let counted = in_flight_in(by_id(before));
                let next = in_flight_in(by_id(before.push(entry)));
                if entry.state.in_flight is Some {
                    assert(next =~= counted.insert(entry.id@));
                } else {
                    assert(next =~= counted);
                }
            }
            if self.active[i].state.in_flight.is_some() {
                n = n + 1;
            }
            i = i + 1;
        }
        assert(self.active@.take(i as int) =~= self.active@);
        assert(in_flight_in(self@.active) =~= self@.in_flight_ids());
        n
    }

    /// The least-recently-active idle conversation, if any is idle.
    fn least_recently_active_idle(&self) -> (found: Option<usize>)
        requires
            self.ids_are_distinct(),
        ensures
            match found {
                Some(i) => i < self.active@.len() && self@.is_victim(self.active@[i as int].id@),
                None => forall|v: Seq<char>| !self@.is_victim(v),
            },
    {
        let mut best: Option<usize> = None;
        let mut i: usize = 0;
        while i < self.active.len()
            invariant
                i <= self.active@.len(),
                match best {
                    Some(b) => {
                        &&& b < i
                        &&& self.active@[b as int].state@.is_idle()
                        &&& forall|j: int|
                            0 <= j < i && (#[trigger] self.active@[j]).state@.is_idle()
                                ==> self.active@[b as int].state@.last_active
                                <= self.active@[j].state@.last_active
                    },
                    None => forall|j: int|
                        0 <= j < i ==> !(#[trigger] self.active@[j]).state@.is_idle(),
                },
            decreases self.active@.len() - i,
        {
            if self.active[i].state.is_evictable() {
                best = match best {
                    Some(b) => {
                        if self.active[i].state.last_active.as_nanos()
                            < self.active[b].state.last_active.as_nanos() {
                            Some(i)
                        } else {
                            Some(b)
                        }
                    },
                    None => Some(i),
                };
            }
            i = i + 1;
        }
        proof {
            assert forall|id: Seq<char>| self@.active.contains_key(id) implies exists|j: int|
                0 <= j < self.active@.len() && #[trigger] self.active@[j].id@ == id
                    && self.active@[j].state@ == self@.active[id] by {
                lemma_by_id_holds_only(self.active@, id);
                let j = choose|j: int|
                    0 <= j < self.active@.len() && (#[trigger] self.active@[j]).id@ == id;
                lemma_by_id_holds(self.active@, j);
            }
            if let Some(b) = best {
                lemma_by_id_holds(self.active@, b as int);
            }
        }
        best
    }

    /// Demote the least-recently-active idle conversation if the active tier is
    /// at capacity. If every active conversation is busy (in flight or with a
    /// queue), nothing is evicted and the tier is over its cap rather than
    /// dropping in-progress work.
    fn make_room(&mut self)
        requires
            old(self).wf(),
            old(self)@.is_full() ==> old(self)@.demotions < u64::MAX,
        ensures
            final(self).wf(),
            final(self)@.max_active == old(self)@.max_active,
            final(self)@.max_known == old(self)@.max_known,
            if old(self)@.is_full() && exists|v: Seq<char>| old(self)@.is_victim(v) {
                &&& final(self)@.demotions == old(self)@.demotions + 1
                &&& exists|v: Seq<char>| #[trigger]
                    old(self)@.is_victim(v) && final(self)@.active == old(self)@.active.remove(v)
                        && final(self)@.known == joined(
                        old(self)@.known,
                        v,
                        old(self)@.active[v].bits(),
                        old(self)@.max_known,
                    )
            } else {
                final(self)@ == old(self)@
            },
    {
        proof {
            lemma_by_id_len(self.active@);
        }
        if self.active.len() < self.max_active {
            return;
        }
        if let Some(i) = self.least_recently_active_idle() {
            let ghost victim = self.active@[i as int].id@;
            proof {
                lemma_by_id_holds(self.active@, i as int);
                lemma_by_id_remove(self.active@, i as int);
            }
            let entry = self.active.remove(i);
            let skeleton = Skeleton { greeted: entry.state.greeted, ignored: entry.state.ignored };
            self.demote(entry.id, skeleton);
            assert(old(self)@.is_victim(victim));
        }
    }

    /// Remember a demoted conversation by its two bits.
    fn demote(&mut self, id: String, skeleton: Skeleton)
        requires
            old(self).wf(),
            old(self)@.demotions < u64::MAX,
            !old(self)@.active.contains_key(id@),
            forall|i: int|
                0 <= i < old(self)@.known.len() ==> (#[trigger] old(self)@.known[i]).0 != id@,
        ensures
            final(self).wf(),
            final(self)@ == (StoreView {
                known: joined(old(self)@.known, id@, skeleton, old(self)@.max_known),
                demotions: old(self)@.demotions + 1,
                ..old(self)@
            }),
    {
        self.demotions = self.demotions + 1;
        let ghost before = pairs(self.known@);
        self.known.push(Known { id, skeleton });
        assert(pairs(self.known@) =~= before.push((id@, skeleton)));
        if self.known.len() > self.max_known {
            let _ = self.known.remove(0);
            assert(pairs(self.known@) =~= before.push((id@, skeleton)).drop_first());
        }
    }

    /// Ensure `id` is in the active tier (promoting it from the skeleton tier,
    /// carrying its bits, or creating fresh state), mark it most-recently-active,
    /// and return its state. Evicts a least-recently-active idle conversation
    /// first if the active tier is full.
    pub fn activate(&mut self, id: &str, now: Instant) -> (state: &mut ConvoState)
        requires
            old(self).wf(),
            old(self)@.can_take(id@),
        ensures
            final(self).wf(),
            (*state)@ == old(self)@.state_at(id@, now@),
            old(self)@.brings_in(id@, final(self)@),
            final(self)@.active[id@] == (*final(state))@,
    {
        let ghost first = self@;
        let at: usize = match self.position(id) {
            Some(i) => i,
            None => {
                // The bits are read before room is made: the demotion may push
                // them out of the skeleton tier.
                let fresh = match self.known_position(id) {
                    Some(i) => ConvoState::from_skeleton(self.known[i].skeleton, now),
                    None => ConvoState::fresh(now),
                };
                self.make_room();
                let ghost roomed = self@;
                if let Some(i) = self.known_position(id) {
                    let ghost known = self.known@;
                    let _ = self.known.remove(i);
                    assert(pairs(self.known@) =~= pairs(known).remove(i as int));
                }
                let entry = Entry { id: id.to_owned(), state: fresh };
                proof {
                    lemma_without_keeps_order(roomed.known, id@);
                    assert forall|i: int| 0 <= i < self@.known.len() implies !roomed.active.contains_key(
                        (#[trigger] self@.known[i]).0,
                    ) by {
                        assert(roomed.known.contains(self@.known[i]));
                    }
                    lemma_by_id_push(self.active@, entry);
                    lemma_by_id_len(self.active@.push(entry));
                }
                self.active.push(entry);
                assert(self.active@.last() == entry);
                proof {
                    if first.is_full() && exists|v: Seq<char>| first.is_victim(v) {
                        let v = choose|v: Seq<char>| #[trigger]
                            first.is_victim(v) && roomed.active == first.active.remove(v)
                                && roomed.known == joined(
                                first.known,
                                v,
                                first.active[v].bits(),
                                first.max_known,
                            );
                        assert(self@.active == first.active.remove(v).insert(
                            id@,
                            self@.active[id@],
                        ));
                    }
                    assert(first.brings_in(id@, self@));
                }
                self.active.len() - 1
            },
        };
        let ghost entries = self.active@;
        let ghost mid = self@;
        proof {
            lemma_by_id_holds(entries, at as int);
            assert(mid.active =~= mid.active.insert(id@, mid.active[id@]));
            assert(first.brings_in(id@, mid));
        }
        let state = &mut self.active[at].state;
        state.last_active = now;
        proof {
            let entry = Entry { id: entries[at as int].id, state: *final(state) };
            lemma_by_id_update(entries, at as int, entry);
            lemma_brings_in_any_state(first, id@, mid, (*final(state))@);
        }
        state
    }
}

/// The members of `active` that have a reply in flight.
spec fn in_flight_in(active: Map<Seq<char>, ConvoView>) -> Set<Seq<char>> {
    active.dom().filter(|id: Seq<char>| active[id].in_flight is Some)
}

/// Reading the bits of an id that was just demoted, or is still remembered after
/// another demotion.
proof fn lemma_joined(
    known: Seq<(Seq<char>, Skeleton)>,
    id: Seq<char>,
    bits: Skeleton,
    max_known: nat,
    i: int,
)
    requires
        distinct(known),
        forall|j: int| 0 <= j < known.len() ==> (#[trigger] known[j]).0 != id,
        known.len() <= max_known,
        0 <= i <= known.len(),
    ensures
        ({
            let all = known.push((id, bits));
            let next = joined(known, id, bits, max_known);
            &&& next.len() <= max_known
            &&& distinct(next)
            &&& all.len() <= max_known || i > 0 ==> skeleton_of(next, all[i].0) == Some(all[i].1)
        }),
{
    let all = known.push((id, bits));
    let next = joined(known, id, bits, max_known);
    assert(distinct(all));
    assert(distinct(next));
    if all.len() <= max_known {
        lemma_skeleton_of(next, i);
    } else if i > 0 {
        assert(next[i - 1] == all[i]);
        lemma_skeleton_of(next, i - 1);
    }
}

/// A conversation with a reply in flight or a message queued is never demoted:
/// whatever else becomes active, it keeps its place and its state.
pub proof fn law_busy_is_never_demoted(
    store: StoreView,
    id: Seq<char>,
    next: StoreView,
    other: Seq<char>,
)
    requires
        store.brings_in(id, next),
        other != id,
        store.active.contains_key(other),
        !store.active[other].is_idle(),
    ensures
        next.active.contains_key(other),
        next.active[other] == store.active[other],
{
}

/// Bringing one conversation in leaves every other active one as it is, but for
/// at most one in a full tier: an idle one that no idle one was active longer
/// ago than.
pub proof fn law_others_keep_their_state(
    store: StoreView,
    id: Seq<char>,
    next: StoreView,
    other: Seq<char>,
)
    requires
        store.brings_in(id, next),
        other != id,
        store.active.contains_key(other),
    ensures
        ({
            ||| next.active.contains_key(other) && next.active[other] == store.active[other]
            ||| !next.active.contains_key(other) && store.is_full() && store.is_victim(other)
                && next.demotions == store.demotions + 1
        }),
{
}

/// The bits of a conversation survive its demotion: when it comes back, it is
/// neither greeted twice nor misclassified.
pub proof fn law_returning_peer_keeps_its_bits(
    store: StoreView,
    id: Seq<char>,
    next: StoreView,
    other: Seq<char>,
    later: nat,
)
    requires
        store.inv(),
        store.max_known > 0,
        store.brings_in(id, next),
        store.active.contains_key(other),
        other != id,
    ensures
        next.class_of(other) == Some(store.active[other].ignored),
        next.state_at(other, later).bits() == store.active[other].bits(),
{
    if !next.active.contains_key(other) {
        let v = choose|v: Seq<char>| #[trigger]
            store.is_victim(v) && next.active == store.active.remove(v).insert(id, next.active[id])
                && next.known == without(
                joined(store.known, v, store.active[v].bits(), store.max_known),
                id,
            );
        assert(v == other);
        lemma_joined(
            store.known,
            v,
            store.active[v].bits(),
            store.max_known,
            store.known.len() as int,
        );
        lemma_without_others(
            joined(store.known, v, store.active[v].bits(), store.max_known),
            id,
            v,
        );
    }
}

/// Whether one thing happens between a store and the next of `stores`.
pub open spec fn develops_at(stores: Seq<StoreView>, k: int) -> bool {
    stores[k].develops(stores[k + 1])
}

/// Whether one thing after the other happens to a store, from the first of
/// `stores` to the last.
pub open spec fn is_history(stores: Seq<StoreView>) -> bool {
    stores.len() > 0 && forall|k: int| 0 <= k < stores.len() - 1 ==> #[trigger] develops_at(stores, k)
}

/// Whether `id` is remembered by `bits`, with at most `later` conversations
/// demoted after it.
spec fn remembers(known: Seq<(Seq<char>, Skeleton)>, id: Seq<char>, bits: Skeleton, later: int) -> bool {
    exists|p: int|
        0 <= p < known.len() && #[trigger] known[p] == (id, bits) && known.len() - 1 - p <= later
}

/// Taking another id out leaves what is remembered, and after how many.
proof fn lemma_without_remembers(
    known: Seq<(Seq<char>, Skeleton)>,
    other: Seq<char>,
    id: Seq<char>,
    bits: Skeleton,
    later: int,
)
    requires
        distinct(known),
        other != id,
        remembers(known, id, bits, later),
    ensures
        remembers(without(known, other), id, bits, later),
{
    let p = choose|p: int|
        0 <= p < known.len() && #[trigger] known[p] == (id, bits) && known.len() - 1 - p <= later;
    if exists|i: int| 0 <= i < known.len() && (#[trigger] known[i]).0 == other {
        let i = choose|i: int| 0 <= i < known.len() && (#[trigger] known[i]).0 == other;
        lemma_without(known, i);
        if p < i {
            assert(known.remove(i)[p] == known[p]);
        } else {
            assert(known.remove(i)[p - 1] == known[p]);
        }
    } else {
        lemma_not_known(known, other);
    }
}

/// One thing that happens leaves a remembered conversation remembered by the
/// same bits, unless it is brought in or too many were demoted after it.
proof fn lemma_development_remembers(
    store: StoreView,
    next: StoreView,
    id: Seq<char>,
    bits: Skeleton,
    later: int,
)
    requires
        store.inv(),
        store.develops(next),
        !next.active.contains_key(id),
        remembers(store.known, id, bits, later),
        later + (next.demotions - store.demotions) < store.max_known,
    ensures
        remembers(next.known, id, bits, later + (next.demotions - store.demotions)),
{
    if exists|other: Seq<char>| #[trigger] store.brings_in(other, next) {
        let other = choose|other: Seq<char>| #[trigger] store.brings_in(other, next);
        if store.active.contains_key(other) {
        } else if store.is_full() && exists|v: Seq<char>| store.is_victim(v) {
            let v = choose|v: Seq<char>| #[trigger]
                store.is_victim(v) && next.active == store.active.remove(v).insert(
                    other,
                    next.active[other],
                ) && next.known == without(
                    joined(store.known, v, store.active[v].bits(), store.max_known),
                    other,
                );
            let tier = joined(store.known, v, store.active[v].bits(), store.max_known);
            let p = choose|p: int|
                0 <= p < store.known.len() && #[trigger] store.known[p] == (id, bits)
                    && store.known.len() - 1 - p <= later;
            let all = store.known.push((v, store.active[v].bits()));
            assert(all[p] == (id, bits));
            lemma_joined(store.known, v, store.active[v].bits(), store.max_known, 0);
            if all.len() > store.max_known {
                assert(tier[p - 1] == (id, bits));
            } else {
                assert(tier[p] == (id, bits));
            }
            assert(remembers(tier, id, bits, later + 1));
            lemma_without_remembers(tier, other, id, bits, later + 1);
        } else {
            lemma_without_remembers(store.known, other, id, bits, later);
        }
    }
}

/// The two bits outlive any number of activations between demotion and return:
/// while fewer others than the skeleton tier has room for are demoted after it,
/// a demoted conversation is remembered by its bits; it comes back with them and
/// with nothing else, and is then in the active tier alone.
pub proof fn law_bits_survive_until_the_return(
    stores: Seq<StoreView>,
    id: Seq<char>,
    later: nat,
    back: StoreView,
)
    requires
        is_history(stores),
        stores.len() >= 2,
        stores[0].inv(),
        stores[0].active.contains_key(id),
        forall|k: int| 1 <= k < stores.len() ==> !(#[trigger] stores[k]).active.contains_key(id),
        stores.last().demotions - stores[1].demotions < stores[0].max_known,
        stores.last().brings_in(id, back),
    ensures
        skeleton_of(stores.last().known, id) == Some(stores[0].active[id].bits()),
        stores.last().class_of(id) == Some(stores[0].active[id].ignored),
        stores.last().state_at(id, later) == ConvoView::fresh(stores[0].active[id].bits(), later),
        back.active.contains_key(id),
        skeleton_of(back.known, id) is None,
{
    let bits = stores[0].active[id].bits();
    let first = stores[0];
    let second = stores[1];
    lemma_demotions_only_grow(stores, 1, stores.len() - 1);
    assert(develops_at(stores, 0));
    let other = choose|other: Seq<char>| #[trigger] first.brings_in(other, second);
    law_others_keep_their_state(first, other, second, id);
    let v = choose|v: Seq<char>| #[trigger]
        first.is_victim(v) && second.active == first.active.remove(v).insert(
            other,
            second.active[other],
        ) && second.known == without(
            joined(first.known, v, first.active[v].bits(), first.max_known),
            other,
        );
    let tier = joined(first.known, v, first.active[v].bits(), first.max_known);
    lemma_joined(first.known, v, first.active[v].bits(), first.max_known, 0);
    assert(tier.last() == (id, bits));
    assert(tier[tier.len() - 1] == (id, bits));
    assert(remembers(tier, id, bits, 0));
    lemma_without_remembers(tier, other, id, bits, 0);
    lemma_still_remembered(stores, id, bits, stores.len() - 1);
    lemma_stores_stay_in_order(stores, stores.len() - 1);
    let last = stores.last();
    let p = choose|p: int|
        0 <= p < last.known.len() && #[trigger] last.known[p] == (id, bits) && last.known.len() - 1
            - p <= last.demotions - second.demotions;
    lemma_skeleton_of(last.known, p);
    law_tiers_stay_bounded(last, id, back);
    assert forall|i: int| 0 <= i < back.known.len() implies (#[trigger] back.known[i]).0 != id by {
        assert(!back.active.contains_key(back.known[i].0));
    }
    lemma_not_known(back.known, id);
}

/// What happens to a store leaves it in order, and its caps as they are.
proof fn lemma_stores_stay_in_order(stores: Seq<StoreView>, n: int)
    requires
        is_history(stores),
        stores[0].inv(),
        0 <= n < stores.len(),
    ensures
        stores[n].inv(),
        stores[n].max_known == stores[0].max_known,
        stores[n].max_active == stores[0].max_active,
    decreases n,
{
    if n > 0 {
        lemma_stores_stay_in_order(stores, n - 1);
        let before = stores[n - 1];
        let after = stores[n];
        assert(develops_at(stores, n - 1));
        if exists|id: Seq<char>| #[trigger] before.brings_in(id, after) {
            let id = choose|id: Seq<char>| #[trigger] before.brings_in(id, after);
            law_tiers_stay_bounded(before, id, after);
        } else {
            assert forall|i: int| 0 <= i < after.known.len() implies !after.active.contains_key(
                (#[trigger] after.known[i]).0,
            ) by {
                assert(!before.active.contains_key(before.known[i].0));
                assert(!before.active.dom().contains(before.known[i].0));
            }
        }
    }
}

/// Demotions are never taken back.
proof fn lemma_demotions_only_grow(stores: Seq<StoreView>, from: int, to: int)
    requires
        is_history(stores),
        0 <= from <= to < stores.len(),
    ensures
        stores[from].demotions <= stores[to].demotions,
    decreases to - from,
{
    if from < to {
        lemma_demotions_only_grow(stores, from, to - 1);
        assert(develops_at(stores, to - 1));
    }
}

/// A conversation demoted before the second of `stores` is still remembered in
/// the one at `n`.
proof fn lemma_still_remembered(stores: Seq<StoreView>, id: Seq<char>, bits: Skeleton, n: int)
    requires
        is_history(stores),
        stores[0].inv(),
        1 <= n < stores.len(),
        forall|k: int| 1 <= k < stores.len() ==> !(#[trigger] stores[k]).active.contains_key(id),
        stores.last().demotions - stores[1].demotions < stores[0].max_known,
        remembers(stores[1].known, id, bits, 0),
    ensures
        remembers(stores[n].known, id, bits, stores[n].demotions - stores[1].demotions),
    decreases n,
{
    if n > 1 {
        lemma_still_remembered(stores, id, bits, n - 1);
        lemma_stores_stay_in_order(stores, n - 1);
        lemma_demotions_only_grow(stores, n, stores.len() - 1);
        assert(develops_at(stores, n - 1));
        lemma_development_remembers(
            stores[n - 1],
            stores[n],
            id,
            bits,
            stores[n - 1].demotions - stores[1].demotions,
        );
    }
}

/// Dropping the oldest leaves what is remembered of any other.
proof fn lemma_drop_first_others(known: Seq<(Seq<char>, Skeleton)>, id: Seq<char>)
    requires
        known.len() > 0,
        skeleton_of(known.drop_first(), id) is Some,
    ensures
        skeleton_of(known.drop_first(), id) == skeleton_of(known, id),
    decreases known.len(),
{
    let rest = known.drop_first();
    assert(rest.last() == known.last());
    if known.last().0 != id {
        assert(rest.drop_last() =~= known.drop_last().drop_first());
        lemma_drop_first_others(known.drop_last(), id);
    }
}

/// Bringing one conversation in leaves the class of any other that is still
/// known.
pub proof fn lemma_class_of_others(
    store: StoreView,
    id: Seq<char>,
    next: StoreView,
    other: Seq<char>,
)
    requires
        store.inv(),
        store.brings_in(id, next),
        other != id,
        next.class_of(other) is Some,
    ensures
        next.class_of(other) == store.class_of(other),
{
    if !store.active.contains_key(id) && store.is_full() && exists|v: Seq<char>|
        store.is_victim(v) {
        let v = choose|v: Seq<char>| #[trigger]
            store.is_victim(v) && next.active == store.active.remove(v).insert(id, next.active[id])
                && next.known == without(
                joined(store.known, v, store.active[v].bits(), store.max_known),
                id,
            );
        let all = store.known.push((v, store.active[v].bits()));
        assert(all.drop_last() =~= store.known);
        lemma_without_others(
            joined(store.known, v, store.active[v].bits(), store.max_known),
            id,
            other,
        );
        if !next.active.contains_key(other) {
            if all.len() > store.max_known {
                lemma_drop_first_others(all, other);
            }
        }
    } else {
        lemma_without_others(store.known, id, other);
    }
}

/// Whatever is remembered after bringing a conversation in was remembered
/// before, or was active.
pub proof fn lemma_known_come_from(store: StoreView, id: Seq<char>, next: StoreView, i: int)
    requires
        store.inv(),
        store.brings_in(id, next),
        0 <= i < next.known.len(),
    ensures
        store.known.contains(next.known[i]) || (store.active.contains_key(next.known[i].0)
            && next.known[i].1 == store.active[next.known[i].0].bits()),
{
    if store.active.contains_key(id) {
        assert(store.known.contains(next.known[i]));
    } else if store.is_full() && exists|v: Seq<char>| store.is_victim(v) {
        let v = choose|v: Seq<char>| #[trigger]
            store.is_victim(v) && next.active == store.active.remove(v).insert(id, next.active[id])
                && next.known == without(
                joined(store.known, v, store.active[v].bits(), store.max_known),
                id,
            );
        let all = store.known.push((v, store.active[v].bits()));
        let tier = joined(store.known, v, store.active[v].bits(), store.max_known);
        lemma_joined(store.known, v, store.active[v].bits(), store.max_known, 0);
        lemma_without_keeps_order(tier, id);
        assert(tier.contains(next.known[i]));
        let k = choose|k: int| 0 <= k < tier.len() && tier[k] == next.known[i];
        let m: int = if all.len() > store.max_known {
            k + 1
        } else {
            k
        };
        assert(tier[k] == all[m]);
        if m < store.known.len() {
            assert(store.known[m] == all[m]);
        }
    } else {
        lemma_without_keeps_order(store.known, id);
    }
}

/// A remembered conversation that becomes active again carries the bits that
/// were remembered for it.
pub proof fn law_promotion_restores_the_bits(store: StoreView, id: Seq<char>, now: nat)
    requires
        store.class_of(id) is Some,
    ensures
        store.state_at(id, now).ignored == store.class_of(id)->0,
        !store.active.contains_key(id) ==> store.state_at(id, now).bits() == skeleton_of(
            store.known,
            id,
        )->0,
{
}

/// The skeleton tier forgets oldest first: bringing a conversation in leaves
/// what is remembered of any other as it is, unless that is the oldest and the
/// tier is at its cap.
pub proof fn law_only_the_oldest_is_forgotten(
    store: StoreView,
    id: Seq<char>,
    next: StoreView,
    i: int,
)
    requires
        store.inv(),
        store.brings_in(id, next),
        0 <= i < store.known.len(),
        store.known[i].0 != id,
        i > 0 || store.known.len() < store.max_known,
    ensures
        skeleton_of(next.known, store.known[i].0) == Some(store.known[i].1),
{
    let other = store.known[i].0;
    lemma_skeleton_of(store.known, i);
    if !store.active.contains_key(id) && store.is_full() && exists|v: Seq<char>|
        store.is_victim(v) {
        let v = choose|v: Seq<char>| #[trigger]
            store.is_victim(v) && next.active == store.active.remove(v).insert(id, next.active[id])
                && next.known == without(
                joined(store.known, v, store.active[v].bits(), store.max_known),
                id,
            );
        let all = store.known.push((v, store.active[v].bits()));
        assert(all[i] == store.known[i]);
        lemma_joined(store.known, v, store.active[v].bits(), store.max_known, i);
        lemma_without_others(
            joined(store.known, v, store.active[v].bits(), store.max_known),
            id,
            other,
        );
    } else {
        lemma_without_others(store.known, id, other);
    }
}

/// A flood of identities cannot grow the tiers without limit: bringing a
/// conversation in keeps the active tier within its cap, or leaves it no larger
/// than it was, unless every active conversation is busy; and the skeleton tier
/// stays within its cap.
pub proof fn law_tiers_stay_bounded(store: StoreView, id: Seq<char>, next: StoreView)
    requires
        store.inv(),
        store.brings_in(id, next),
    ensures
        next.inv(),
        next.known.len() <= store.max_known,
        ({
            ||| next.active.dom().len() <= store.max_active
            ||| next.active.dom().len() <= store.active.dom().len()
            ||| forall|other: Seq<char>| #[trigger]
                store.active.contains_key(other) ==> !store.active[other].is_idle()
        }),
{
    lemma_without_keeps_order(store.known, id);
    if store.active.contains_key(id) {
        assert(next.active.dom() =~= store.active.dom());
    } else if store.is_full() && exists|v: Seq<char>| store.is_victim(v) {
        let v = choose|v: Seq<char>| #[trigger]
            store.is_victim(v) && next.active == store.active.remove(v).insert(id, next.active[id])
                && next.known == without(
                joined(store.known, v, store.active[v].bits(), store.max_known),
                id,
            );
        assert(next.active.dom() =~= store.active.dom().remove(v).insert(id));
        let all = store.known.push((v, store.active[v].bits()));
        let tier = joined(store.known, v, store.active[v].bits(), store.max_known);
        lemma_joined(store.known, v, store.active[v].bits(), store.max_known, 0);
        lemma_without_keeps_order(tier, id);
        assert forall|j: int| 0 <= j < next.known.len() implies !next.active.contains_key(
            (#[trigger] next.known[j]).0,
        ) by {
            assert(tier.contains(next.known[j]));
            let k = choose|k: int| 0 <= k < tier.len() && tier[k] == next.known[j];
            assert(all.contains(tier[k])) by {
                assert(tier[k] == all[if all.len() > store.max_known { k + 1 } else { k }]);
            }
            let m = choose|m: int| 0 <= m < all.len() && all[m] == tier[k];
            if m < store.known.len() {
                assert(store.known[m] == all[m]);
            }
        }
    } else {
        assert(next.active.dom() =~= store.active.dom().insert(id));
        assert forall|j: int| 0 <= j < next.known.len() implies !next.active.contains_key(
            (#[trigger] next.known[j]).0,
        ) by {
            assert(store.known.contains(next.known[j]));
        }
        if store.is_full() {
            lemma_no_victim_no_idle(store);
        }
    }
}

/// The most conversations that the active tier holds while never more than
/// `busy` of them are busy at once: its cap, or one more than are busy.
pub open spec fn most_active(max_active: nat, busy: nat) -> nat {
    if max_active > busy + 1 {
        max_active
    } else {
        busy + 1
    }
}

/// One thing that happens to a store does not push its active tier over what it
/// may hold.
proof fn lemma_development_stays_bounded(store: StoreView, next: StoreView, busy: nat)
    requires
        store.inv(),
        store.develops(next),
        store.busy_ids().len() <= busy,
        store.active.dom().len() <= most_active(store.max_active, busy),
    ensures
        next.active.dom().len() <= most_active(store.max_active, busy),
{
    if exists|id: Seq<char>| #[trigger] store.brings_in(id, next) {
        let id = choose|id: Seq<char>| #[trigger] store.brings_in(id, next);
        if store.active.contains_key(id) {
            assert(next.active.dom() =~= store.active.dom());
        } else if store.is_full() && exists|v: Seq<char>| store.is_victim(v) {
            let v = choose|v: Seq<char>| #[trigger]
                store.is_victim(v) && next.active == store.active.remove(v).insert(
                    id,
                    next.active[id],
                ) && next.known == without(
                    joined(store.known, v, store.active[v].bits(), store.max_known),
                    id,
                );
            assert(next.active.dom() =~= store.active.dom().remove(v).insert(id));
        } else {
            assert(next.active.dom() =~= store.active.dom().insert(id));
            if store.is_full() {
                lemma_no_victim_no_idle(store);
                assert(store.busy_ids() =~= store.active.dom());
            }
        }
    }
}

/// A flood of identities cannot grow the tiers without limit, however long it
/// lasts: while never more than `busy` conversations have a message in progress
/// at once, the active tier stays within its cap (or at one more than are busy,
/// where that is more), and the skeleton tier within its own.
pub proof fn law_flood_stays_within_the_caps(stores: Seq<StoreView>, busy: nat, n: int)
    requires
        is_history(stores),
        stores[0].inv(),
        stores[0].active.dom().len() <= most_active(stores[0].max_active, busy),
        forall|k: int| 0 <= k < n ==> (#[trigger] stores[k]).busy_ids().len() <= busy,
        0 <= n < stores.len(),
    ensures
        stores[n].active.dom().len() <= most_active(stores[0].max_active, busy),
        stores[n].known.len() <= stores[0].max_known,
    decreases n,
{
    lemma_stores_stay_in_order(stores, n);
    if n > 0 {
        law_flood_stays_within_the_caps(stores, busy, n - 1);
        lemma_stores_stay_in_order(stores, n - 1);
        assert(develops_at(stores, n - 1));
        lemma_development_stays_bounded(stores[n - 1], stores[n], busy);
    }
}

/// Where no conversation may be demoted, none is idle.
proof fn lemma_no_victim_no_idle(store: StoreView)
    requires
        store.active.dom().finite(),
        forall|v: Seq<char>| !store.is_victim(v),
    ensures
        forall|other: Seq<char>| #[trigger]
            store.active.contains_key(other) ==> !store.active[other].is_idle(),
{
    let idle = store.active.dom().filter(|id: Seq<char>| store.active[id].is_idle());
    if exists|other: Seq<char>| #[trigger]
        store.active.contains_key(other) && store.active[other].is_idle() {
        let other = choose|other: Seq<char>| #[trigger]
            store.active.contains_key(other) && store.active[other].is_idle();
        lemma_least_recently_active(store, idle, other);
        let v = choose|v: Seq<char>| idle.contains(v) && forall|o: Seq<char>| #[trigger]
            idle.contains(o) ==> store.active[v].last_active <= store.active[o].last_active;
        assert forall|o: Seq<char>| #[trigger]
            store.active.contains_key(o) && store.active[o].is_idle() implies store.active[v].last_active
            <= store.active[o].last_active by {
            assert(idle.contains(o));
        }
        assert(store.is_victim(v));
    }
}

/// Of finitely many conversations, one was active longest ago.
proof fn lemma_least_recently_active(store: StoreView, ids: Set<Seq<char>>, member: Seq<char>)
    requires
        ids.finite(),
        ids.contains(member),
    ensures
        exists|v: Seq<char>| ids.contains(v) && forall|o: Seq<char>| #[trigger]
            ids.contains(o) ==> store.active[v].last_active <= store.active[o].last_active,
    decreases ids.len(),
{
    let rest = ids.remove(member);
    if rest.len() == 0 {
        assert forall|o: Seq<char>| #[trigger] ids.contains(o) implies store.active[member].last_active
            <= store.active[o].last_active by {
            if o != member {
                assert(rest.contains(o));
            }
        }
    } else {
        let next = rest.choose();
        lemma_least_recently_active(store, rest, next);
        let w = choose|v: Seq<char>| rest.contains(v) && forall|o: Seq<char>| #[trigger]
            rest.contains(o) ==> store.active[v].last_active <= store.active[o].last_active;
        let v = if store.active[member].last_active <= store.active[w].last_active {
            member
        } else {
            w
        };
        assert forall|o: Seq<char>| #[trigger] ids.contains(o) implies store.active[v].last_active
            <= store.active[o].last_active by {
            if o != member {
                assert(rest.contains(o));
            }
        }
        assert(ids.contains(v));
    }
}

/// What is remembered of an id is what the one pair that holds it holds, and
/// nothing if none does.
pub proof fn law_remembered_by_the_pair_that_holds_it(
    known: Seq<(Seq<char>, Skeleton)>,
    id: Seq<char>,
    i: int,
)
    requires
        distinct(known),
    ensures
        0 <= i < known.len() && known[i].0 == id ==> skeleton_of(known, id) == Some(known[i].1),
        (forall|j: int| 0 <= j < known.len() ==> (#[trigger] known[j]).0 != id) ==> skeleton_of(
            known,
            id,
        ) is None,
{
    if 0 <= i < known.len() && known[i].0 == id {
        lemma_skeleton_of(known, i);
    }
    if forall|j: int| 0 <= j < known.len() ==> (#[trigger] known[j]).0 != id {
        lemma_not_known(known, id);
    }
}

/// Room is made only where there is none: below its cap the active tier loses
/// nobody, and neither does it when the conversation that comes in is there
/// already, or when every conversation has a reply in flight or a message that
/// waits.
pub proof fn law_nobody_leaves_without_need(store: StoreView, id: Seq<char>, next: StoreView)
    requires
        store.inv(),
        store.brings_in(id, next),
        store.active.contains_key(id) || store.active.dom().len() < store.max_active || forall|
            other: Seq<char>,
        | #[trigger]
            store.active.contains_key(other) ==> store.active[other].in_flight is Some
                || store.active[other].pending.len() > 0,
    ensures
        next.demotions == store.demotions,
        forall|other: Seq<char>|
            other != id && #[trigger] store.active.contains_key(other)
                ==> next.active.contains_key(other) && next.active[other] == store.active[other],
        forall|other: Seq<char>|
            other != id && #[trigger] next.active.contains_key(other)
                ==> store.active.contains_key(other),
        forall|i: int|
            0 <= i < store.known.len() && (#[trigger] store.known[i]).0 != id
                ==> next.known.contains(store.known[i]),
        next.active.dom().len() <= store.active.dom().len() + 1,
{
    if store.active.contains_key(id) {
        assert(next.active.dom() =~= store.active.dom());
    } else {
        assert(next.active.dom() =~= store.active.dom().insert(id));
    }
    assert forall|i: int| 0 <= i < store.known.len() && (#[trigger] store.known[i]).0
        != id implies next.known.contains(store.known[i]) by {
        lemma_without_others(store.known, id, store.known[i].0);
        lemma_skeleton_of(store.known, i);
        if store.active.contains_key(id) {
            assert(next.known[i] == store.known[i]);
        } else {
            lemma_skeleton_comes_from(next.known, store.known[i].0);
        }
    }
}

/// Where the active tier is full and some conversation has nothing in progress,
/// exactly one leaves it for the one that comes in: one with nothing in progress,
/// and none such was active longer ago. It is remembered by its two bits, as the
/// latest to leave.
pub proof fn law_the_longest_idle_leaves(
    store: StoreView,
    id: Seq<char>,
    next: StoreView,
    idle: Seq<char>,
) -> (left: Seq<char>)
    requires
        store.inv(),
        store.brings_in(id, next),
        !store.active.contains_key(id),
        store.active.dom().len() >= store.max_active,
        store.active.contains_key(idle),
        store.active[idle].in_flight is None,
        store.active[idle].pending.len() == 0,
    ensures
        next.demotions == store.demotions + 1,
        next.active.dom().len() == store.active.dom().len(),
        store.active.contains_key(left),
        !next.active.contains_key(left),
        store.active[left].in_flight is None,
        store.active[left].pending.len() == 0,
        store.active[left].last_active <= store.active[idle].last_active,
        forall|other: Seq<char>|
            other != left && #[trigger] store.active.contains_key(other)
                ==> next.active.contains_key(other) && next.active[other] == store.active[other],
        store.max_known > 0 ==> next.known.len() > 0 && next.known.last() == (
            left,
            Skeleton {
                greeted: store.active[left].greeted,
                ignored: store.active[left].ignored,
            },
        ),
{
    if forall|v: Seq<char>| !store.is_victim(v) {
        lemma_no_victim_no_idle(store);
        assert(store.active[idle].is_idle());
    }
    let v = choose|v: Seq<char>| #[trigger]
        store.is_victim(v) && next.active == store.active.remove(v).insert(id, next.active[id])
            && next.known == without(
            joined(store.known, v, store.active[v].bits(), store.max_known),
            id,
        );
    assert(next.active.dom() =~= store.active.dom().remove(v).insert(id));
    assert(store.active[idle].is_idle());
    let tier = joined(store.known, v, store.active[v].bits(), store.max_known);
    if store.max_known > 0 {
        assert(tier.last() == (v, store.active[v].bits()));
        assert(without(tier, id) == without(tier.drop_last(), id).push(tier.last()));
    }
    v
}

/// What is remembered stays in the order in which it was left: of two that are
/// still remembered, the one that left earlier still stands before the other.
pub proof fn law_memory_keeps_its_order(
    store: StoreView,
    id: Seq<char>,
    next: StoreView,
    p: int,
    q: int,
    i: int,
    j: int,
)
    requires
        store.inv(),
        store.brings_in(id, next),
        0 <= p < q < store.known.len(),
        0 <= i < next.known.len(),
        0 <= j < next.known.len(),
        next.known[i] == store.known[p],
        next.known[j] == store.known[q],
    ensures
        i < j,
{
    if store.active.contains_key(id) {
        assert(store.known[i].0 == store.known[p].0);
        assert(store.known[j].0 == store.known[q].0);
    } else if store.is_full() && exists|v: Seq<char>| store.is_victim(v) {
        let v = choose|v: Seq<char>| #[trigger]
            store.is_victim(v) && next.active == store.active.remove(v).insert(id, next.active[id])
                && next.known == without(
                joined(store.known, v, store.active[v].bits(), store.max_known),
                id,
            );
        let all = store.known.push((v, store.active[v].bits()));
        let tier = joined(store.known, v, store.active[v].bits(), store.max_known);
        lemma_joined(store.known, v, store.active[v].bits(), store.max_known, 0);
        let gone: int = all.len() - tier.len();
        let ti = lemma_without_place(tier, id, i);
        let tj = lemma_without_place(tier, id, j);
        assert(tier[ti] == all[ti + gone]);
        assert(tier[tj] == all[tj + gone]);
        assert(all[p] == store.known[p]);
        assert(all[q] == store.known[q]);
        assert(distinct(all));
        assert(ti + gone == p) by {
            assert(all[ti + gone].0 == all[p].0);
        }
        assert(tj + gone == q) by {
            assert(all[tj + gone].0 == all[q].0);
        }
        lemma_without_in_order(tier, id, i, j);
    } else {
        let ti = lemma_without_place(store.known, id, i);
        let tj = lemma_without_place(store.known, id, j);
        assert(ti == p) by {
            assert(store.known[ti].0 == store.known[p].0);
        }
        assert(tj == q) by {
            assert(store.known[tj].0 == store.known[q].0);
        }
        lemma_without_in_order(store.known, id, i, j);
    }
}

/// Where the pair at `i` stood before `id` was taken out.
spec fn place_before(known: Seq<(Seq<char>, Skeleton)>, id: Seq<char>, i: int) -> int {
    if exists|k: int| 0 <= k <= i && k < known.len() && (#[trigger] known[k]).0 == id {
        i + 1
    } else {
        i
    }
}

/// Where the pair at `i` stood before `id` was taken out.
proof fn lemma_without_place(known: Seq<(Seq<char>, Skeleton)>, id: Seq<char>, i: int) -> (at: int)
    requires
        distinct(known),
        0 <= i < without(known, id).len(),
    ensures
        at == place_before(known, id, i),
        0 <= at < known.len(),
        known[at] == without(known, id)[i],
{
    if exists|k: int| 0 <= k < known.len() && (#[trigger] known[k]).0 == id {
        let k = choose|k: int| 0 <= k < known.len() && (#[trigger] known[k]).0 == id;
        lemma_without(known, k);
        if k <= i {
            assert(place_before(known, id, i) == i + 1);
        } else {
            assert forall|m: int| 0 <= m <= i && m < known.len() implies (#[trigger] known[m]).0
                != id by {}
        }
    } else {
        lemma_not_known(known, id);
    }
    place_before(known, id, i)
}

/// Taking an id out leaves the order of the others.
proof fn lemma_without_in_order(known: Seq<(Seq<char>, Skeleton)>, id: Seq<char>, i: int, j: int)
    requires
        place_before(known, id, i) < place_before(known, id, j),
    ensures
        i < j,
{
    if i > j {
        if place_before(known, id, j) == j + 1 {
            let k = choose|k: int| 0 <= k <= j && k < known.len() && (#[trigger] known[k]).0 == id;
            assert(0 <= k <= i && known[k].0 == id);
        }
    }
}

/// A conversation is seen whole: both bits, every turn, its limiter, every message
/// that waits, in order, the one in flight, and when it was last active.
pub proof fn law_conversation_is_seen_whole(state: ConvoState, i: int)
    ensures
        state@.greeted == state.greeted,
        state@.ignored == state.ignored,
        state@.history.len() == state.history@.len(),
        0 <= i < state.history@.len() ==> state@.history[i] == state.history@[i]@,
        state@.limiter == state.limiter@,
        state@.pending.len() == state.pending@.len(),
        0 <= i < state.pending@.len() ==> state@.pending[i] == state.pending@[i]@,
        state.in_flight is None <==> state@.in_flight is None,
        state.in_flight is Some ==> state@.in_flight == Some(state.in_flight->0@),
        state@.last_active == state.last_active@,
{
}

/// A store is seen whole: every conversation of the active tier under its id,
/// every remembered one with its bits, in order, and nothing else.
proof fn law_store_is_seen_whole(store: ConvoStore, i: int, id: Seq<char>)
    requires
        store.wf(),
    ensures
        0 <= i < store.active@.len() ==> store@.active.contains_key(store.active@[i].id@)
            && store@.active[store.active@[i].id@] == store.active@[i].state@,
        store@.active.contains_key(id) ==> exists|j: int|
            0 <= j < store.active@.len() && (#[trigger] store.active@[j]).id@ == id,
        store@.active.dom().len() == store.active@.len(),
        store@.known.len() == store.known@.len(),
        0 <= i < store.known@.len() ==> store@.known[i] == (
            store.known@[i].id@,
            store.known@[i].skeleton,
        ),
        store@.max_active == store.max_active,
        store@.max_known == store.max_known,
        store@.demotions == store.demotions,
{
    lemma_by_id_len(store.active@);
    if 0 <= i < store.active@.len() {
        lemma_by_id_holds(store.active@, i);
    }
    if store@.active.contains_key(id) {
        lemma_by_id_holds_only(store.active@, id);
    }
}

/// A conversation's class is known exactly if it is active or remembered, and is
/// then its own ignored bit.
pub proof fn law_class_is_the_ignored_bit(store: StoreView, id: Seq<char>, i: int)
    requires
        store.inv(),
    ensures
        store.active.contains_key(id) ==> store.class_of(id) == Some(store.active[id].ignored),
        0 <= i < store.known.len() && store.known[i].0 == id ==> store.class_of(id) == Some(
            store.known[i].1.ignored,
        ),
        !store.active.contains_key(id) && (forall|j: int|
            0 <= j < store.known.len() ==> (#[trigger] store.known[j]).0 != id) ==> store.class_of(
            id,
        ) is None,
{
    law_remembered_by_the_pair_that_holds_it(store.known, id, i);
}

/// A reply is in flight for exactly the active conversations that have one.
pub proof fn law_in_flight_are_those_being_answered(store: StoreView, id: Seq<char>)
    ensures
        store.in_flight_ids().contains(id) <==> store.active.contains_key(id)
            && store.active[id].in_flight is Some,
{
}

} // verus!
