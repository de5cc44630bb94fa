use dialogos::convos::ConvoStore;
use dialogos::llm::Turn;
use dialogos::time::Instant;

fn store() -> ConvoStore {
    ConvoStore::new(3, 4)
}

/// A moment `secs` seconds after an arbitrary start.
fn at(secs: u64) -> Instant {
    Instant::from_nanos((1_000 + secs) * 1_000_000_000)
}

#[test]
fn activate_creates_fresh_state_and_marks_it_active() {
    let mut s = store();
    let now = at(0);
    let state = s.activate("a", now);
    assert!(!state.greeted);
    assert!(!state.ignored);
    assert_eq!(state.last_active, now);
    assert_eq!(s.classification("a"), Some(false));
    assert_eq!(s.classification("never-seen"), None);
}

#[test]
fn full_active_tier_demotes_the_least_recently_active() {
    let mut s = store();
    // Fill the active tier (cap 3), oldest to newest: a, b, c.
    s.activate("a", at(0));
    s.activate("b", at(1));
    s.activate("c", at(2));
    // A fourth activation demotes the least-recently-active, "a".
    s.activate("d", at(3));

    assert_eq!(s.active_len(), 3);
    assert!(s.get("a").is_none(), "a should have been demoted");
    assert!(s.get("d").is_some());
    // Demoted, not forgotten: still classifiable via the skeleton tier.
    assert_eq!(s.classification("a"), Some(false));
}

#[test]
fn an_in_flight_conversation_is_never_demoted() {
    let mut s = store();
    // "a" is the oldest but has a reply in flight.
    s.activate("a", at(0)).in_flight = Some("q".to_string());
    s.activate("b", at(1));
    s.activate("c", at(2));
    // The next activation must skip in-flight "a" and demote "b" instead.
    s.activate("d", at(3));

    assert!(s.get("a").is_some(), "in-flight a must be kept");
    assert!(s.get("b").is_none(), "idle, oldest-evictable b should go");
}

#[test]
fn promotion_restores_the_greeted_and_ignored_bits() {
    let mut s = store();
    {
        let a = s.activate("a", at(0));
        a.greeted = true;
        a.ignored = true;
    }
    s.activate("b", at(1));
    s.activate("c", at(2));
    s.activate("d", at(3)); // demotes "a"
    assert!(s.get("a").is_none());

    // Re-activating "a" promotes it from the skeleton with its bits intact.
    let a = s.activate("a", at(4));
    assert!(a.greeted);
    assert!(a.ignored);
}

#[test]
fn skeleton_tier_evicts_oldest_when_full() {
    // Active cap 1 so every new conversation demotes the previous one.
    let mut s = ConvoStore::new(1, 2);
    for (i, id) in ["a", "b", "c", "d"].iter().enumerate() {
        s.activate(id, at(i as u64));
    }
    // Skeleton cap 2: the two most recently demoted (b, c) survive; a, the
    // oldest, was evicted. d is still active.
    assert_eq!(s.classification("a"), None, "oldest skeleton evicted");
    assert_eq!(s.classification("b"), Some(false));
    assert_eq!(s.classification("c"), Some(false));
    assert!(s.get("d").is_some());
}

#[test]
fn a_queued_conversation_is_never_demoted() {
    let mut s = ConvoStore::new(1, 2);
    s.activate("a", at(0)).pending.push_back("q".to_string());
    s.activate("b", at(1));
    // Nothing could be demoted, so the tier is over its cap.
    assert_eq!(s.active_len(), 2);
    assert_eq!(s.demotion_count(), 0);
    assert!(s.get("a").is_some());
}

#[test]
fn activating_again_makes_a_conversation_recent() {
    let mut s = store();
    s.activate("a", at(0)).greeted = true;
    s.activate("b", at(1));
    s.activate("c", at(2));
    assert!(s.activate("a", at(3)).greeted);
    s.activate("d", at(4));
    assert!(s.get("a").is_some());
    assert!(s.get("b").is_none());
    assert_eq!(s.demotion_count(), 1);
}

#[test]
fn a_promotion_into_full_tiers_keeps_the_bits() {
    let mut s = ConvoStore::new(1, 1);
    s.activate("a", at(0)).greeted = true;
    s.activate("b", at(1)).ignored = true; // demotes "a"
    // "a" is the oldest skeleton of a full tier, and comes back before "b"
    // takes its place there.
    assert!(s.activate("a", at(2)).greeted);
    assert_eq!(s.classification("b"), Some(true));
    assert_eq!(s.active_len(), 1);
}

#[test]
fn a_store_without_room_for_skeletons_forgets() {
    let mut s = ConvoStore::new(1, 0);
    s.activate("a", at(0)).greeted = true;
    s.activate("b", at(1));
    assert_eq!(s.classification("a"), None);
    assert!(!s.activate("a", at(2)).greeted);
}

#[test]
fn in_flight_replies_are_counted() {
    let mut s = store();
    assert_eq!(s.in_flight_count(), 0);
    s.activate("a", at(0)).in_flight = Some("q".to_string());
    s.activate("b", at(1));
    s.activate("c", at(2)).in_flight = Some("r".to_string());
    assert_eq!(s.in_flight_count(), 2);
    s.get_mut("a").unwrap().in_flight = None;
    assert_eq!(s.in_flight_count(), 1);
    assert!(s.get_mut("never-seen").is_none());
}

#[test]
fn a_full_skeleton_tier_makes_room_for_the_demoted_before_the_promoted_leaves() {
    let mut s = ConvoStore::new(1, 2);
    s.activate("a", at(0));
    s.activate("b", at(1)).greeted = true;
    s.activate("c", at(2));
    // "a" and "b" are remembered; promoting "b" demotes "c", and "a" is the
    // oldest of one too many.
    assert!(s.activate("b", at(3)).greeted);
    assert_eq!(s.classification("a"), None);
    assert_eq!(s.classification("c"), Some(false));
    assert_eq!(s.demotion_count(), 3);
}

#[test]
fn bringing_one_in_leaves_the_others_as_they_are() {
    let mut s = store();
    s.activate("a", at(0)).ignored = true;
    {
        let b = s.activate("b", at(1));
        b.greeted = true;
        b.pending.push_back("q".to_string());
    }
    s.activate("c", at(2));
    s.activate("d", at(3)); // demotes "a"
    let b = s.get("b").unwrap();
    assert!(b.greeted);
    assert_eq!(b.pending.len(), 1);
    assert_eq!(b.last_active, at(1));
    assert_eq!(s.classification("a"), Some(true));
}

#[test]
fn the_bits_survive_many_activations() {
    let mut s = ConvoStore::new(2, 4);
    {
        let a = s.activate("a", at(0));
        a.greeted = true;
        a.ignored = true;
        a.history.push(Turn::user("hi"));
    }
    // "a" is demoted, then three more; the rest only come and go.
    for (i, id) in ["b", "c", "d", "e", "f", "f", "e", "f", "e"]
        .iter()
        .enumerate()
    {
        s.activate(id, at(1 + i as u64));
    }
    assert_eq!(s.demotion_count(), 4);
    assert!(s.get("a").is_none());
    assert_eq!(s.classification("a"), Some(true));
    let a = s.activate("a", at(20));
    assert!(a.greeted && a.ignored);
    assert!(a.history.is_empty() && a.pending.is_empty() && a.in_flight.is_none());
    assert_eq!(a.last_active, at(20));
}
