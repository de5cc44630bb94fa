use dialogos::limits::{admit_message, Admission, ConvoLimiter, DailyBudget, Limits};
use dialogos::time::{current_day, Duration, Instant};

fn limits() -> Limits {
    Limits {
        per_convo_window: Duration::from_secs(60),
        per_convo_max_messages: 3,
        daily_max_messages: 5,
        daily_max_tokens: 1_000,
        max_active_conversations: 1_024,
        max_known_conversations: 65_536,
    }
}

/// A moment `secs` seconds after an arbitrary start.
fn at(secs: u64) -> Instant {
    Instant::from_nanos((1_000 + secs) * 1_000_000_000)
}

#[test]
fn allows_up_to_the_window_max_then_denies_and_mutes() {
    let l = limits();
    let mut convo = ConvoLimiter::default();
    let mut budget = DailyBudget::default();

    for i in 0..l.per_convo_max_messages {
        assert_eq!(
            admit_message(&mut convo, &mut budget, at(i as u64), 0, &l),
            Admission::Allow
        );
    }

    // The next one within the window trips: one canned reply...
    let tripped = admit_message(&mut convo, &mut budget, at(3), 0, &l);
    assert!(matches!(tripped, Admission::Deny(_)));

    // ...then silence for the rest of the window.
    assert_eq!(
        admit_message(&mut convo, &mut budget, at(4), 0, &l),
        Admission::SilentlyDrop
    );
}

#[test]
fn allows_again_after_the_window_slides_past() {
    let l = limits();
    let mut convo = ConvoLimiter::default();
    let mut budget = DailyBudget::default();

    for i in 0..l.per_convo_max_messages {
        let _ = admit_message(&mut convo, &mut budget, at(i as u64), 0, &l);
    }
    // Trip, which mutes until 3s + window.
    assert!(matches!(
        admit_message(&mut convo, &mut budget, at(3), 0, &l),
        Admission::Deny(_)
    ));

    // Well past the mute and the window: the old timestamps have aged out.
    assert_eq!(
        admit_message(&mut convo, &mut budget, at(200), 0, &l),
        Admission::Allow
    );
}

#[test]
fn daily_message_cap_denies_further_replies() {
    let l = limits();
    let mut budget = DailyBudget::default();

    // Simulate replies until the daily message cap is reached.
    for _ in 0..l.daily_max_messages {
        budget.record(0, 1);
    }
    // A fresh conversation (so the window is not the limiter) is told once...
    let mut fresh = ConvoLimiter::default();
    assert!(matches!(
        admit_message(&mut fresh, &mut budget, at(0), 0, &l),
        Admission::Deny(_)
    ));
    // ...then goes silent for the window rather than replying every time.
    assert_eq!(
        admit_message(&mut fresh, &mut budget, at(1), 0, &l),
        Admission::SilentlyDrop
    );
}

#[test]
fn daily_token_cap_denies_further_replies() {
    let l = limits();
    let mut budget = DailyBudget::default();
    budget.record(0, l.daily_max_tokens);
    let mut fresh = ConvoLimiter::default();
    assert!(matches!(
        admit_message(&mut fresh, &mut budget, at(0), 0, &l),
        Admission::Deny(_)
    ));
}

#[test]
fn budget_rolls_over_on_a_new_day() {
    let l = limits();
    let mut budget = DailyBudget::default();
    for _ in 0..l.daily_max_messages {
        budget.record(0, 1);
    }
    assert!(budget.exhausted(&l));

    // A new day resets the counters, so the next message is allowed.
    let mut fresh = ConvoLimiter::default();
    assert_eq!(
        admit_message(&mut fresh, &mut budget, at(0), 1, &l),
        Admission::Allow
    );
    assert!(!budget.exhausted(&l));
}

#[test]
fn canned_replies_read_as_documented() {
    let l = limits();
    let mut convo = ConvoLimiter::default();
    let mut budget = DailyBudget::default();
    for i in 0..3 {
        assert_eq!(
            admit_message(&mut convo, &mut budget, at(i), 0, &l),
            Admission::Allow
        );
    }
    // A window of 60 seconds is "about 2 minutes".
    assert_eq!(
        admit_message(&mut convo, &mut budget, at(3), 0, &l),
        Admission::Deny(
            "You're sending messages too quickly. Please try again in about 2 minute(s)."
                .to_string()
        )
    );

    budget.record(0, 1_000);
    let mut other = ConvoLimiter::default();
    assert_eq!(
        admit_message(&mut other, &mut budget, at(3), 0, &l),
        Admission::Deny("Daily limit reached. Please try again tomorrow.".to_string())
    );
}

#[test]
fn the_mute_lasts_exactly_one_window() {
    let l = limits();
    let mut convo = ConvoLimiter::default();
    let mut budget = DailyBudget::default();
    for i in 0..3 {
        let _ = admit_message(&mut convo, &mut budget, at(i), 0, &l);
    }
    let _ = admit_message(&mut convo, &mut budget, at(3), 0, &l);
    assert_eq!(
        admit_message(&mut convo, &mut budget, at(62), 0, &l),
        Admission::SilentlyDrop
    );
    // At 63 s the mute is over, and the three times of the start are a window old.
    assert_eq!(
        admit_message(&mut convo, &mut budget, at(63), 0, &l),
        Admission::Allow
    );
}

#[test]
fn a_run_one_longer_than_the_maximum_spans_a_window() {
    let l = limits();
    let mut convo = ConvoLimiter::default();
    let mut budget = DailyBudget::default();
    let mut answered: Vec<u64> = Vec::new();
    for secs in 0..1_000 {
        if admit_message(&mut convo, &mut budget, at(secs), 0, &l) == Admission::Allow {
            answered.push(secs);
        }
    }
    assert!(answered.len() > 3);
    for i in 0..answered.len() - 3 {
        assert!(answered[i] + 60 <= answered[i + 3]);
    }
}

#[test]
fn an_enormous_window_does_not_overflow() {
    let l = Limits {
        per_convo_window: Duration::new(u64::MAX, 999_999_999),
        per_convo_max_messages: 0,
        ..limits()
    };
    let mut convo = ConvoLimiter::default();
    let mut budget = DailyBudget::default();
    assert_eq!(
        admit_message(&mut convo, &mut budget, Instant::from_nanos(u64::MAX), 0, &l),
        Admission::Deny(
            "You're sending messages too quickly. Please try again in about 307445734561825861 minute(s)."
                .to_string()
        )
    );
    assert_eq!(
        admit_message(&mut convo, &mut budget, Instant::from_nanos(u64::MAX), 0, &l),
        Admission::SilentlyDrop
    );
}

#[test]
fn counters_saturate() {
    let mut budget = DailyBudget::default();
    budget.record(7, u64::MAX);
    budget.record(7, 1);
    assert_eq!(budget.tokens(), u64::MAX);
    assert_eq!(budget.messages(), 2);
    assert_eq!(budget.seen_on(7).messages(), 2);
    assert_eq!(budget.seen_on(8).messages(), 0);
    assert_eq!(budget.seen_on(8).tokens(), 0);
}

#[test]
fn a_saved_budget_is_restored() {
    let mut budget = DailyBudget::default();
    budget.record(20_000, 1_234);
    budget.record(20_000, 66);
    let text = budget.to_json();
    assert_eq!(text, "{\"day\":20000,\"messages\":2,\"tokens\":1300}");
    assert_eq!(DailyBudget::from_json(&text), Some(budget));
    assert_eq!(DailyBudget::restore(Some(&text)), budget);

    let mut largest = DailyBudget::default();
    largest.record(u64::MAX, u64::MAX);
    assert_eq!(DailyBudget::from_json(&largest.to_json()), Some(largest));
}

#[test]
fn what_was_never_saved_is_not_restored() {
    for text in [
        "",
        "{}",
        "{\"day\":1,\"messages\":2,\"tokens\":3",
        "{\"day\":1,\"messages\":2,\"tokens\":3}x",
        "{\"day\":01,\"messages\":2,\"tokens\":3}",
        "{\"day\":,\"messages\":2,\"tokens\":3}",
        "{\"day\":1,\"messages\":4294967296,\"tokens\":3}",
        "{\"day\":18446744073709551616,\"messages\":2,\"tokens\":3}",
    ] {
        assert_eq!(DailyBudget::from_json(text), None, "{text}");
        assert_eq!(DailyBudget::restore(Some(text)), DailyBudget::default());
    }
    assert_eq!(DailyBudget::restore(None), DailyBudget::default());
}

#[test]
fn a_saved_budget_is_json() {
    let mut budget = DailyBudget::default();
    budget.record(3, 9);
    let value: serde_json::Value = serde_json::from_str(&budget.to_json()).unwrap();
    assert_eq!(value["day"].as_u64(), Some(3));
    assert_eq!(value["messages"].as_u64(), Some(1));
    assert_eq!(value["tokens"].as_u64(), Some(9));
}

#[test]
fn days_begin_at_utc_midnight() {
    assert_eq!(current_day(None), 0);
    assert_eq!(current_day(Some(0)), 0);
    assert_eq!(current_day(Some(86_399)), 0);
    assert_eq!(current_day(Some(86_400)), 1);
    assert_eq!(current_day(Some(1_700_000_000)), 19_675);
}

#[test]
fn only_replies_are_counted() {
    let l = limits();
    let mut convo = ConvoLimiter::default();
    let mut budget = DailyBudget::default();
    for i in 0..10 {
        let _ = admit_message(&mut convo, &mut budget, at(i), 4, &l);
    }
    assert_eq!(budget.messages(), 0);
    assert_eq!(budget.tokens(), 0);
    budget.record(4, 7);
    assert_eq!(budget.messages(), 1);
    assert_eq!(budget.tokens(), 7);
}
