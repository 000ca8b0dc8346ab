use telegram_bot::race_result;
use telegram_bot::Api;
use telegram_bot::CallbackQuery;
use telegram_bot::Message;
use telegram_bot::RaceWinner;
use telegram_bot::SendType;
use telegram_bot::Update;
use telegram_bot::UpdateKind;

fn tokens(names: &[&str]) -> Vec<String> {
    names.iter().map(|n| n.to_string()).collect()
}

fn message_update(update_id: i64, chat_id: i64, message_id: i64) -> Update {
    Update { id: update_id, kind: UpdateKind::Message(Message { chat_id, id: message_id }) }
}

#[test]
fn registry_holds_one_credential_per_token() {
    let api = Api::build_multi(&tokens(&["a", "b", "c"]));
    assert_eq!(api.len(), 3);
    assert_eq!(api.rcv(0), "a");
    assert_eq!(api.rcv(1), "b");
    assert_eq!(api.rcv(2), "c");
    assert_eq!(api.rcv_timeout(1), "b");
}

#[test]
fn all_three_bindings_carry_the_same_token() {
    let mut api = Api::build_multi(&tokens(&["a", "b"]));
    let low = api.send(5, SendType::LOWPRIO);
    assert_eq!(low.index, 0);
    assert!(!low.high_priority);
    assert_eq!(low.token, "a");
    let high = api.send(5, SendType::HIGHPRIO);
    assert_eq!(high.index, 0);
    assert!(high.high_priority);
    assert_eq!(high.token, "a");
    assert_eq!(api.rcv(0), "a");
}

#[test]
fn unseen_conversation_routes_to_index_zero() {
    let mut api = Api::build_multi(&tokens(&["a", "b", "c"]));
    for st in [SendType::LOWPRIO, SendType::HIGHPRIO, SendType::DETERMINISTIC] {
        let r = api.send(77, st);
        assert_eq!(r.index, 0);
    }
}

#[test]
fn deterministic_routing_is_sticky() {
    let mut api = Api::build_multi(&tokens(&["a", "b"]));
    let mut feed = api.stream();
    // Credential 1 sees conversation 9.
    let out = feed.process(&mut api, 1, message_update(100, 9, 1));
    assert!(out.is_some());
    for _ in 0..5 {
        let r = api.send(9, SendType::DETERMINISTIC);
        assert_eq!(r.index, 1);
        assert_eq!(r.token, "b");
    }
}

#[test]
fn round_robin_visits_each_eligible_index_once() {
    let mut api = Api::build_multi(&tokens(&["a", "b", "c"]));
    let mut feed = api.stream();
    // All three credentials see conversation 7.
    for idx in 0..3usize {
        feed.process(&mut api, idx, message_update(100 + idx as i64, 7, idx as i64));
    }
    // Counter starts at 0 and is bumped before use: picks are positions
    // 1, 2, 0 of the eligible sequence [0, 1, 2].
    let picks: Vec<usize> = (0..3).map(|_| api.send(7, SendType::LOWPRIO).index).collect();
    assert_eq!(picks, vec![1, 2, 0]);
    let mut seen = picks.clone();
    seen.sort();
    assert_eq!(seen, vec![0, 1, 2]);
    // The high-priority class has its own counter and starts afresh.
    let hp_picks: Vec<usize> = (0..3).map(|_| api.send(7, SendType::HIGHPRIO).index).collect();
    assert_eq!(hp_picks, vec![1, 2, 0]);
}

#[test]
fn round_robin_over_two_of_three_credentials() {
    let mut api = Api::build_multi(&tokens(&["a", "b", "c"]));
    let mut feed = api.stream();
    // Only credentials 0 and 2 see conversation 4.
    feed.process(&mut api, 0, message_update(1, 4, 1));
    feed.process(&mut api, 2, message_update(2, 4, 2));
    let picks: Vec<usize> = (0..4).map(|_| api.send(4, SendType::LOWPRIO).index).collect();
    // Eligible sequence [0, 2]; counter 1, 2, 3, 4 pick positions 1, 0, 1, 0.
    assert_eq!(picks, vec![2, 0, 2, 0]);
}

#[test]
fn multiplexer_records_affinity_before_filtering() {
    let mut api = Api::build_multi(&tokens(&["a", "b"]));
    let mut feed = api.stream();
    let u = message_update(10, 9, 1);
    assert!(feed.process(&mut api, 1, u.clone()).is_some());
    assert!(api.has_affinity(1, 9));
    assert!(!api.has_affinity(0, 9));
    // The same update arriving on the other credential is suppressed as a
    // duplicate, yet its affinity is still recorded first.
    assert!(feed.process(&mut api, 0, u).is_none());
    assert!(api.has_affinity(0, 9));
}

#[test]
fn callback_updates_use_parsed_chat_instance() {
    let mut api = Api::build_multi(&tokens(&["a"]));
    let mut feed = api.stream();
    let cb = Update {
        id: 1,
        kind: UpdateKind::CallbackQuery(CallbackQuery {
            id: "q1".to_string(),
            chat_instance: "42".to_string(),
            data: None,
        }),
    };
    assert!(feed.process(&mut api, 0, cb).is_some());
    assert!(api.has_affinity(0, 42));
}

#[test]
fn unparseable_chat_instance_counts_as_conversation_zero() {
    let mut api = Api::build_multi(&tokens(&["a"]));
    let mut feed = api.stream();
    let cb = Update {
        id: 1,
        kind: UpdateKind::CallbackQuery(CallbackQuery {
            id: "q1".to_string(),
            chat_instance: "not-a-number".to_string(),
            data: None,
        }),
    };
    assert!(feed.process(&mut api, 0, cb).is_some());
    assert!(api.has_affinity(0, 0));
}

#[test]
fn unrecognized_updates_key_on_their_sequence_number() {
    let mut api = Api::build_multi(&tokens(&["a"]));
    let mut feed = api.stream();
    assert!(feed.process(&mut api, 0, Update { id: 31, kind: UpdateKind::Unknown }).is_some());
    // Same sequence number again: the same identity key, suppressed.
    assert!(feed.process(&mut api, 0, Update { id: 31, kind: UpdateKind::Unknown }).is_none());
    // A different sequence number passes.
    assert!(feed.process(&mut api, 0, Update { id: 32, kind: UpdateKind::Unknown }).is_some());
    assert!(api.has_affinity(0, 0));
}

#[test]
fn send_timeout_routes_like_send() {
    let mut a = Api::build_multi(&tokens(&["a", "b"]));
    let mut b = Api::build_multi(&tokens(&["a", "b"]));
    let mut feed_a = a.stream();
    let mut feed_b = b.stream();
    feed_a.process(&mut a, 1, message_update(1, 6, 1));
    feed_b.process(&mut b, 1, message_update(1, 6, 1));
    let plain = a.send(6, SendType::LOWPRIO);
    let timed = b.send_timeout(6, SendType::LOWPRIO);
    assert_eq!(plain.index, timed.index);
    assert_eq!(plain.token, timed.token);
    assert_eq!(plain.high_priority, timed.high_priority);
}

#[test]
fn timeout_race_settles_for_the_winner() {
    // A zero-length delay against a request that never resolves: the
    // delay wins and the result is empty.
    let lost: Option<i32> = race_result(RaceWinner::Timeout);
    assert_eq!(lost, None);
    // An arbitrarily slow delay against an immediate request: the
    // request's result is binding.
    let won = race_result(RaceWinner::Request(7));
    assert_eq!(won, Some(7));
}

#[test]
fn end_to_end_two_credentials() {
    let mut api = Api::build_multi(&tokens(&["alpha", "beta"]));
    let mut feed = api.stream();
    // An update with chat id 5, message id 1 arrives on credential 0.
    let u = message_update(200, 5, 1);
    assert!(feed.process(&mut api, 0, u.clone()).is_some());
    // Affinity now maps index 0 to {5}.
    assert!(api.has_affinity(0, 5));
    assert!(!api.has_affinity(1, 5));
    // A second identical update is suppressed.
    assert!(feed.process(&mut api, 0, u).is_none());
    // A deterministic send for conversation 5 targets credential 0's
    // send binding.
    let r = api.send(5, SendType::DETERMINISTIC);
    assert_eq!(r.index, 0);
    assert!(!r.high_priority);
    assert_eq!(r.token, "alpha");
}
