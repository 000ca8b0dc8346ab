use telegram_bot::DuplicateFilter;
use telegram_bot::UpdateKey;

fn key(chat: i64, msg: &str) -> UpdateKey {
    UpdateKey { chat, msg: msg.to_string() }
}

#[test]
fn first_occurrence_passes() {
    let mut f = DuplicateFilter::new();
    assert!(f.filter(key(5, "1")));
}

#[test]
fn immediate_repeat_is_suppressed() {
    let mut f = DuplicateFilter::new();
    assert!(f.filter(key(5, "1")));
    assert!(!f.filter(key(5, "1")));
}

#[test]
fn distinct_keys_all_pass() {
    let mut f = DuplicateFilter::new();
    assert!(f.filter(key(5, "1")));
    assert!(f.filter(key(5, "2")));
    assert!(f.filter(key(6, "1")));
}

#[test]
fn key_differs_by_chat_and_by_message() {
    let mut f = DuplicateFilter::new();
    assert!(f.filter(key(1, "a")));
    assert!(f.filter(key(2, "a")));
    assert!(f.filter(key(1, "b")));
    assert!(!f.filter(key(1, "a")));
}

#[test]
fn one_rotation_keeps_the_first_key_cached() {
    // Bound 3: the fourth distinct key rotates the generations, but the
    // first key still sits in the now-older generation and is suppressed.
    let mut f = DuplicateFilter::with_bound(3);
    for c in 1..=4i64 {
        assert!(f.filter(key(c, "m")));
    }
    assert!(!f.filter(key(1, "m")));
}

#[test]
fn two_rotations_forget_the_first_key() {
    // Bound 3: after a second rotation the generation holding the first
    // key is cleared, so that key passes the filter again.
    let mut f = DuplicateFilter::with_bound(3);
    for c in 1..=4i64 {
        assert!(f.filter(key(c, "m")));
    }
    for c in 5..=8i64 {
        assert!(f.filter(key(c, "m")));
    }
    assert!(f.filter(key(1, "m")));
}

#[test]
fn standard_bound_rotates_after_10001_distinct_keys() {
    // The standard bound: the 10001st distinct key overflows the active
    // generation and rotates it out; the cache then holds all 10001 keys
    // in the older generation, so the very first key is still suppressed,
    // while a fresh key passes.
    let mut f = DuplicateFilter::new();
    for c in 1..=10001i64 {
        assert!(f.filter(key(c, "m")));
    }
    assert!(!f.filter(key(1, "m")));
    assert!(f.filter(key(20000, "m")));
}
