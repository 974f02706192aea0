use slate::clock::Clock;
use slate::control_plane::is_outdated;

fn clock_of(pairs: &[(&str, u64)]) -> Clock {
    Clock::from_pairs(pairs.iter().map(|(host, time)| (host.to_string(), *time)).collect())
}

#[test]
fn empty_clocks_are_not_outdated() {
    let a = Clock::new();
    let b = Clock::new();
    assert!(!is_outdated(&a, &b));
    assert_eq!(a.len(), 0);
}

#[test]
fn higher_remote_counter_is_outdated() {
    let local = clock_of(&[("a", 3), ("b", 1)]);
    let remote = clock_of(&[("a", 3), ("b", 2)]);
    assert!(is_outdated(&local, &remote));
    assert!(!is_outdated(&remote, &local));
}

#[test]
fn unknown_host_counts_as_zero() {
    let local = clock_of(&[("a", 3)]);
    let with_new_host = clock_of(&[("a", 3), ("c", 1)]);
    let with_silent_host = clock_of(&[("a", 3), ("c", 0)]);
    assert!(is_outdated(&local, &with_new_host));
    assert!(!is_outdated(&local, &with_silent_host));
    assert!(!is_outdated(&with_new_host, &local));
}

#[test]
fn outdated_is_asymmetric() {
    let a = clock_of(&[("x", 5)]);
    let b = clock_of(&[("x", 2), ("y", 1)]);
    assert!(is_outdated(&a, &b));
    assert!(is_outdated(&b, &a));
}

#[test]
fn equal_clocks_are_mutually_current() {
    let a = clock_of(&[("x", 5), ("y", 2)]);
    let b = clock_of(&[("y", 2), ("x", 5)]);
    assert!(!is_outdated(&a, &b));
    assert!(!is_outdated(&b, &a));
}

#[test]
fn agreeing_clocks_with_one_sided_host_are_not_mutually_current() {
    let a = clock_of(&[("x", 1)]);
    let b = Clock::new();
    assert!(is_outdated(&b, &a));
    assert!(!is_outdated(&a, &b));
}

#[test]
fn insert_sets_and_replaces() {
    let mut clock = Clock::new();
    clock.insert("a".to_string(), 4);
    assert_eq!(clock.get("a"), Some(4));
    assert_eq!(clock.get("b"), None);
    clock.insert("a".to_string(), 2);
    assert_eq!(clock.get("a"), Some(2));
    assert_eq!(clock.len(), 1);
    clock.insert("b".to_string(), 0);
    assert_eq!(clock.get("b"), Some(0));
    assert_eq!(clock.len(), 2);
}

#[test]
fn from_pairs_keeps_the_later_report() {
    let clock = clock_of(&[("a", 1), ("b", 2), ("a", 7)]);
    assert_eq!(clock.get("a"), Some(7));
    assert_eq!(clock.get("b"), Some(2));
    assert_eq!(clock.len(), 2);
}

#[test]
fn to_pairs_lists_each_host_once() {
    let clock = clock_of(&[("a", 1), ("b", 2), ("a", 7)]);
    let mut pairs = clock.to_pairs();
    pairs.sort();
    assert_eq!(pairs, vec![("a".to_string(), 7), ("b".to_string(), 2)]);
}

#[test]
fn observe_takes_the_larger_counter() {
    let mut clock = clock_of(&[("a", 3)]);
    clock.observe("a", 2, None);
    assert_eq!(clock.get("a"), Some(3));
    clock.observe("a", 9, None);
    assert_eq!(clock.get("a"), Some(9));
    clock.observe("b", 0, None);
    assert_eq!(clock.get("b"), Some(0));
}

#[test]
fn observe_leaves_the_protected_host() {
    let mut clock = clock_of(&[("me", 3)]);
    clock.observe("me", 9, Some("me"));
    assert_eq!(clock.get("me"), Some(3));
    clock.observe("ghost", 9, Some("ghost"));
    assert_eq!(clock.get("ghost"), None);
}

#[test]
fn clock_merge_max_semantics() {
    let mut local = clock_of(&[("A", 3), ("B", 1)]);
    let incoming = clock_of(&[("A", 2), ("B", 4), ("C", 7)]);
    local.merge_from(&incoming, None);
    assert_eq!(local.get("A"), Some(3));
    assert_eq!(local.get("B"), Some(4));
    assert_eq!(local.get("C"), Some(7));
    assert_eq!(local.len(), 3);
}

#[test]
fn merge_never_decreases_a_counter() {
    let mut local = clock_of(&[("A", 10), ("B", 10), ("C", 10)]);
    let incoming = clock_of(&[("A", 0), ("B", 9), ("C", 11), ("D", 1)]);
    local.merge_from(&incoming, Some("B"));
    assert_eq!(local.get("A"), Some(10));
    assert_eq!(local.get("B"), Some(10));
    assert_eq!(local.get("C"), Some(11));
    assert_eq!(local.get("D"), Some(1));
}

#[test]
fn merge_is_idempotent() {
    let mut local = clock_of(&[("A", 3), ("B", 1)]);
    let incoming = clock_of(&[("A", 2), ("B", 4), ("C", 7)]);
    local.merge_from(&incoming, Some("A"));
    let mut once = local.to_pairs();
    local.merge_from(&incoming, Some("A"));
    let mut twice = local.to_pairs();
    once.sort();
    twice.sort();
    assert_eq!(once, twice);
    assert!(!is_outdated(&local, &incoming));
}

#[test]
fn clone_keeps_every_counter() {
    let clock = clock_of(&[("a", 1), ("b", 2)]);
    let copy = clock.clone();
    assert_eq!(copy.get("a"), Some(1));
    assert_eq!(copy.get("b"), Some(2));
    assert_eq!(copy.len(), 2);
}
