//! The throttle, and the tables behind it.

use thermostat_linker::table::Table;
use thermostat_linker::throttle::{WriteThrottle, NANOS_PER_SEC};
use thermostat_linker::writes::{gate, Gate};

#[test]
fn a_write_is_allowed_again_when_the_interval_has_passed() {
    let mut throttle = WriteThrottle::new(300);
    assert!(!throttle.attempted("a"));
    assert_eq!(throttle.retry_in_at("a", 0), None);
    assert!(throttle.allow_at("a", 1_000));
    assert!(throttle.attempted("a"));
    assert!(!throttle.allow_at("a", 300 * NANOS_PER_SEC + 999));
    assert_eq!(throttle.retry_in_at("a", 300 * NANOS_PER_SEC + 999), Some(1));
    assert_eq!(throttle.retry_in_at("a", 300 * NANOS_PER_SEC + 1_000), Some(0));
    assert_eq!(throttle.retry_in_at("a", 300 * NANOS_PER_SEC + 1_001), None);
    assert!(throttle.allow_at("a", 300 * NANOS_PER_SEC + 1_000));
    assert!(!throttle.allow_at("a", 300 * NANOS_PER_SEC + 1_001));
}

#[test]
fn being_refused_does_not_start_the_interval_anew() {
    let mut throttle = WriteThrottle::new(10);
    assert!(throttle.allow_at("a", 0));
    assert!(!throttle.allow_at("a", 9 * NANOS_PER_SEC));
    assert!(throttle.allow_at("a", 10 * NANOS_PER_SEC));
}

#[test]
fn keys_are_throttled_apart() {
    let mut throttle = WriteThrottle::new(10);
    assert!(throttle.allow_at("a", 0));
    assert!(throttle.allow_at("b", 0));
    throttle.clear("a");
    assert!(!throttle.attempted("a"));
    assert!(throttle.attempted("b"));
    assert!(throttle.allow_at("a", 0));
    assert!(!throttle.allow_at("b", 0));
}

#[test]
fn the_clock_runs_from_the_first_attempt() {
    let mut throttle = WriteThrottle::new(3_600);
    assert!(throttle.allow("a"));
    assert!(!throttle.allow("a"));
    let left = throttle.retry_in("a").unwrap();
    assert!(left <= 3_600 * NANOS_PER_SEC);
    assert!(left > 3_500 * NANOS_PER_SEC);
    assert_eq!(throttle.retry_in("b"), None);
    throttle.clear("a");
    assert!(throttle.allow("a"));
}

#[test]
fn the_clock_moves() {
    let mut throttle = WriteThrottle::new(3_600);
    assert!(throttle.allow("a"));
    let first = throttle.retry_in("a").unwrap();
    let mut later = first;
    for _ in 0..10_000_000 {
        later = throttle.retry_in("a").unwrap();
        if later < first {
            break;
        }
    }
    assert!(later < first);
}

#[test]
fn clearing_one_key_leaves_the_clock_of_the_others() {
    let mut throttle = WriteThrottle::new(3_600);
    assert!(throttle.allow("a"));
    assert!(throttle.allow("b"));
    let before = throttle.retry_in("b").unwrap();
    throttle.clear("a");
    assert!(throttle.allow("a"));
    assert!(!throttle.allow("b"));
    assert!(throttle.retry_in("b").unwrap() <= before);
}

#[test]
fn without_an_interval_nothing_is_held_back() {
    let mut throttle = WriteThrottle::default();
    assert!(throttle.allow("a"));
    assert!(throttle.allow("a"));
    assert!(throttle.allow_at("a", 0));
}

#[test]
fn a_command_that_was_dropped_is_retried() {
    let mut throttle = WriteThrottle::new(300);
    let minute = 60 * NANOS_PER_SEC;
    assert_eq!(gate(&mut throttle, "k", false, 0), Gate::Send { retry: false });
    assert_eq!(
        gate(&mut throttle, "k", false, minute),
        Gate::Wait { nanos: 4 * minute }
    );
    assert_eq!(
        gate(&mut throttle, "k", false, 5 * minute),
        Gate::Send { retry: true }
    );
    assert_eq!(gate(&mut throttle, "k", true, 6 * minute), Gate::Settled);
    assert_eq!(
        gate(&mut throttle, "k", false, 6 * minute),
        Gate::Send { retry: false }
    );
}

#[test]
fn a_table_is_walked_in_the_order_of_its_keys() {
    let mut table = Table::new();
    for (i, key) in ["b", "", "ab", "a", "é", "B", "b"].iter().enumerate() {
        table.insert(key.to_string(), i);
    }
    let walk: Vec<(String, usize)> = (0..table.len())
        .map(|i| (table.key_at(i).clone(), *table.value_at(i)))
        .collect();
    assert_eq!(
        walk,
        vec![
            (String::new(), 1),
            ("B".to_string(), 5),
            ("a".to_string(), 3),
            ("ab".to_string(), 2),
            ("b".to_string(), 6),
            ("é".to_string(), 4),
        ]
    );
    table.remove("ab");
    table.remove("zz");
    assert_eq!(table.len(), 5);
    assert_eq!(table.get("ab"), None);
    assert_eq!(table.get("b"), Some(&6));
    assert!(table.contains_key(""));
    assert!(!table.contains_key("c"));
}
