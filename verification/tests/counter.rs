//! Tests for the shared counter collaborator.

use smart_account_auth::Counter;

#[test]
fn test_increment() {
    let mut counter = Counter::new();

    // Initial value should be 0
    assert_eq!(counter.get(), 0);

    // First increment
    let result = counter.increment(1);
    assert_eq!(result, 1);
    assert_eq!(counter.get(), 1);

    // Second increment
    let result = counter.increment(1);
    assert_eq!(result, 2);
    assert_eq!(counter.get(), 2);
}

#[test]
fn test_multiple_callers() {
    let mut counter = Counter::new();

    // Both callers increment the same counter
    counter.increment(1);
    counter.increment(2);
    counter.increment(1);

    assert_eq!(counter.get(), 3);
}
