use actix_ogn::backoff::BackoffPolicy;

#[test]
fn delays_double_up_to_the_maximum() {
    let mut policy = BackoffPolicy::new(500, 2, 60_000);
    let delays: Vec<u64> = (0..10).map(|_| policy.next_backoff()).collect();
    assert_eq!(delays, vec![500, 1000, 2000, 4000, 8000, 16_000, 32_000, 60_000, 60_000, 60_000]);
}

#[test]
fn nth_delay_follows_the_formula() {
    for (initial, multiplier, max) in [(500u64, 2u64, 60_000u64), (1, 3, 1000), (7, 1, 10), (3, 10, 3)] {
        let mut policy = BackoffPolicy::new(initial, multiplier, max);
        for n in 1..=12u32 {
            let expected = (initial as u128 * (multiplier as u128).pow(n - 1)).min(max as u128);
            assert_eq!(policy.next_backoff() as u128, expected);
        }
    }
}

#[test]
fn reset_restores_the_initial_interval() {
    let mut policy = BackoffPolicy::new(500, 2, 60_000);
    policy.next_backoff();
    policy.next_backoff();
    policy.next_backoff();
    assert_eq!(policy.current_interval(), 4000);
    policy.reset();
    assert_eq!(policy.current_interval(), 500);
    assert_eq!(policy.next_backoff(), 500);
}

#[test]
fn growth_beyond_the_machine_word_is_held_to_the_maximum() {
    let mut policy = BackoffPolicy::new(u64::MAX / 2 + 1, 3, u64::MAX);
    assert_eq!(policy.next_backoff(), u64::MAX / 2 + 1);
    assert_eq!(policy.next_backoff(), u64::MAX);
    assert_eq!(policy.next_backoff(), u64::MAX);
}

#[test]
fn multiplier_of_zero_drops_to_zero() {
    let mut policy = BackoffPolicy::new(500, 0, 60_000);
    assert_eq!(policy.next_backoff(), 500);
    assert_eq!(policy.next_backoff(), 0);
    assert_eq!(policy.next_backoff(), 0);
}

#[test]
fn initial_interval_above_the_maximum_is_held_to_it() {
    let mut policy = BackoffPolicy::new(10, 2, 5);
    assert_eq!(policy.next_backoff(), 5);
    assert_eq!(policy.next_backoff(), 5);
    policy.reset();
    assert_eq!(policy.current_interval(), 10);
    assert_eq!(policy.next_backoff(), 5);
}

#[test]
fn getters_return_the_configuration() {
    let policy = BackoffPolicy::new(500, 2, 60_000);
    assert_eq!(policy.initial_interval(), 500);
    assert_eq!(policy.current_interval(), 500);
    assert_eq!(policy.multiplier(), 2);
    assert_eq!(policy.max_interval(), 60_000);
}
