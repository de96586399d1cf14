use fproxy::RoundRobinStrategy;
use fproxy::Strategy;
use fproxy::StrategyError;

#[test]
fn test_round_robin_works() {
    let mut strategy = RoundRobinStrategy::new(vec![0, 1, 2, 3, 4]).unwrap();
    assert_eq!(strategy.next(), Some(&0));
    assert_eq!(strategy.next(), Some(&1));
    assert_eq!(strategy.next(), Some(&2));
    assert_eq!(strategy.next(), Some(&3));
    assert_eq!(strategy.next(), Some(&4));
    assert_eq!(strategy.next(), Some(&0));
    assert_eq!(strategy.next(), Some(&1));
    assert_eq!(strategy.next(), Some(&2));
    assert_eq!(strategy.next(), Some(&3));
    assert_eq!(strategy.next(), Some(&4));
}

#[test]
fn round_robin_single_item_always_returned() {
    let mut strategy = RoundRobinStrategy::new(vec!["only"]).unwrap();
    for _ in 0..7 {
        assert_eq!(strategy.next(), Some(&"only"));
    }
}

#[test]
fn round_robin_cycle_repeats_in_order() {
    let pool = vec!['a', 'b', 'c'];
    let mut strategy = RoundRobinStrategy::new(pool.clone()).unwrap();
    assert_eq!(strategy.len(), 3);
    for _ in 0..4 {
        let mut seen = Vec::new();
        for _ in 0..3 {
            seen.push(*strategy.next().unwrap());
        }
        assert_eq!(seen, pool);
    }
}

#[test]
fn round_robin_empty_pool_is_refused() {
    let r = RoundRobinStrategy::<u32>::new(Vec::new());
    assert!(matches!(r, Err(StrategyError::EmptyPool)));
}
