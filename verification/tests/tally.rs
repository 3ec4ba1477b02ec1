use monte_carlo_engine::HitTally;

#[test]
fn new_tally_is_empty() {
    let tally = HitTally::new(5);
    assert_eq!(tally.trial_size(), 5);
    assert_eq!(tally.draws(), 0);
    assert_eq!(tally.hits(), 0);
    assert!(!tally.is_complete());
}

#[test]
fn tally_of_size_zero_is_complete_at_once() {
    let tally = HitTally::new(0);
    assert!(tally.is_complete());
    assert_eq!(tally.draws(), 0);
    assert_eq!(tally.hits(), 0);
}

#[test]
fn tally_counts_draws_and_hits() {
    let mut tally = HitTally::new(4);
    tally.record(true);
    assert_eq!((tally.draws(), tally.hits()), (1, 1));
    tally.record(false);
    assert_eq!((tally.draws(), tally.hits()), (2, 1));
    tally.record(true);
    assert_eq!((tally.draws(), tally.hits()), (3, 2));
    assert!(!tally.is_complete());
    tally.record(false);
    assert_eq!((tally.draws(), tally.hits()), (4, 2));
    assert!(tally.is_complete());
    assert_eq!(tally.trial_size(), 4);
}

#[test]
fn tally_of_misses_has_no_hit() {
    let mut tally = HitTally::new(3);
    while !tally.is_complete() {
        tally.record(false);
    }
    assert_eq!(tally.draws(), 3);
    assert_eq!(tally.hits(), 0);
}

#[test]
fn tally_of_hits_has_as_many_hits_as_draws() {
    let mut tally = HitTally::new(1000);
    while !tally.is_complete() {
        tally.record(true);
    }
    assert_eq!(tally.draws(), 1000);
    assert_eq!(tally.hits(), 1000);
}
