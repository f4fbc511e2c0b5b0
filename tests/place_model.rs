use tapn::{Invariant, Place};

fn place(tokens: Vec<u64>) -> Place {
    Place::new(0, "p".to_string(), tokens, vec![])
}

#[test]
fn invariant_checks_bound() {
    let at_most = Invariant::new(5, false);
    let below = Invariant::new(5, true);
    assert!(at_most.check(5));
    assert!(!at_most.check(6));
    assert!(!below.check(5));
    assert!(below.check(4));
}

#[test]
fn remove_tokens_takes_the_oldest() {
    let mut p = place(vec![3, 9, 1, 9, 5]);
    let taken = p.remove_tokens(2);
    assert_eq!(taken, vec![9, 9]);
    assert_eq!(p.tokens, vec![3, 1, 5]);
}

#[test]
fn remove_tokens_orders_taken_oldest_first() {
    let mut p = place(vec![2, 7, 4, 6]);
    let taken = p.remove_tokens(3);
    assert_eq!(taken, vec![7, 6, 4]);
    assert_eq!(p.tokens, vec![2]);
}

#[test]
fn remove_tokens_all_of_them() {
    let mut p = place(vec![4, 1, 8]);
    let taken = p.remove_tokens(3);
    assert_eq!(taken, vec![8, 4, 1]);
    assert!(p.tokens.is_empty());
}

#[test]
fn remove_tokens_more_than_held_is_noop() {
    let mut p = place(vec![4, 1, 8]);
    let taken = p.remove_tokens(4);
    assert!(taken.is_empty());
    assert_eq!(p.tokens, vec![4, 1, 8]);
}

#[test]
fn remove_zero_tokens() {
    let mut p = place(vec![4, 1]);
    assert!(p.remove_tokens(0).is_empty());
    assert_eq!(p.tokens, vec![4, 1]);
}

#[test]
fn add_tokens_appends_in_order() {
    let mut p = place(vec![4]);
    p.add_tokens(&[7, 0, 2]);
    assert_eq!(p.tokens, vec![4, 7, 0, 2]);
}

#[test]
fn tokens_hold_counts_window() {
    let p = place(vec![0, 5, 10, 15]);
    assert!(p.tokens_hold(2, &[5, 10]));
    assert!(!p.tokens_hold(3, &[5, 10]));
    assert!(p.tokens_hold(4, &[0, u64::MAX]));
    assert!(p.tokens_hold(0, &[100, 200]));
}

#[test]
fn tokens_hold_is_monotone() {
    let p = place(vec![1, 2, 3, 30]);
    assert!(p.tokens_hold(3, &[1, 3]));
    for n in 0..=3 {
        assert!(p.tokens_hold(n, &[1, 3]));
    }
    assert!(!p.tokens_hold(4, &[1, 3]));
}

#[test]
fn tokens_hold_ignores_token_order() {
    let p = place(vec![50, 1, 2]);
    assert!(p.tokens_hold(2, &[0, 10]));
}

#[test]
fn invariants_hold_zero_and_too_many() {
    let p = Place::new(0, "p".to_string(), vec![3, 7], vec![Invariant::new(5, false)]);
    assert!(p.invariants_hold(0));
    assert!(p.invariants_hold(1));
    assert!(!p.invariants_hold(2));
    assert!(!p.invariants_hold(3));
    let empty = place(vec![]);
    assert!(empty.invariants_hold(0));
    assert!(!empty.invariants_hold(1));
}

#[test]
fn invariants_hold_without_invariants() {
    let p = place(vec![100, 200]);
    assert!(p.invariants_hold(2));
    assert!(!p.invariants_hold(3));
}

#[test]
fn invariants_hold_needs_all_invariants() {
    let invs = vec![Invariant::new(10, false), Invariant::new(4, true)];
    let p = Place::new(0, "p".to_string(), vec![2, 4, 9, 3], invs);
    assert!(p.invariants_hold(2));
    assert!(!p.invariants_hold(3));
}

#[test]
fn age_by_saturates() {
    let mut p = place(vec![0, u64::MAX - 1]);
    p.age_by(5);
    assert_eq!(p.tokens, vec![5, u64::MAX]);
}
