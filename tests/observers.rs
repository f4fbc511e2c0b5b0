use tapn::{Comparison, SimulationEvent, TokenAgeObserver, TokenCoutObserver};

fn changed(place_id: usize, new_tokens: Vec<u64>) -> SimulationEvent {
    SimulationEvent::TokensChanged { place_id, new_tokens }
}

#[test]
fn check_condition_each_comparison() {
    let o = TokenCoutObserver::new();
    assert!(o.check_condition(1, 2, &Comparison::LessThan));
    assert!(!o.check_condition(2, 2, &Comparison::LessThan));
    assert!(o.check_condition(2, 2, &Comparison::LessOrEqual));
    assert!(!o.check_condition(3, 2, &Comparison::LessOrEqual));
    assert!(o.check_condition(2, 2, &Comparison::Equal));
    assert!(!o.check_condition(1, 2, &Comparison::Equal));
    assert!(o.check_condition(2, 2, &Comparison::GreaterOrEqual));
    assert!(!o.check_condition(1, 2, &Comparison::GreaterOrEqual));
    assert!(o.check_condition(3, 2, &Comparison::GreaterThan));
    assert!(!o.check_condition(2, 2, &Comparison::GreaterThan));
}

#[test]
fn monitor_place_replaces_threshold() {
    let o = TokenCoutObserver::new()
        .monitor_place(1, 1, Comparison::Equal)
        .monitor_place(1, 3, Comparison::GreaterThan)
        .monitor_place(2, 0, Comparison::LessThan);
    assert_eq!(o.place_thesholds.len(), 2);
    assert_eq!(o.place_thesholds[&1], (3, Comparison::GreaterThan));
    assert!(!o.should_stop());
}

#[test]
fn count_observer_ignores_other_places_and_events() {
    let mut o = TokenCoutObserver::new().monitor_place(1, 1, Comparison::Equal);
    o.on_step(&changed(0, vec![0]));
    o.on_step(&SimulationEvent::TimeAdvanced { delta: 1, new_time: 1 });
    o.on_step(&changed(1, vec![]));
    assert!(!o.should_stop());
    o.on_step(&changed(1, vec![4]));
    assert!(o.should_stop());
    o.on_step(&changed(1, vec![4, 5]));
    o.on_completion();
    assert!(o.should_stop());
}

#[test]
fn age_observer_records_and_stops_on_old_token() {
    let mut o = TokenAgeObserver::new(10);
    o.on_step(&changed(3, vec![1, 10]));
    assert!(!o.should_stop());
    o.on_step(&changed(3, vec![2]));
    o.on_step(&changed(4, vec![]));
    assert_eq!(o.age_distribution[&3], vec![1, 10, 2]);
    assert!(o.age_distribution[&4].is_empty());
    o.on_step(&changed(5, vec![11]));
    assert!(o.should_stop());
    o.on_step(&changed(5, vec![0]));
    o.on_completion();
    assert!(o.should_stop());
    assert_eq!(o.age_distribution[&5], vec![11, 0]);
}

#[test]
fn age_observer_ignores_other_events() {
    let mut o = TokenAgeObserver::new(0);
    o.on_step(&SimulationEvent::TransitionFiring { transition_id: 0, firing_time: 5 });
    o.on_step(&SimulationEvent::TransitionFired {
        transition_id: 0,
        firing_time: 5,
        tokens_consumed: vec![9],
    });
    assert!(o.age_distribution.is_empty());
    assert!(!o.should_stop());
}
