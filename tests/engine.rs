use tapn::{
    ArcType, Comparison, Distribution, InputArc, Observer, OutputArc, Place, RegularOutputArc,
    Tapn, TokenAgeObserver, TokenCoutObserver, Transition, TransportArc,
    TransportOutputArc,
};

const ANY: [u64; 2] = [0, u64::MAX];

fn zeros(net: &Tapn) -> Vec<i64> {
    vec![0; net.transitions.len()]
}

fn run_with_zero_samples(net: &mut Tapn, limit: usize) {
    let mut rounds = 0;
    while !net.should_continue() && rounds < limit {
        let samples = zeros(net);
        if !net.step(&samples) {
            break;
        }
        rounds += 1;
    }
    net.finish();
}

fn scenario(start_age: u64) -> Tapn {
    let p0 = Place::new(0, "P0".to_string(), vec![start_age], vec![]);
    let p1 = Place::new(1, "P1".to_string(), vec![], vec![]);
    let t = Transition::new(
        vec![ArcType::Input(InputArc { input: 0, weight: 1, timing: [1000, u64::MAX] })],
        vec![OutputArc::Regular(RegularOutputArc { output: 1, weight: 1 })],
        Distribution::Constant(0),
        false,
        0,
    );
    Tapn::new(vec![p0, p1], vec![t])
}

#[test]
fn young_token_deadlocks_at_once() {
    let mut net = scenario(0);
    assert!(!net.step(&vec![0]));
    assert!(net.places[1].tokens.is_empty());
    assert_eq!(net.places[0].tokens, vec![0]);
    assert_eq!(net.steps, 0);
    assert_eq!(net.firing_count(0), 0);
}

#[test]
fn old_token_fires_without_time_advance() {
    let mut net = scenario(1500);
    net.add_observer(Observer::Age(TokenAgeObserver::new(u64::MAX)));
    assert!(net.step(&vec![0]));
    assert_eq!(net.transitions[0].firing_time, 0);
    assert_eq!(net.current_time, 0);
    assert!(net.places[0].tokens.is_empty());
    assert_eq!(net.places[1].tokens, vec![0]);
    assert_eq!(net.firing_count(0), 1);
    assert_eq!(net.steps, 1);
    assert!(!net.step(&vec![0]));
    assert_eq!(net.steps, 1);
}

#[test]
fn urgent_transition_preempts() {
    let p0 = Place::new(0, "P0".to_string(), vec![0], vec![]);
    let p1 = Place::new(1, "P1".to_string(), vec![0], vec![]);
    let n = Transition::new(
        vec![ArcType::Input(InputArc { input: 0, weight: 1, timing: ANY })],
        vec![],
        Distribution::Constant(300),
        false,
        0,
    );
    let u = Transition::new(
        vec![ArcType::Input(InputArc { input: 1, weight: 1, timing: ANY })],
        vec![],
        Distribution::Constant(0),
        true,
        1,
    );
    let mut net = Tapn::new(vec![p0, p1], vec![n, u]);
    assert!(net.step(&vec![300, 0]));
    assert_eq!(net.transitions[0].firing_time, 300);
    assert_eq!(net.current_time, 0);
    assert_eq!(net.firing_count(1), 1);
    assert_eq!(net.firing_count(0), 0);
    assert_eq!(net.places[0].tokens, vec![0]);
    assert!(net.places[1].tokens.is_empty());
}

#[test]
fn least_delay_fires_and_time_advances() {
    let p0 = Place::new(0, "P0".to_string(), vec![2], vec![]);
    let p1 = Place::new(1, "P1".to_string(), vec![], vec![]);
    let slow = Transition::new(
        vec![ArcType::Input(InputArc { input: 0, weight: 1, timing: ANY })],
        vec![],
        Distribution::Constant(9),
        false,
        0,
    );
    let fast = Transition::new(
        vec![ArcType::Transport(TransportArc { input: 0, weight: 1, timing: ANY })],
        vec![OutputArc::TransportArc(TransportOutputArc { output: 1, weight: 1 })],
        Distribution::Constant(5),
        false,
        1,
    );
    let mut net = Tapn::new(vec![p0, p1], vec![slow, fast]);
    assert!(net.step(&vec![9, 5]));
    assert_eq!(net.current_time, 5);
    assert_eq!(net.firing_count(1), 1);
    assert!(net.places[0].tokens.is_empty());
    assert_eq!(net.places[1].tokens, vec![7]);
}

#[test]
fn ties_go_to_the_first() {
    let p0 = Place::new(0, "P0".to_string(), vec![0, 0], vec![]);
    let arcs = || vec![ArcType::Input(InputArc { input: 0, weight: 1, timing: ANY })];
    let a = Transition::new(arcs(), vec![], Distribution::Constant(4), false, 0);
    let b = Transition::new(arcs(), vec![], Distribution::Constant(4), false, 1);
    let mut net = Tapn::new(vec![p0], vec![a, b]);
    assert!(net.step(&vec![4, 4]));
    assert_eq!(net.firing_count(0), 1);
    assert_eq!(net.firing_count(1), 0);
    assert_eq!(net.places[0].tokens, vec![4]);
}

#[test]
fn negative_delay_wins_without_time_advance() {
    let p0 = Place::new(0, "P0".to_string(), vec![3, 3], vec![]);
    let arcs = || vec![ArcType::Input(InputArc { input: 0, weight: 1, timing: ANY })];
    let a = Transition::new(arcs(), vec![], Distribution::Normal(0, 10), false, 0);
    let b = Transition::new(arcs(), vec![], Distribution::Normal(0, 10), false, 1);
    let mut net = Tapn::new(vec![p0], vec![a, b]);
    assert!(net.step(&vec![2, -3]));
    assert_eq!(net.firing_count(1), 1);
    assert_eq!(net.current_time, 0);
    assert_eq!(net.places[0].tokens, vec![3]);
}

#[test]
fn aged_tokens_leave_window_before_firing() {
    let p0 = Place::new(0, "P0".to_string(), vec![0], vec![]);
    let t = Transition::new(
        vec![ArcType::Input(InputArc { input: 0, weight: 1, timing: [0, 3] })],
        vec![],
        Distribution::Constant(5),
        false,
        0,
    );
    let mut net = Tapn::new(vec![p0], vec![t]);
    assert!(net.step(&vec![5]));
    assert_eq!(net.current_time, 5);
    assert_eq!(net.places[0].tokens, vec![5]);
    assert_eq!(net.firing_count(0), 1);
}

#[test]
fn count_observer_stops_on_first_match_and_sticks() {
    let p0 = Place::new(0, "P0".to_string(), vec![0, 0, 0], vec![]);
    let p1 = Place::new(1, "P1".to_string(), vec![], vec![]);
    let t = Transition::new(
        vec![ArcType::Input(InputArc { input: 0, weight: 1, timing: ANY })],
        vec![OutputArc::Regular(RegularOutputArc { output: 1, weight: 1 })],
        Distribution::Constant(0),
        false,
        0,
    );
    let mut net = Tapn::new(vec![p0, p1], vec![t]);
    net.add_observer(Observer::Count(TokenCoutObserver::new().monitor_place(1, 1, Comparison::Equal)));
    assert!(!net.should_continue());
    run_with_zero_samples(&mut net, 100);
    assert_eq!(net.steps, 1);
    assert_eq!(net.places[1].tokens.len(), 1);
    assert!(net.step(&vec![0]));
    assert_eq!(net.places[1].tokens.len(), 2);
    assert!(net.should_continue());
}

fn loop_net() -> Tapn {
    let acc = Place::new(0, "accumulated_time".to_string(), vec![0], vec![]);
    let fin = Place::new(1, "finished".to_string(), vec![], vec![]);
    let delay = Transition::new(
        vec![ArcType::Transport(TransportArc { input: 0, weight: 1, timing: ANY })],
        vec![OutputArc::TransportArc(TransportOutputArc { output: 0, weight: 1 })],
        Distribution::Constant(0),
        false,
        0,
    );
    let timeout = Transition::new(
        vec![ArcType::Input(InputArc { input: 0, weight: 1, timing: [1000, u64::MAX] })],
        vec![OutputArc::Regular(RegularOutputArc { output: 1, weight: 1 })],
        Distribution::Constant(0),
        false,
        1,
    );
    let mut net = Tapn::new(vec![acc, fin], vec![delay, timeout]);
    net.add_observer(Observer::Count(TokenCoutObserver::new().monitor_place(1, 1, Comparison::Equal)));
    net.add_observer(Observer::Age(TokenAgeObserver::new(10_000)));
    net
}

#[test]
fn constant_delays_make_runs_identical() {
    let mut a = loop_net();
    let mut b = loop_net();
    run_with_zero_samples(&mut a, 50);
    run_with_zero_samples(&mut b, 50);
    assert_eq!(a.steps, 50);
    assert_eq!(a.steps, b.steps);
    assert_eq!(a.current_time, b.current_time);
    assert_eq!(a.firing_count(0), b.firing_count(0));
    for i in 0..2 {
        assert_eq!(a.places[i].tokens, b.places[i].tokens);
    }
    match (&a.observers[1], &b.observers[1]) {
        (Observer::Age(x), Observer::Age(y)) => {
            assert_eq!(x.age_distribution, y.age_distribution);
            assert_eq!(x.age_distribution[&0].len(), 50);
        }
        _ => panic!("age observer expected"),
    }
}

#[test]
fn firing_count_of_unknown_transition_is_zero() {
    let net = scenario(0);
    assert_eq!(net.firing_count(5), 0);
}

#[test]
fn step_count_and_clock_start_at_zero() {
    let net = scenario(0);
    assert_eq!(net.steps, 0);
    assert_eq!(net.current_time, 0);
    assert!(net.observers.is_empty());
}

#[test]
fn net_well_formedness() {
    assert!(loop_net().is_well_formed());
    let p0 = Place::new(0, "P0".to_string(), vec![], vec![]);
    let stray = Transition::new(
        vec![ArcType::Input(InputArc { input: 3, weight: 1, timing: ANY })],
        vec![],
        Distribution::Constant(0),
        false,
        0,
    );
    assert!(!Tapn::new(vec![p0], vec![stray]).is_well_formed());
}

#[test]
fn should_continue_reports_a_stop_request() {
    let mut net = scenario(0);
    assert!(!net.should_continue());
    let mut count = TokenCoutObserver::new().monitor_place(0, 1, Comparison::Equal);
    net.add_observer(Observer::Count(TokenCoutObserver::new()));
    assert!(!net.should_continue());
    count.on_step(&tapn::SimulationEvent::TokensChanged { place_id: 0, new_tokens: vec![0] });
    net.add_observer(Observer::Count(count));
    assert!(net.should_continue());
}
