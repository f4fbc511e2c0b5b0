use vstd::prelude::*;

use std::collections::HashMap;

use crate::observer::{EventView, SimulationEvent, SimulationObserver};
use crate::place::append_ages;

verus! {

broadcast use vstd::std_specs::hash::group_hash_axioms;

/// How a token count is held against a threshold.
#[derive(Clone, Copy, Debug, PartialEq, Eq, Structural)]
pub enum Comparison {
    LessThan,
    LessOrEqual,
    Equal,
    GreaterOrEqual,
    GreaterThan,
}

impl Comparison {
    /// Whether `count` stands in this relation to `threshold`.
    pub open spec fn holds(self, count: int, threshold: int) -> bool {
        match self {
            Comparison::LessThan => count < threshold,
            Comparison::LessOrEqual => count <= threshold,
            Comparison::Equal => count == threshold,
            Comparison::GreaterOrEqual => count >= threshold,
            Comparison::GreaterThan => count > threshold,
        }
    }
}

/// The ages seen so far at `place_id`; none if the place was never seen.
pub open spec fn history(ages: Map<usize, Seq<u64>>, place_id: usize) -> Seq<u64> {
    if ages.contains_key(place_id) {
        ages[place_id]
    } else {
        seq![]
    }
}

/// What an observer holds, as mathematical values.
pub enum ObserverView {
    Count { thresholds: Map<usize, (usize, Comparison)>, stop: bool },
    Age { ages: Map<usize, Seq<u64>>, max_allowed_age: u64, stop: bool },
}

impl ObserverView {
    /// The observer after it has seen `e`.
    pub open spec fn after(self, e: EventView) -> ObserverView {
        match self {
            ObserverView::Count { thresholds, stop } => match e {
                EventView::TokensChanged { place_id, new_tokens } => ObserverView::Count {
                    thresholds,
                    stop: stop || (thresholds.contains_key(place_id) && thresholds[place_id].1.holds(
                        new_tokens.len() as int,
                        thresholds[place_id].0 as int,
                    )),
                },
                _ => self,
            },
            ObserverView::Age { ages, max_allowed_age, stop } => match e {
                EventView::TokensChanged { place_id, new_tokens } => ObserverView::Age {
                    ages: ages.insert(place_id, history(ages, place_id) + new_tokens),
                    max_allowed_age,
                    stop: stop || exists|i: int|
                        0 <= i < new_tokens.len() && #[trigger] new_tokens[i] > max_allowed_age,
                },
                _ => self,
            },
        }
    }

    /// Whether the observer asks the run to stop.
    pub open spec fn stops(self) -> bool {
        match self {
            ObserverView::Count { stop, .. } => stop,
            ObserverView::Age { stop, .. } => stop,
        }
    }
}

/// Records, for each place, every age that it was seen to hold, and asks to
/// stop once a token older than `max_allowed_age` is seen.
pub struct TokenAgeObserver {
    pub age_distribution: HashMap<usize, Vec<u64>>,
    pub max_allowed_age: u64,
    pub should_stop: bool,
}

impl View for TokenAgeObserver {
    type V = ObserverView;

    open spec fn view(&self) -> ObserverView {
        ObserverView::Age {
            ages: self.age_distribution@.map_values(|v: Vec<u64>| v@),
            max_allowed_age: self.max_allowed_age,
            stop: self.should_stop,
        }
    }
}

impl TokenAgeObserver {
    pub fn new(max_allowed_age: u64) -> (r: Self)
        ensures
            r@ == (ObserverView::Age {
                ages: Map::empty(),
                max_allowed_age,
                stop: false,
            }),
    {
        let r = TokenAgeObserver { age_distribution: HashMap::new(), max_allowed_age, should_stop: false };
        assert(r.age_distribution@.map_values(|v: Vec<u64>| v@) =~= Map::empty());
        r
    }

    pub fn on_step(&mut self, event: &SimulationEvent)
        ensures
            final(self)@ == old(self)@.after(event@),
    {
        if let SimulationEvent::TokensChanged { place_id, new_tokens } = event {
            let ghost old_ages = self.age_distribution@;
            let mut i: usize = 0;
            while i < new_tokens.len()
                invariant
                    i <= new_tokens.len(),
                    self.age_distribution@ == old_ages,
                    self.max_allowed_age == old(self).max_allowed_age,
                    self.should_stop == (old(self).should_stop || exists|k: int|
                        0 <= k < i && #[trigger] new_tokens@[k] > self.max_allowed_age),
                decreases new_tokens.len() - i,
            {
                if new_tokens[i] > self.max_allowed_age {
                    self.should_stop = true;
                }
                i += 1;
            }
            let mut seen: Vec<u64> = match self.age_distribution.remove(place_id) {
                Some(v) => v,
                None => Vec::new(),
            };
            append_ages(&mut seen, new_tokens.as_slice());
            let ghost seen_view = seen@;
            self.age_distribution.insert(*place_id, seen);
            proof {
                let a = old_ages.map_values(|v: Vec<u64>| v@);
                assert(seen_view == history(a, *place_id) + new_tokens@);
                assert(self.age_distribution@.map_values(|v: Vec<u64>| v@) =~= a.insert(
                    *place_id,
                    seen_view,
                ));
            }
        }
    }

    pub fn on_completion(&mut self)
        ensures
            final(self)@ == old(self)@,
    {
    }

    pub fn should_stop(&self) -> (r: bool)
        ensures
            r == self@.stops(),
    {
        self.should_stop
    }
}

/// Asks to stop once the token count of a watched place stands in the given
/// relation to its threshold; once asked, it keeps asking.
pub struct TokenCoutObserver {
    pub place_thesholds: HashMap<usize, (usize, Comparison)>,
    pub should_stop: bool,
}

impl View for TokenCoutObserver {
    type V = ObserverView;

    open spec fn view(&self) -> ObserverView {
        ObserverView::Count { thresholds: self.place_thesholds@, stop: self.should_stop }
    }
}

impl TokenCoutObserver {
    pub fn new() -> (r: Self)
        ensures
            r@ == (ObserverView::Count { thresholds: Map::empty(), stop: false }),
    {
        TokenCoutObserver { place_thesholds: HashMap::new(), should_stop: false }
    }

    /// Watches `place_id` with `threshold` and `comparison`, in place of what
    /// it was watched with before.
    pub fn monitor_place(self, place_id: usize, threshold: usize, comparison: Comparison) -> (r:
        Self)
        ensures
            r.place_thesholds@ == self.place_thesholds@.insert(place_id, (threshold, comparison)),
            r.should_stop == self.should_stop,
    {
        let mut watched = self;
        watched.place_thesholds.insert(place_id, (threshold, comparison));
        watched
    }

    pub fn check_condition(&self, count: usize, threshold: usize, comparison: &Comparison) -> (r:
        bool)
        ensures
            r == comparison.holds(count as int, threshold as int),
    {
        match comparison {
            Comparison::LessThan => count < threshold,
            Comparison::LessOrEqual => count <= threshold,
            Comparison::Equal => count == threshold,
            Comparison::GreaterOrEqual => count >= threshold,
            Comparison::GreaterThan => count > threshold,
        }
    }

    pub fn on_step(&mut self, event: &SimulationEvent)
        ensures
            final(self)@ == old(self)@.after(event@),
    {
        if let SimulationEvent::TokensChanged { place_id, new_tokens } = event {
            if let Some(entry) = self.place_thesholds.get(place_id) {
                let (threshold, comparison) = *entry;
                if self.check_condition(new_tokens.len(), threshold, &comparison) {
                    self.should_stop = true;
                }
            }
        }
    }

    pub fn on_completion(&mut self)
        ensures
            final(self)@ == old(self)@,
    {
    }

    pub fn should_stop(&self) -> (r: bool)
        ensures
            r == self@.stops(),
    {
        self.should_stop
    }
}

impl SimulationObserver for TokenAgeObserver {
    fn on_step(&mut self, event: &SimulationEvent) {
        TokenAgeObserver::on_step(self, event)
    }

    fn on_completion(&mut self) {
        TokenAgeObserver::on_completion(self)
    }

    fn should_stop(&self) -> bool {
        TokenAgeObserver::should_stop(self)
    }
}

impl SimulationObserver for TokenCoutObserver {
    fn on_step(&mut self, event: &SimulationEvent) {
        TokenCoutObserver::on_step(self, event)
    }

    fn on_completion(&mut self) {
        TokenCoutObserver::on_completion(self)
    }

    fn should_stop(&self) -> bool {
        TokenCoutObserver::should_stop(self)
    }
}

/// One of the observers that the engine can hold.
pub enum Observer {
    Count(TokenCoutObserver),
    Age(TokenAgeObserver),
}

impl View for Observer {
    type V = ObserverView;

    open spec fn view(&self) -> ObserverView {
        match self {
            Observer::Count(o) => o@,
            Observer::Age(o) => o@,
        }
    }
}

impl Observer {
    pub fn on_step(&mut self, event: &SimulationEvent)
        ensures
            final(self)@ == old(self)@.after(event@),
    {
        match self {
            Observer::Count(o) => o.on_step(event),
            Observer::Age(o) => o.on_step(event),
        }
    }

    pub fn on_completion(&mut self)
        ensures
            final(self)@ == old(self)@,
    {
        match self {
            Observer::Count(o) => o.on_completion(),
            Observer::Age(o) => o.on_completion(),
        }
    }

    pub fn should_stop(&self) -> (r: bool)
        ensures
            r == self@.stops(),
    {
        match self {
            Observer::Count(o) => o.should_stop(),
            Observer::Age(o) => o.should_stop(),
        }
    }
}

impl SimulationObserver for Observer {
    fn on_step(&mut self, event: &SimulationEvent) {
        Observer::on_step(self, event)
    }

    fn on_completion(&mut self) {
        Observer::on_completion(self)
    }

    fn should_stop(&self) -> bool {
        Observer::should_stop(self)
    }
}

} // verus!
