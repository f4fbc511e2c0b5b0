use vstd::prelude::*;

use std::collections::HashMap;

use crate::arcs::{invariant_table, marking, same_places};
use crate::observer::{EventView, SimulationEvent};
use crate::place::{Place, append_ages, sat_add};
use crate::token_invariant::Invariant;
use crate::token_observers::{Observer, ObserverView};
use crate::transition::{Transition, lemma_same_places_invariants};

verus! {

broadcast use vstd::std_specs::hash::group_hash_axioms;

/// `n + 1`, held at `usize::MAX`.
pub open spec fn sat_inc(n: usize) -> usize {
    if n == usize::MAX {
        n
    } else {
        (n + 1) as usize
    }
}

/// Every token of `m`, `d` ticks older.
pub open spec fn aged(m: Seq<Seq<u64>>, d: u64) -> Seq<Seq<u64>> {
    Seq::new(m.len(), |i: int| Seq::new(m[i].len(), |j: int| sat_add(m[i][j], d)))
}

/// How far the clock moves for a firing time: not at all for none or less.
pub open spec fn advance_of(firing_time: i64) -> u64 {
    if firing_time > 0 {
        firing_time as u64
    } else {
        0
    }
}

/// The transitions once each enabled one has taken its sample.
pub open spec fn sampled(
    ts: Seq<Transition>,
    invs: Seq<Seq<Invariant>>,
    m: Seq<Seq<u64>>,
    samples: Seq<i64>,
) -> Seq<Transition> {
    Seq::new(
        ts.len(),
        |i: int|
            if ts[i].enabled(invs, m) {
                Transition { firing_time: ts[i].delay_for(samples[i]), ..ts[i] }
            } else {
                ts[i]
            },
    )
}

/// Which transitions are enabled on `m`.
pub open spec fn enabled_set(ts: Seq<Transition>, invs: Seq<Seq<Invariant>>, m: Seq<Seq<u64>>) -> Seq<
    bool,
> {
    Seq::new(ts.len(), |i: int| ts[i].enabled(invs, m))
}

/// The first of the first `n` transitions that is enabled and urgent; -1 if
/// there is none.
pub open spec fn first_urgent(ts: Seq<Transition>, en: Seq<bool>, n: int) -> int
    decreases n,
{
    if n <= 0 {
        -1
    } else {
        let b = first_urgent(ts, en, n - 1);
        if b >= 0 {
            b
        } else if en[n - 1] && ts[n - 1].urgent {
            n - 1
        } else {
            -1
        }
    }
}

/// Of the first `n` transitions, the first enabled one with the least firing
/// time; -1 if none is enabled.
pub open spec fn earliest(ts: Seq<Transition>, en: Seq<bool>, n: int) -> int
    decreases n,
{
    if n <= 0 {
        -1
    } else {
        let b = earliest(ts, en, n - 1);
        if en[n - 1] && (b < 0 || ts[n - 1].firing_time < ts[b].firing_time) {
            n - 1
        } else {
            b
        }
    }
}

/// The transition that fires: the first urgent enabled one if there is one,
/// else the first enabled one with the least firing time.
pub open spec fn chosen(ts: Seq<Transition>, en: Seq<bool>) -> int {
    if first_urgent(ts, en, ts.len() as int) >= 0 {
        first_urgent(ts, en, ts.len() as int)
    } else {
        earliest(ts, en, ts.len() as int)
    }
}

proof fn lemma_first_urgent(ts: Seq<Transition>, en: Seq<bool>, n: int)
    requires
        0 <= n <= ts.len() == en.len(),
    ensures
        ({
            let b = first_urgent(ts, en, n);
            &&& b >= -1
            &&& b == -1 ==> forall|i: int| 0 <= i < n ==> !(en[i] && (#[trigger] ts[i]).urgent)
            &&& b >= 0 ==> b < n && en[b] && ts[b].urgent && forall|i: int|
                0 <= i < b ==> !(en[i] && (#[trigger] ts[i]).urgent)
        }),
    decreases n,
{
    if n > 0 {
        lemma_first_urgent(ts, en, n - 1);
    }
}

proof fn lemma_earliest(ts: Seq<Transition>, en: Seq<bool>, n: int)
    requires
        0 <= n <= ts.len() == en.len(),
    ensures
        ({
            let b = earliest(ts, en, n);
            &&& b >= -1
            &&& b == -1 ==> forall|i: int| 0 <= i < n ==> !#[trigger] en[i]
            &&& b >= 0 ==> b < n && en[b] && forall|i: int|
                0 <= i < n && #[trigger] en[i] ==> ts[b].firing_time <= ts[i].firing_time && (i < b
                    ==> ts[b].firing_time < ts[i].firing_time)
        }),
    decreases n,
{
    if n > 0 {
        lemma_earliest(ts, en, n - 1);
        let b = earliest(ts, en, n);
        let b0 = earliest(ts, en, n - 1);
        if b >= 0 {
            assert forall|i: int| 0 <= i < n && #[trigger] en[i] implies ts[b].firing_time
                <= ts[i].firing_time && (i < b ==> ts[b].firing_time < ts[i].firing_time) by {
                if i < n - 1 {
                    assert(en[i]);
                    assert(b0 >= 0);
                }
            }
        }
        if b == -1 {
            assert(!en[n - 1]);
        }
    }
}

/// The transition chosen to fire is enabled. If an enabled transition is
/// urgent, it is the first urgent enabled one. Else no enabled transition has
/// a smaller firing time, and every enabled one before it has a greater one.
pub proof fn lemma_chosen(ts: Seq<Transition>, en: Seq<bool>)
    requires
        en.len() == ts.len(),
        exists|i: int| 0 <= i < en.len() && en[i],
    ensures
        ({
            let k = chosen(ts, en);
            &&& 0 <= k < ts.len()
            &&& en[k]
            &&& (exists|i: int| 0 <= i < ts.len() && en[i] && (#[trigger] ts[i]).urgent) ==> {
                &&& ts[k].urgent
                &&& forall|i: int| 0 <= i < k ==> !(en[i] && (#[trigger] ts[i]).urgent)
            }
            &&& !(exists|i: int| 0 <= i < ts.len() && en[i] && (#[trigger] ts[i]).urgent) ==> {
                forall|i: int|
                    0 <= i < ts.len() && #[trigger] en[i] ==> ts[k].firing_time <= ts[i].firing_time
                        && (i < k ==> ts[k].firing_time < ts[i].firing_time)
            }
        }),
{
    let n = ts.len() as int;
    lemma_first_urgent(ts, en, n);
    lemma_earliest(ts, en, n);
    let w = choose|i: int| 0 <= i < en.len() && en[i];
    assert(earliest(ts, en, n) != -1) by {
        assert(en[w]);
    }
    if exists|i: int| 0 <= i < ts.len() && en[i] && (#[trigger] ts[i]).urgent {
        let u = choose|i: int| 0 <= i < ts.len() && en[i] && (#[trigger] ts[i]).urgent;
        assert(first_urgent(ts, en, n) != -1) by {
            assert(en[u] && ts[u].urgent);
        }
    } else {
        assert(first_urgent(ts, en, n) == -1);
        let k = earliest(ts, en, n);
        assert(k >= 0);
        assert(chosen(ts, en) == k);
    }
}

/// What each observer holds.
pub open spec fn observer_views(obs: Seq<Observer>) -> Seq<ObserverView> {
    Seq::new(obs.len(), |i: int| obs[i]@)
}

/// The observers once each has seen `e`.
pub open spec fn observe(obs: Seq<ObserverView>, e: EventView) -> Seq<ObserverView> {
    Seq::new(obs.len(), |i: int| obs[i].after(e))
}

/// The observers once each has seen the events `es`, in order.
pub open spec fn observe_all(obs: Seq<ObserverView>, es: Seq<EventView>) -> Seq<ObserverView>
    decreases es.len(),
{
    if es.len() == 0 {
        obs
    } else {
        observe(observe_all(obs, es.drop_last()), es.last())
    }
}

/// One event for each place, with its tokens in `m`, in the order of the places.
pub open spec fn tokens_changed(places: Seq<Place>, m: Seq<Seq<u64>>) -> Seq<EventView> {
    Seq::new(
        places.len(),
        |i: int| EventView::TokensChanged { place_id: places[i].id, new_tokens: m[i] },
    )
}

/// The events of a round in which transition `k` fires at `firing_time`, the
/// clock moves on by `delta` to `new_time`, the places end with `m`, and the
/// input arcs handed on `consumed`.
pub open spec fn round_events(
    k: usize,
    firing_time: i64,
    delta: u64,
    new_time: u64,
    places: Seq<Place>,
    m: Seq<Seq<u64>>,
    consumed: Seq<u64>,
) -> Seq<EventView> {
    seq![EventView::TransitionFiring { transition_id: k, firing_time }] + (if delta > 0 {
        seq![EventView::TimeAdvanced { delta, new_time }]
    } else {
        seq![]
    }) + tokens_changed(places, m) + seq![
        EventView::TransitionFired { transition_id: k, firing_time, tokens_consumed: consumed },
    ]
}

/// How often the transition at `k` has fired, as recorded in `firings`.
pub open spec fn count_of(firings: Map<usize, usize>, k: usize) -> usize {
    if firings.contains_key(k) {
        firings[k]
    } else {
        0
    }
}

/// A timed-arc Petri net under simulation: its places, its transitions, its
/// observers, how many steps it has taken, the clock, and how often each
/// transition, by position, has fired.
pub struct Tapn {
    pub places: Vec<Place>,
    pub transitions: Vec<Transition>,
    pub observers: Vec<Observer>,
    pub steps: usize,
    pub current_time: u64,
    pub transition_firings: HashMap<usize, usize>,
}

impl Tapn {
    /// `next` is what `self` becomes when transition `k` of `ts` fires: the
    /// clock and every token move on by its firing time where that is
    /// positive, its arcs fire on the aged tokens, the step and its firing are
    /// counted, and the observers see the events of the round.
    pub open spec fn fires(self, ts: Seq<Transition>, k: usize, next: Tapn) -> bool {
        let ft = ts[k as int].firing_time;
        let d = advance_of(ft);
        let m1 = aged(marking(self.places@), d);
        let (m2, consumed) = ts[k as int].fired(invariant_table(self.places@), m1);
        &&& same_places(self.places@, next.places@)
        &&& marking(next.places@) == m2
        &&& next.transitions@ == ts
        &&& next.current_time == sat_add(self.current_time, d)
        &&& next.steps == sat_inc(self.steps)
        &&& next.transition_firings@ == self.transition_firings@.insert(
            k,
            sat_inc(count_of(self.transition_firings@, k)),
        )
        &&& observer_views(next.observers@) == observe_all(
            observer_views(self.observers@),
            self.round_of(ts, k, next),
        )
    }

    /// The events that the observers see when transition `k` of `ts` fires
    /// and `self` becomes `next`.
    pub open spec fn round_of(self, ts: Seq<Transition>, k: usize, next: Tapn) -> Seq<EventView> {
        let ft = ts[k as int].firing_time;
        let d = advance_of(ft);
        let m1 = aged(marking(self.places@), d);
        let (m2, consumed) = ts[k as int].fired(invariant_table(self.places@), m1);
        round_events(k, ft, d, next.current_time, next.places@, m2, consumed)
    }

    /// `next` is what `self` becomes, and `r` what is returned, when a round
    /// is stepped with `samples`.
    pub open spec fn steps_to(self, samples: Seq<i64>, r: bool, next: Tapn) -> bool {
        let invs = invariant_table(self.places@);
        let m0 = marking(self.places@);
        let en = enabled_set(self.transitions@, invs, m0);
        let ts = sampled(self.transitions@, invs, m0, samples);
        &&& r == exists|i: int| 0 <= i < en.len() && en[i]
        &&& !r ==> {
            &&& next.places == self.places
            &&& next.transitions@ == self.transitions@
            &&& next.observers == self.observers
            &&& next.steps == self.steps
            &&& next.current_time == self.current_time
            &&& next.transition_firings == self.transition_firings
        }
        &&& r ==> {
            let k = chosen(ts, en);
            &&& 0 <= k < ts.len()
            &&& en[k]
            &&& self.fires(ts, k as usize, next)
        }
    }

    /// `self` and `other` agree on everything that a step reads or writes.
    pub open spec fn same_state(self, other: Tapn) -> bool {
        &&& same_places(self.places@, other.places@)
        &&& marking(self.places@) == marking(other.places@)
        &&& self.transitions@ == other.transitions@
        &&& observer_views(self.observers@) == observer_views(other.observers@)
        &&& self.steps == other.steps
        &&& self.current_time == other.current_time
        &&& self.transition_firings@ == other.transition_firings@
    }

    pub fn new(places: Vec<Place>, transitions: Vec<Transition>) -> (r: Self)
        ensures
            r.places@ == places@,
            r.transitions@ == transitions@,
            r.observers@.len() == 0,
            r.steps == 0,
            r.current_time == 0,
            r.transition_firings@ == Map::<usize, usize>::empty(),
    {
        Tapn {
            places,
            transitions,
            observers: Vec::new(),
            steps: 0,
            current_time: 0,
            transition_firings: HashMap::new(),
        }
    }

    /// Every transition is well formed among the places of the net.
    pub open spec fn well_formed(self) -> bool {
        forall|i: int|
            0 <= i < self.transitions@.len() ==> (#[trigger] self.transitions@[i]).well_formed(
                self.places@.len(),
            )
    }

    /// Whether every arc names a place of the net and every transition's
    /// transport arcs pair up with its transport output arcs.
    pub fn is_well_formed(&self) -> (r: bool)
        ensures
            r == self.well_formed(),
    {
        let mut i: usize = 0;
        while i < self.transitions.len()
            invariant
                i <= self.transitions.len(),
                forall|k: int| 0 <= k < i ==> (#[trigger] self.transitions@[k]).well_formed(
                    self.places@.len(),
                ),
            decreases self.transitions.len() - i,
        {
            if !self.transitions[i].is_well_formed(self.places.len()) {
                return false;
            }
            i += 1;
        }
        true
    }

    pub fn add_observer(&mut self, observer: Observer)
        ensures
            final(self).observers@ == old(self).observers@.push(observer),
            final(self).places == old(self).places,
            final(self).transitions == old(self).transitions,
            final(self).steps == old(self).steps,
            final(self).current_time == old(self).current_time,
            final(self).transition_firings == old(self).transition_firings,
    {
        self.observers.push(observer);
    }

    /// Hands `event` to every observer, in order.
    pub fn notify_observers(&mut self, event: SimulationEvent)
        ensures
            observer_views(final(self).observers@) == observe(
                observer_views(old(self).observers@),
                event@,
            ),
            final(self).places == old(self).places,
            final(self).transitions == old(self).transitions,
            final(self).steps == old(self).steps,
            final(self).current_time == old(self).current_time,
            final(self).transition_firings == old(self).transition_firings,
    {
        let ghost obs0 = observer_views(self.observers@);
        let mut i: usize = 0;
        while i < self.observers.len()
            invariant
                i <= self.observers.len() == obs0.len(),
                forall|k: int| 0 <= k < i ==> #[trigger] self.observers@[k]@ == obs0[k].after(event@),
                forall|k: int| i <= k < obs0.len() ==> #[trigger] self.observers@[k]@ == obs0[k],
                self.places == old(self).places,
                self.transitions == old(self).transitions,
                self.steps == old(self).steps,
                self.current_time == old(self).current_time,
                self.transition_firings == old(self).transition_firings,
            decreases self.observers.len() - i,
        {
            self.observers[i].on_step(&event);
            i += 1;
        }
        assert(observer_views(self.observers@) =~= observe(obs0, event@));
    }

    /// How often the transition at position `transition_id` has fired.
    pub fn firing_count(&self, transition_id: usize) -> (r: usize)
        ensures
            r == count_of(self.transition_firings@, transition_id),
    {
        match self.transition_firings.get(&transition_id) {
            Some(n) => *n,
            None => 0,
        }
    }

    /// Whether some observer asks the run to stop: a run goes on while this
    /// is false.
    pub fn should_continue(&self) -> (r: bool)
        ensures
            r == exists|i: int| 0 <= i < self.observers@.len() && (#[trigger] self.observers@[i]@).stops(),
    {
        let mut i: usize = 0;
        while i < self.observers.len()
            invariant
                i <= self.observers.len(),
                forall|k: int| 0 <= k < i ==> !(#[trigger] self.observers@[k]@).stops(),
            decreases self.observers.len() - i,
        {
            if self.observers[i].should_stop() {
                return true;
            }
            i += 1;
        }
        false
    }

    /// Tells every observer that the run is over.
    pub fn finish(&mut self)
        ensures
            observer_views(final(self).observers@) == observer_views(old(self).observers@),
            final(self).places == old(self).places,
            final(self).transitions == old(self).transitions,
            final(self).steps == old(self).steps,
            final(self).current_time == old(self).current_time,
            final(self).transition_firings == old(self).transition_firings,
    {
        let ghost obs0 = observer_views(self.observers@);
        let mut i: usize = 0;
        while i < self.observers.len()
            invariant
                i <= self.observers.len() == obs0.len(),
                forall|k: int| 0 <= k < obs0.len() ==> #[trigger] self.observers@[k]@ == obs0[k],
                self.places == old(self).places,
                self.transitions == old(self).transitions,
                self.steps == old(self).steps,
                self.current_time == old(self).current_time,
                self.transition_firings == old(self).transition_firings,
            decreases self.observers.len() - i,
        {
            self.observers[i].on_completion();
            i += 1;
        }
        assert(observer_views(self.observers@) =~= obs0);
    }

    /// Makes every token `delay` ticks older and moves the clock on by as
    /// much, both held at `u64::MAX`; where `delay` is not zero, the
    /// observers are told.
    fn update_token_ages(&mut self, delay: u64)
        ensures
            same_places(old(self).places@, final(self).places@),
            marking(final(self).places@) == aged(marking(old(self).places@), delay),
            final(self).current_time == sat_add(old(self).current_time, delay),
            observer_views(final(self).observers@) == if delay > 0 {
                observe(
                    observer_views(old(self).observers@),
                    EventView::TimeAdvanced { delta: delay, new_time: final(self).current_time },
                )
            } else {
                observer_views(old(self).observers@)
            },
            final(self).transitions == old(self).transitions,
            final(self).steps == old(self).steps,
            final(self).transition_firings == old(self).transition_firings,
    {
        let ghost m0 = marking(self.places@);
        if delay == 0 {
            assert(aged(m0, 0) =~= m0) by {
                assert forall|i: int| 0 <= i < m0.len() implies #[trigger] aged(m0, 0)[i] =~= m0[i] by {}
            }
            return;
        }
        self.current_time = if self.current_time > u64::MAX - delay {
            u64::MAX
        } else {
            self.current_time + delay
        };
        let mut i: usize = 0;
        while i < self.places.len()
            invariant
                i <= self.places.len() == m0.len(),
                same_places(old(self).places@, self.places@),
                m0 == marking(old(self).places@),
                forall|k: int| 0 <= k < i ==> #[trigger] self.places@[k].tokens@ == aged(m0, delay)[k],
                forall|k: int| i <= k < m0.len() ==> #[trigger] self.places@[k].tokens@ == m0[k],
                self.current_time == sat_add(old(self).current_time, delay),
                self.observers == old(self).observers,
                self.transitions == old(self).transitions,
                self.steps == old(self).steps,
                self.transition_firings == old(self).transition_firings,
            decreases self.places.len() - i,
        {
            self.places[i].age_by(delay);
            assert(self.places@[i as int].tokens@ =~= aged(m0, delay)[i as int]);
            i += 1;
        }
        assert(marking(self.places@) =~= aged(m0, delay));
        let now = self.current_time;
        self.notify_observers(SimulationEvent::TimeAdvanced { delta: delay, new_time: now });
    }

    /// Fires the transition at `index`: tells the observers, moves time on
    /// by its firing time, fires its arcs, counts the firing, and tells the
    /// observers the tokens of every place and what was consumed.
    fn fire_transition(&mut self, index: usize)
        requires
            index < old(self).transitions.len(),
        ensures
            old(self).fires(old(self).transitions@, index, *final(self)),
    {
        let ghost obs0 = observer_views(self.observers@);
        let ghost invs = invariant_table(self.places@);
        let firing_time = self.transitions[index].firing_time;
        let ghost e0 = EventView::TransitionFiring { transition_id: index, firing_time };
        self.notify_observers(SimulationEvent::TransitionFiring { transition_id: index, firing_time });
        proof {
            assert(seq![e0].drop_last() == Seq::<EventView>::empty());
            assert(observe_all(obs0, Seq::<EventView>::empty()) == obs0);
            assert(observe_all(obs0, seq![e0]) == observe(obs0, e0));
        }
        let delay: u64 = if firing_time > 0 {
            firing_time as u64
        } else {
            0
        };
        self.update_token_ages(delay);
        let ghost head = if delay > 0 {
            seq![e0, EventView::TimeAdvanced { delta: delay, new_time: self.current_time }]
        } else {
            seq![e0]
        };
        proof {
            if delay > 0 {
                assert(head.drop_last() == seq![e0]);
            }
            assert(observer_views(self.observers@) == observe_all(obs0, head));
            lemma_same_places_invariants(old(self).places@, self.places@);
        }
        let consumed = self.transitions[index].fire(&mut self.places);
        let count = self.firing_count(index);
        let next = if count == usize::MAX {
            count
        } else {
            count + 1
        };
        self.transition_firings.insert(index, next);
        self.steps = if self.steps == usize::MAX {
            self.steps
        } else {
            self.steps + 1
        };
        let ghost m2 = marking(self.places@);
        let ghost changed = tokens_changed(self.places@, m2);
        let ghost places2 = self.places@;
        let ghost time2 = self.current_time;
        let ghost steps2 = self.steps;
        let ghost firings2 = self.transition_firings@;
        let mut i: usize = 0;
        while i < self.places.len()
            invariant
                i <= self.places.len() == changed.len(),
                self.places@ == places2,
                self.current_time == time2,
                self.steps == steps2,
                self.transition_firings@ == firings2,
                self.transitions == old(self).transitions,
                m2 == marking(self.places@),
                changed == tokens_changed(self.places@, m2),
                observer_views(self.observers@) == observe_all(
                    obs0,
                    head + changed.subrange(0, i as int),
                ),
            decreases self.places.len() - i,
        {
            let mut new_tokens: Vec<u64> = Vec::new();
            append_ages(&mut new_tokens, self.places[i].tokens.as_slice());
            let place_id = self.places[i].id;
            let event = SimulationEvent::TokensChanged { place_id, new_tokens };
            assert(event@ == changed[i as int]);
            self.notify_observers(event);
            assert((head + changed.subrange(0, i as int + 1)).drop_last() == head + changed.subrange(
                0,
                i as int,
            ));
            i += 1;
        }
        let ghost consumed_view = consumed@;
        self.notify_observers(
            SimulationEvent::TransitionFired { transition_id: index, firing_time, tokens_consumed: consumed },
        );
        proof {
            let es = round_events(
                index,
                firing_time,
                delay,
                self.current_time,
                self.places@,
                m2,
                consumed_view,
            );
            assert(changed.subrange(0, changed.len() as int) == changed);
            assert(es =~= (head + changed).push(
                EventView::TransitionFired {
                    transition_id: index,
                    firing_time,
                    tokens_consumed: consumed_view,
                },
            ));
            assert(es.drop_last() == head + changed);
        }
    }

    /// One round: every transition is checked against the tokens, and each
    /// enabled one takes its firing time from `samples` (none if urgent).
    /// If none is enabled, returns false and changes nothing else. Else the
    /// first urgent enabled transition fires, or, if there is none, the first
    /// enabled one with the least firing time, and it returns true.
    pub fn step(&mut self, samples: &Vec<i64>) -> (r: bool)
        requires
            samples.len() == old(self).transitions.len(),
        ensures
            old(self).steps_to(samples@, r, *final(self)),
    {
        let ghost invs = invariant_table(self.places@);
        let ghost m0 = marking(self.places@);
        let ghost en = enabled_set(self.transitions@, invs, m0);
        let ghost ts = sampled(self.transitions@, invs, m0, samples@);
        let mut enabled: Vec<bool> = Vec::new();
        let mut i: usize = 0;
        while i < self.transitions.len()
            invariant
                i <= self.transitions.len() == ts.len() == samples.len(),
                en.len() == ts.len(),
                en == enabled_set(old(self).transitions@, invs, m0),
                ts == sampled(old(self).transitions@, invs, m0, samples@),
                enabled@ == en.subrange(0, i as int),
                forall|k: int| 0 <= k < i ==> #[trigger] self.transitions@[k] == ts[k],
                forall|k: int| i <= k < ts.len() ==> #[trigger] self.transitions@[k] == old(self).transitions@[k],
                self.places == old(self).places,
                self.observers == old(self).observers,
                self.steps == old(self).steps,
                self.current_time == old(self).current_time,
                self.transition_firings == old(self).transition_firings,
                invs == invariant_table(self.places@),
                m0 == marking(self.places@),
            decreases self.transitions.len() - i,
        {
            let ghost before = self.transitions@;
            let e = self.transitions[i].is_ready(&self.places, samples[i]);
            proof {
                assert(self.transitions@[i as int] == ts[i as int]);
                assert forall|k: int| 0 <= k < ts.len() && k != i implies #[trigger] self.transitions@[k] == before[k] by {}
            }
            enabled.push(e);
            assert(en.subrange(0, i as int + 1) == en.subrange(0, i as int).push(e));
            i += 1;
        }
        assert(enabled@ == en);
        assert(self.transitions@ =~= ts);
        let n = self.transitions.len();
        let mut found = false;
        let mut urgent_idx: usize = 0;
        let mut have = false;
        let mut best: usize = 0;
        let mut j: usize = 0;
        while j < n
            invariant
                j <= n == ts.len() == en.len() == enabled@.len(),
                enabled@ == en,
                self.transitions@ == ts,
                (if found { urgent_idx as int } else { -1 }) == first_urgent(ts, en, j as int),
                found ==> urgent_idx < j && en[urgent_idx as int],
                (if have { best as int } else { -1 }) == earliest(ts, en, j as int),
                have == exists|k: int| 0 <= k < j && en[k],
                have ==> best < j && en[best as int],
            decreases n - j,
        {
            if !found && enabled[j] && self.transitions[j].urgent {
                found = true;
                urgent_idx = j;
            }
            if enabled[j] && (!have || self.transitions[j].firing_time < self.transitions[best].firing_time) {
                have = true;
                best = j;
            }
            j += 1;
        }
        if !have {
            assert forall|k: int| 0 <= k < ts.len() implies #[trigger] ts[k] == old(self).transitions@[k] by {
                assert(!en[k]);
            }
            assert(self.transitions@ =~= old(self).transitions@);
            return false;
        }
        let k = if found {
            urgent_idx
        } else {
            best
        };
        self.fire_transition(k);
        true
    }
}

proof fn lemma_same_places_link(p: Seq<Place>, q: Seq<Place>, p2: Seq<Place>, q2: Seq<Place>)
    requires
        same_places(p, q),
        same_places(p, p2),
        same_places(q, q2),
    ensures
        same_places(p2, q2),
{
    assert forall|i: int| 0 <= i < p2.len() implies {
        &&& (#[trigger] p2[i]).id == q2[i].id
        &&& p2[i].name == q2[i].name
        &&& p2[i].invariants == q2[i].invariants
    } by {
        assert(p[i].id == q[i].id);
        assert(q[i].id == q2[i].id);
    }
}

/// A round is a function of the state and of the samples drawn for it: two
/// nets that agree on everything that a step reads, stepped with the same
/// samples, return the same, show their observers the same events, and agree
/// again afterwards. The samples are the caller's: a caller that hands both
/// runs the same samples in every round gets two runs that agree round by
/// round.
pub proof fn lemma_step_deterministic(
    a: Tapn,
    b: Tapn,
    samples: Seq<i64>,
    ra: bool,
    rb: bool,
    a2: Tapn,
    b2: Tapn,
)
    requires
        a.same_state(b),
        a.steps_to(samples, ra, a2),
        b.steps_to(samples, rb, b2),
    ensures
        ra == rb,
        a2.same_state(b2),
        ra ==> {
            let invs = invariant_table(a.places@);
            let m0 = marking(a.places@);
            let en = enabled_set(a.transitions@, invs, m0);
            let ts = sampled(a.transitions@, invs, m0, samples);
            a.round_of(ts, chosen(ts, en) as usize, a2) == b.round_of(ts, chosen(ts, en) as usize, b2)
        },
{
    lemma_same_places_invariants(a.places@, b.places@);
    let invs = invariant_table(a.places@);
    let m0 = marking(a.places@);
    let en = enabled_set(a.transitions@, invs, m0);
    let ts = sampled(a.transitions@, invs, m0, samples);
    assert(enabled_set(b.transitions@, invariant_table(b.places@), marking(b.places@)) == en);
    assert(sampled(b.transitions@, invariant_table(b.places@), marking(b.places@), samples) == ts);
    if ra {
        lemma_same_places_link(a.places@, b.places@, a2.places@, b2.places@);
        let k = chosen(ts, en) as usize;
        let ft = ts[k as int].firing_time;
        let d = advance_of(ft);
        let m1 = aged(m0, d);
        let (m2, consumed) = ts[k as int].fired(invs, m1);
        assert forall|i: int| 0 <= i < a2.places@.len() implies #[trigger] a2.places@[i].id == b2.places@[i].id by {
            assert(a.places@[i].id == b.places@[i].id);
        }
        assert(tokens_changed(a2.places@, m2) =~= tokens_changed(b2.places@, m2));
        assert(a.round_of(ts, k, a2) == b.round_of(ts, k, b2));
    }
}

} // verus!
