use vstd::prelude::*;

use crate::arcs::{ArcType, OutputArc, invariant_table, marking, same_places};
use crate::place::{Place, append_ages};
use crate::token_invariant::Invariant;

verus! {

/// The law from which a transition's delay is drawn, in ticks.
pub enum Distribution {
    /// Always the given delay.
    Constant(i64),
    /// Uniform on `[min, max)`.
    Uniform(i64, i64),
    /// Normal with the given mean and standard deviation.
    Normal(i64, u64),
    /// Exponential with the given mean.
    Exponential(u64),
}

/// What a run of input arcs does, fired in order on `m`: the marking after
/// them, the ages that they handed on, and, one group for each transport
/// arc, the ages that it moved.
pub open spec fn inputs_fired(arcs: Seq<ArcType>, invs: Seq<Seq<Invariant>>, m: Seq<Seq<u64>>) -> (
    Seq<Seq<u64>>,
    Seq<u64>,
    Seq<Seq<u64>>,
)
    decreases arcs.len(),
{
    if arcs.len() == 0 {
        (m, seq![], seq![])
    } else {
        let (m1, c1, g1) = inputs_fired(arcs.drop_last(), invs, m);
        let (m2, out) = arcs.last().fired(invs, m1);
        (m2, c1 + out, if arcs.last() is Transport {
            g1.push(out)
        } else {
            g1
        })
    }
}

/// The `k`-th group of moved ages, or none where there are fewer groups.
pub open spec fn group(groups: Seq<Seq<u64>>, k: int) -> Seq<u64> {
    if 0 <= k < groups.len() {
        groups[k]
    } else {
        seq![]
    }
}

/// How many transport output arcs stand in `arcs`.
pub open spec fn transport_outputs(arcs: Seq<OutputArc>) -> nat
    decreases arcs.len(),
{
    if arcs.len() == 0 {
        0
    } else {
        transport_outputs(arcs.drop_last()) + if arcs.last() is TransportArc {
            1nat
        } else {
            0nat
        }
    }
}

/// The marking after a run of output arcs fired in order on `m`; the `k`-th
/// transport output arc receives the `k`-th group of moved ages.
pub open spec fn outputs_fired(arcs: Seq<OutputArc>, m: Seq<Seq<u64>>, groups: Seq<Seq<u64>>) -> Seq<
    Seq<u64>,
>
    decreases arcs.len(),
{
    if arcs.len() == 0 {
        m
    } else {
        let m1 = outputs_fired(arcs.drop_last(), m, groups);
        match arcs.last() {
            OutputArc::TransportArc(a) => a.fired(
                m1,
                group(groups, transport_outputs(arcs.drop_last()) as int),
            ),
            OutputArc::Regular(a) => a.fired(m1),
        }
    }
}

/// The weights of the transport arcs among `arcs`, in order.
pub open spec fn transport_in_weights(arcs: Seq<ArcType>) -> Seq<usize>
    decreases arcs.len(),
{
    if arcs.len() == 0 {
        seq![]
    } else {
        let w = transport_in_weights(arcs.drop_last());
        match arcs.last() {
            ArcType::Transport(a) => w.push(a.weight),
            _ => w,
        }
    }
}

/// The weights of the transport output arcs among `arcs`, in order.
pub open spec fn transport_out_weights(arcs: Seq<OutputArc>) -> Seq<usize>
    decreases arcs.len(),
{
    if arcs.len() == 0 {
        seq![]
    } else {
        let w = transport_out_weights(arcs.drop_last());
        match arcs.last() {
            OutputArc::TransportArc(a) => w.push(a.weight),
            _ => w,
        }
    }
}

/// The place that an input arc reads.
pub open spec fn input_place(a: ArcType) -> usize {
    match a {
        ArcType::Input(a) => a.input,
        ArcType::Transport(a) => a.input,
        ArcType::Inhibitor(a) => a.input,
    }
}

/// The place that an output arc fills.
pub open spec fn output_place(a: OutputArc) -> usize {
    match a {
        OutputArc::TransportArc(a) => a.output,
        OutputArc::Regular(a) => a.output,
    }
}

pub proof fn lemma_same_places_invariants(a: Seq<Place>, b: Seq<Place>)
    requires
        same_places(a, b),
    ensures
        invariant_table(a) == invariant_table(b),
{
    assert(invariant_table(a) =~= invariant_table(b));
}

/// A transition: its input and output arcs, the law of its delay, whether it
/// is urgent, and the delay drawn when it was last found enabled.
pub struct Transition {
    pub input_arcs: Vec<ArcType>,
    pub output_arcs: Vec<OutputArc>,
    pub distribution_function: Distribution,
    pub firing_time: i64,
    pub urgent: bool,
    pub id: usize,
}

impl Transition {
    /// Every input arc can fire on `m`.
    pub open spec fn enabled(self, invs: Seq<Seq<Invariant>>, m: Seq<Seq<u64>>) -> bool {
        forall|i: int| 0 <= i < self.input_arcs@.len() ==> (#[trigger] self.input_arcs@[i]).enabled(invs, m)
    }

    /// The marking after a firing on `m`, and the ages that the input arcs
    /// handed on.
    pub open spec fn fired(self, invs: Seq<Seq<Invariant>>, m: Seq<Seq<u64>>) -> (Seq<Seq<u64>>, Seq<u64>) {
        let (m1, consumed, groups) = inputs_fired(self.input_arcs@, invs, m);
        (outputs_fired(self.output_arcs@, m1, groups), consumed)
    }

    /// Every arc names one of `n` places, and the transport arcs and the
    /// transport output arcs pair up by position with equal weights.
    pub open spec fn well_formed(self, n: nat) -> bool {
        &&& forall|i: int| 0 <= i < self.input_arcs@.len() ==> input_place(#[trigger] self.input_arcs@[i]) < n
        &&& forall|i: int| 0 <= i < self.output_arcs@.len() ==> output_place(#[trigger] self.output_arcs@[i]) < n
        &&& transport_in_weights(self.input_arcs@) == transport_out_weights(self.output_arcs@)
    }

    /// The delay of a firing when `sample` was drawn: none if urgent.
    pub open spec fn delay_for(self, sample: i64) -> i64 {
        if self.urgent {
            0
        } else {
            sample
        }
    }

    pub fn new(
        input_arcs: Vec<ArcType>,
        output_arcs: Vec<OutputArc>,
        distribution_function: Distribution,
        urgent: bool,
        id: usize,
    ) -> (r: Transition)
        ensures
            r.input_arcs@ == input_arcs@,
            r.output_arcs@ == output_arcs@,
            r.distribution_function == distribution_function,
            r.firing_time == 0,
            r.urgent == urgent,
            r.id == id,
    {
        Transition { input_arcs, output_arcs, distribution_function, firing_time: 0, urgent, id }
    }

    /// Whether the transition is well formed in a net of `n_places` places.
    pub fn is_well_formed(&self, n_places: usize) -> (r: bool)
        ensures
            r == self.well_formed(n_places as nat),
    {
        let mut ins: Vec<usize> = Vec::new();
        let mut i: usize = 0;
        while i < self.input_arcs.len()
            invariant
                i <= self.input_arcs.len(),
                forall|k: int| 0 <= k < i ==> input_place(#[trigger] self.input_arcs@[k]) < n_places,
                ins@ == transport_in_weights(self.input_arcs@.subrange(0, i as int)),
            decreases self.input_arcs.len() - i,
        {
            assert(self.input_arcs@.subrange(0, i as int + 1).drop_last()
                == self.input_arcs@.subrange(0, i as int));
            let place = match &self.input_arcs[i] {
                ArcType::Input(a) => a.input,
                ArcType::Transport(a) => {
                    ins.push(a.weight);
                    a.input
                },
                ArcType::Inhibitor(a) => a.input,
            };
            if place >= n_places {
                return false;
            }
            i += 1;
        }
        assert(self.input_arcs@.subrange(0, i as int) == self.input_arcs@);
        let mut outs: Vec<usize> = Vec::new();
        let mut j: usize = 0;
        while j < self.output_arcs.len()
            invariant
                j <= self.output_arcs.len(),
                forall|k: int| 0 <= k < j ==> output_place(#[trigger] self.output_arcs@[k]) < n_places,
                forall|k: int| 0 <= k < self.input_arcs@.len() ==> input_place(#[trigger] self.input_arcs@[k]) < n_places,
                ins@ == transport_in_weights(self.input_arcs@),
                outs@ == transport_out_weights(self.output_arcs@.subrange(0, j as int)),
            decreases self.output_arcs.len() - j,
        {
            assert(self.output_arcs@.subrange(0, j as int + 1).drop_last()
                == self.output_arcs@.subrange(0, j as int));
            let place = match &self.output_arcs[j] {
                OutputArc::TransportArc(a) => {
                    outs.push(a.weight);
                    a.output
                },
                OutputArc::Regular(a) => a.output,
            };
            if place >= n_places {
                return false;
            }
            j += 1;
        }
        assert(self.output_arcs@.subrange(0, j as int) == self.output_arcs@);
        if ins.len() != outs.len() {
            return false;
        }
        let mut k: usize = 0;
        while k < ins.len()
            invariant
                k <= ins.len() == outs.len(),
                forall|q: int| 0 <= q < k ==> ins@[q] == outs@[q],
                ins@ == transport_in_weights(self.input_arcs@),
                outs@ == transport_out_weights(self.output_arcs@),
            decreases ins.len() - k,
        {
            if ins[k] != outs[k] {
                return false;
            }
            k += 1;
        }
        assert(ins@ =~= outs@);
        true
    }

    /// Whether every input arc can fire on `places`.
    pub fn is_enabled(&self, places: &Vec<Place>) -> (r: bool)
        ensures
            r == self.enabled(invariant_table(places@), marking(places@)),
    {
        let mut i: usize = 0;
        while i < self.input_arcs.len()
            invariant
                i <= self.input_arcs.len(),
                forall|k: int|
                    0 <= k < i ==> (#[trigger] self.input_arcs@[k]).enabled(
                        invariant_table(places@),
                        marking(places@),
                    ),
            decreases self.input_arcs.len() - i,
        {
            if !self.input_arcs[i].can_fire(places) {
                return false;
            }
            i += 1;
        }
        true
    }

    /// Whether the transition is enabled on `places`; if so, its firing time
    /// becomes `sample`, or zero if it is urgent.
    pub fn is_ready(&mut self, places: &Vec<Place>, sample: i64) -> (r: bool)
        ensures
            r == old(self).enabled(invariant_table(places@), marking(places@)),
            final(self).firing_time == if r {
                old(self).delay_for(sample)
            } else {
                old(self).firing_time
            },
            final(self).input_arcs == old(self).input_arcs,
            final(self).output_arcs == old(self).output_arcs,
            final(self).distribution_function == old(self).distribution_function,
            final(self).urgent == old(self).urgent,
            final(self).id == old(self).id,
    {
        if !self.is_enabled(places) {
            return false;
        }
        self.firing_time = if self.urgent {
            0
        } else {
            sample
        };
        true
    }

    /// Fires the input arcs in order, then the output arcs in order, and
    /// returns the ages that the input arcs handed on.
    pub fn fire(&self, places: &mut Vec<Place>) -> (r: Vec<u64>)
        ensures
            same_places(old(places)@, final(places)@),
            (marking(final(places)@), r@) == self.fired(
                invariant_table(old(places)@),
                marking(old(places)@),
            ),
    {
        let ghost invs = invariant_table(places@);
        let ghost m0 = marking(places@);
        let mut consumed: Vec<u64> = Vec::new();
        let mut groups: Vec<Vec<u64>> = Vec::new();
        let mut i: usize = 0;
        while i < self.input_arcs.len()
            invariant
                i <= self.input_arcs.len(),
                same_places(old(places)@, places@),
                invs == invariant_table(old(places)@),
                m0 == marking(old(places)@),
                (marking(places@), consumed@, groups@.map_values(|g: Vec<u64>| g@))
                    == inputs_fired(self.input_arcs@.subrange(0, i as int), invs, m0),
            decreases self.input_arcs.len() - i,
        {
            proof {
                lemma_same_places_invariants(old(places)@, places@);
            }
            let ghost prev = places@;
            let ghost gs = groups@.map_values(|g: Vec<u64>| g@);
            let arc = &self.input_arcs[i];
            let out = arc.fire(places);
            assert(self.input_arcs@.subrange(0, i as int + 1).drop_last()
                == self.input_arcs@.subrange(0, i as int));
            append_ages(&mut consumed, out.as_slice());
            if let ArcType::Transport(_) = arc {
                groups.push(out);
                assert(groups@.map_values(|g: Vec<u64>| g@) =~= gs.push(out@));
            }
            i += 1;
        }
        assert(self.input_arcs@.subrange(0, i as int) == self.input_arcs@);
        let ghost m1 = marking(places@);
        let ghost gs = groups@.map_values(|g: Vec<u64>| g@);
        let none: Vec<u64> = Vec::new();
        let mut next: usize = 0;
        let mut j: usize = 0;
        while j < self.output_arcs.len()
            invariant
                j <= self.output_arcs.len(),
                next <= j,
                next == transport_outputs(self.output_arcs@.subrange(0, j as int)),
                same_places(old(places)@, places@),
                none@ == Seq::<u64>::empty(),
                gs == groups@.map_values(|g: Vec<u64>| g@),
                marking(places@) == outputs_fired(self.output_arcs@.subrange(0, j as int), m1, gs),
            decreases self.output_arcs.len() - j,
        {
            assert(self.output_arcs@.subrange(0, j as int + 1).drop_last()
                == self.output_arcs@.subrange(0, j as int));
            match &self.output_arcs[j] {
                OutputArc::TransportArc(arc) => {
                    if next < groups.len() {
                        arc.fire(places, groups[next].as_slice());
                    } else {
                        arc.fire(places, none.as_slice());
                    }
                    next += 1;
                },
                OutputArc::Regular(arc) => {
                    arc.fire(places);
                },
            }
            j += 1;
        }
        assert(self.output_arcs@.subrange(0, j as int) == self.output_arcs@);
        consumed
    }
}

} // verus!
