use vstd::prelude::*;

use crate::place::{
    Place, invariants_hold_spec, lemma_remove_oldest, oldest, tokens_hold_spec, without_oldest,
};
use crate::token_invariant::Invariant;

verus! {

/// The tokens of each place, by index.
pub open spec fn marking(places: Seq<Place>) -> Seq<Seq<u64>> {
    Seq::new(places.len(), |i: int| places[i].tokens@)
}

/// The invariants of each place, by index.
pub open spec fn invariant_table(places: Seq<Place>) -> Seq<Seq<Invariant>> {
    Seq::new(places.len(), |i: int| places[i].invariants@)
}

/// `a` and `b` have the same places, their tokens aside.
pub open spec fn same_places(a: Seq<Place>, b: Seq<Place>) -> bool {
    &&& a.len() == b.len()
    &&& forall|i: int|
        0 <= i < a.len() ==> {
            &&& (#[trigger] a[i]).id == b[i].id
            &&& a[i].name == b[i].name
            &&& a[i].invariants == b[i].invariants
        }
}

/// `n` fresh tokens, each of age zero.
pub open spec fn fresh(n: nat) -> Seq<u64> {
    Seq::new(n, |i: int| 0u64)
}

/// Whether the place at `p` holds `w` tokens in `[lo, hi]` and `w` tokens that
/// satisfy its invariants.
pub open spec fn can_consume(
    invs: Seq<Seq<Invariant>>,
    m: Seq<Seq<u64>>,
    p: usize,
    w: usize,
    timing: Seq<u64>,
) -> bool {
    &&& p < m.len()
    &&& p < invs.len()
    &&& tokens_hold_spec(m[p as int], w as nat, timing[0], timing[1])
    &&& invariants_hold_spec(m[p as int], invs[p as int], w as nat)
}

/// The marking once the `w` oldest tokens of the place at `p` are taken out.
pub open spec fn after_consume(m: Seq<Seq<u64>>, p: usize, w: usize) -> Seq<Seq<u64>> {
    m.update(p as int, without_oldest(m[p as int], w as nat))
}

/// The marking once `ages` are appended at the place at `p`; unchanged where
/// there is no such place.
pub open spec fn after_produce(m: Seq<Seq<u64>>, p: usize, ages: Seq<u64>) -> Seq<Seq<u64>> {
    if p < m.len() {
        m.update(p as int, m[p as int] + ages)
    } else {
        m
    }
}

/// An input arc of a transition: one of the three kinds that read a place.
pub enum ArcType {
    Input(InputArc),
    Transport(TransportArc),
    Inhibitor(InhibitorArc),
}

/// Consumes `weight` tokens whose ages lie in `timing` and hands on as many
/// fresh tokens.
pub struct InputArc {
    pub input: usize,
    pub weight: usize,
    pub timing: [u64; 2],
}

/// Consumes `weight` tokens whose ages lie in `timing` and hands them on with
/// their ages.
pub struct TransportArc {
    pub input: usize,
    pub weight: usize,
    pub timing: [u64; 2],
}

/// Lets its transition fire only while its place holds fewer than
/// `constraint` tokens; consumes nothing.
pub struct InhibitorArc {
    pub input: usize,
    pub constraint: usize,
}

impl InputArc {
    pub open spec fn enabled(self, invs: Seq<Seq<Invariant>>, m: Seq<Seq<u64>>) -> bool {
        can_consume(invs, m, self.input, self.weight, self.timing@)
    }

    /// The marking after a firing, and the ages handed on.
    pub open spec fn fired(self, invs: Seq<Seq<Invariant>>, m: Seq<Seq<u64>>) -> (Seq<Seq<u64>>, Seq<u64>) {
        if self.enabled(invs, m) {
            (after_consume(m, self.input, self.weight), fresh(self.weight as nat))
        } else {
            (m, seq![])
        }
    }

    pub fn can_fire(&self, places: &Vec<Place>) -> (r: bool)
        ensures
            r == self.enabled(invariant_table(places@), marking(places@)),
    {
        can_consume_at(places, self.input, self.weight, &self.timing)
    }

    /// Where the arc can fire, takes out its `weight` oldest tokens and
    /// returns `weight` fresh ages; else changes nothing and returns none.
    pub fn fire(&self, places: &mut Vec<Place>) -> (r: Vec<u64>)
        ensures
            same_places(old(places)@, final(places)@),
            (marking(final(places)@), r@) == self.fired(
                invariant_table(old(places)@),
                marking(old(places)@),
            ),
    {
        if self.can_fire(places) {
            consume_at(places, self.input, self.weight);
            fresh_tokens(self.weight)
        } else {
            Vec::new()
        }
    }
}

impl TransportArc {
    pub open spec fn enabled(self, invs: Seq<Seq<Invariant>>, m: Seq<Seq<u64>>) -> bool {
        can_consume(invs, m, self.input, self.weight, self.timing@)
    }

    /// The marking after a firing, and the ages handed on.
    pub open spec fn fired(self, invs: Seq<Seq<Invariant>>, m: Seq<Seq<u64>>) -> (Seq<Seq<u64>>, Seq<u64>) {
        if self.enabled(invs, m) {
            (
                after_consume(m, self.input, self.weight),
                oldest(m[self.input as int], self.weight as nat),
            )
        } else {
            (m, seq![])
        }
    }

    pub fn can_fire(&self, places: &Vec<Place>) -> (r: bool)
        ensures
            r == self.enabled(invariant_table(places@), marking(places@)),
    {
        can_consume_at(places, self.input, self.weight, &self.timing)
    }

    /// Where the arc can fire, takes out its `weight` oldest tokens and
    /// returns their ages, oldest first; else changes nothing and returns none.
    pub fn fire(&self, places: &mut Vec<Place>) -> (r: Vec<u64>)
        ensures
            same_places(old(places)@, final(places)@),
            (marking(final(places)@), r@) == self.fired(
                invariant_table(old(places)@),
                marking(old(places)@),
            ),
    {
        if self.can_fire(places) {
            consume_at(places, self.input, self.weight)
        } else {
            Vec::new()
        }
    }
}

impl InhibitorArc {
    pub open spec fn enabled(self, m: Seq<Seq<u64>>) -> bool {
        self.input < m.len() && m[self.input as int].len() < self.constraint
    }

    pub fn can_fire(&self, places: &Vec<Place>) -> (r: bool)
        ensures
            r == self.enabled(marking(places@)),
    {
        self.input < places.len() && places[self.input].tokens.len() < self.constraint
    }

    /// Consumes nothing and hands nothing on.
    pub fn fire(&self, places: &mut Vec<Place>) -> (r: Vec<u64>)
        ensures
            final(places)@ == old(places)@,
            r@ == Seq::<u64>::empty(),
    {
        Vec::new()
    }
}

impl ArcType {
    pub open spec fn enabled(self, invs: Seq<Seq<Invariant>>, m: Seq<Seq<u64>>) -> bool {
        match self {
            ArcType::Input(a) => a.enabled(invs, m),
            ArcType::Transport(a) => a.enabled(invs, m),
            ArcType::Inhibitor(a) => a.enabled(m),
        }
    }

    /// The marking after a firing, and the ages handed on.
    pub open spec fn fired(self, invs: Seq<Seq<Invariant>>, m: Seq<Seq<u64>>) -> (Seq<Seq<u64>>, Seq<u64>) {
        match self {
            ArcType::Input(a) => a.fired(invs, m),
            ArcType::Transport(a) => a.fired(invs, m),
            ArcType::Inhibitor(a) => (m, seq![]),
        }
    }

    pub fn can_fire(&self, places: &Vec<Place>) -> (r: bool)
        ensures
            r == self.enabled(invariant_table(places@), marking(places@)),
    {
        match self {
            ArcType::Input(arc) => arc.can_fire(places),
            ArcType::Transport(arc) => arc.can_fire(places),
            ArcType::Inhibitor(arc) => arc.can_fire(places),
        }
    }

    pub fn fire(&self, places: &mut Vec<Place>) -> (r: Vec<u64>)
        ensures
            same_places(old(places)@, final(places)@),
            (marking(final(places)@), r@) == self.fired(
                invariant_table(old(places)@),
                marking(old(places)@),
            ),
    {
        match self {
            ArcType::Input(arc) => arc.fire(places),
            ArcType::Transport(arc) => arc.fire(places),
            ArcType::Inhibitor(arc) => arc.fire(places),
        }
    }
}

/// An output arc of a transition: one of the two kinds that fill a place.
pub enum OutputArc {
    TransportArc(TransportOutputArc),
    Regular(RegularOutputArc),
}

/// Appends to its place the first `weight` ages handed on by its transport
/// arc, ages kept.
pub struct TransportOutputArc {
    pub output: usize,
    pub weight: usize,
}

/// Appends `weight` fresh tokens to its place.
pub struct RegularOutputArc {
    pub output: usize,
    pub weight: usize,
}

impl TransportOutputArc {
    /// The marking once `tokens` are handed to this arc.
    pub open spec fn fired(self, m: Seq<Seq<u64>>, tokens: Seq<u64>) -> Seq<Seq<u64>> {
        if tokens.len() >= self.weight {
            after_produce(m, self.output, tokens.subrange(0, self.weight as int))
        } else {
            m
        }
    }

    /// Appends the first `weight` of `tokens` to the place; with fewer
    /// `tokens` than that, changes nothing and returns false.
    pub fn fire(&self, places: &mut Vec<Place>, tokens: &[u64]) -> (r: bool)
        ensures
            same_places(old(places)@, final(places)@),
            marking(final(places)@) == self.fired(marking(old(places)@), tokens@),
            r == (tokens@.len() >= self.weight),
    {
        if tokens.len() >= self.weight {
            let mut moved: Vec<u64> = Vec::new();
            let mut i: usize = 0;
            while i < self.weight
                invariant
                    i <= self.weight <= tokens.len(),
                    moved@ == tokens@.subrange(0, i as int),
                decreases self.weight - i,
            {
                assert(tokens@.subrange(0, i as int + 1) == tokens@.subrange(0, i as int).push(
                    tokens@[i as int],
                ));
                moved.push(tokens[i]);
                i += 1;
            }
            produce_at(places, self.output, &moved);
            true
        } else {
            proof {
                assert(marking(places@) == marking(old(places)@));
            }
            false
        }
    }
}

impl RegularOutputArc {
    /// The marking once this arc has fired.
    pub open spec fn fired(self, m: Seq<Seq<u64>>) -> Seq<Seq<u64>> {
        after_produce(m, self.output, fresh(self.weight as nat))
    }

    /// Appends `weight` tokens of age zero to the place, whatever was
    /// consumed upstream.
    pub fn fire(&self, places: &mut Vec<Place>)
        ensures
            same_places(old(places)@, final(places)@),
            marking(final(places)@) == self.fired(marking(old(places)@)),
    {
        let ages = fresh_tokens(self.weight);
        produce_at(places, self.output, &ages);
    }
}

/// A transport arc that fires hands its paired output arc of the same weight
/// exactly the ages that it took out of its place, and the output arc puts
/// them, ages kept, at its own place.
pub proof fn lemma_transport_round_trip(
    a: TransportArc,
    o: TransportOutputArc,
    invs: Seq<Seq<Invariant>>,
    m: Seq<Seq<u64>>,
)
    requires
        a.enabled(invs, m),
        o.weight == a.weight,
        o.output < m.len(),
    ensures
        ({
            let (m1, moved) = a.fired(invs, m);
            let m2 = o.fired(m1, moved);
            &&& moved.len() == a.weight
            &&& moved.to_multiset().add(m1[a.input as int].to_multiset()) == m[a.input as int].to_multiset()
            &&& m2[o.output as int] == m1[o.output as int] + moved
            &&& m2[o.output as int].to_multiset() == m1[o.output as int].to_multiset().add(moved.to_multiset())
        }),
{
    let s = m[a.input as int];
    lemma_remove_oldest(s, a.weight as nat);
    let (m1, moved) = a.fired(invs, m);
    assert(moved.subrange(0, a.weight as int) == moved);
    vstd::seq_lib::lemma_multiset_commutative(m1[o.output as int], moved);
}

/// `n` ages of zero.
fn fresh_tokens(n: usize) -> (r: Vec<u64>)
    ensures
        r@ == fresh(n as nat),
{
    let mut r: Vec<u64> = Vec::new();
    let mut i: usize = 0;
    while i < n
        invariant
            i <= n,
            r@ == fresh(i as nat),
        decreases n - i,
    {
        r.push(0);
        i += 1;
        assert(r@ =~= fresh(i as nat));
    }
    r
}

fn can_consume_at(places: &Vec<Place>, p: usize, w: usize, timing: &[u64; 2]) -> (r: bool)
    ensures
        r == can_consume(invariant_table(places@), marking(places@), p, w, timing@),
{
    if p < places.len() {
        places[p].tokens_hold(w, timing) && places[p].invariants_hold(w)
    } else {
        false
    }
}

/// Takes the `w` oldest tokens out of the place at `p`.
fn consume_at(places: &mut Vec<Place>, p: usize, w: usize) -> (r: Vec<u64>)
    requires
        p < old(places).len(),
        w <= old(places)@[p as int].tokens.len(),
    ensures
        same_places(old(places)@, final(places)@),
        marking(final(places)@) == after_consume(marking(old(places)@), p, w),
        r@ == oldest(old(places)@[p as int].tokens@, w as nat),
{
    let r = places[p].remove_tokens(w);
    assert(marking(places@) =~= after_consume(marking(old(places)@), p, w));
    r
}

/// Appends `ages` to the tokens of the place at `p`, if there is one.
fn produce_at(places: &mut Vec<Place>, p: usize, ages: &Vec<u64>)
    ensures
        same_places(old(places)@, final(places)@),
        marking(final(places)@) == after_produce(marking(old(places)@), p, ages@),
{
    if p < places.len() {
        places[p].add_tokens(ages.as_slice());
        assert(marking(places@) =~= after_produce(marking(old(places)@), p, ages@));
    } else {
        assert(marking(places@) =~= marking(old(places)@));
    }
}

} // verus!
