use vstd::prelude::*;

use crate::token_invariant::Invariant;

verus! {

broadcast use vstd::seq_lib::group_to_multiset_ensures;

/// Whether `age` lies in the closed window `[lo, hi]`.
pub open spec fn in_window(age: u64, lo: u64, hi: u64) -> bool {
    lo <= age && age <= hi
}

/// How many ages of `s` lie in the window `[lo, hi]`.
pub open spec fn count_in_window(s: Seq<u64>, lo: u64, hi: u64) -> nat
    decreases s.len(),
{
    if s.len() == 0 {
        0
    } else {
        count_in_window(s.drop_last(), lo, hi) + if in_window(s.last(), lo, hi) {
            1nat
        } else {
            0nat
        }
    }
}

/// Whether a token of age `age` satisfies every invariant of `invs`.
pub open spec fn satisfies_all(invs: Seq<Invariant>, age: u64) -> bool {
    forall|i: int| 0 <= i < invs.len() ==> (#[trigger] invs[i]).holds(age)
}

/// How many ages of `s` satisfy every invariant of `invs`.
pub open spec fn count_satisfying(s: Seq<u64>, invs: Seq<Invariant>) -> nat
    decreases s.len(),
{
    if s.len() == 0 {
        0
    } else {
        count_satisfying(s.drop_last(), invs) + if satisfies_all(invs, s.last()) {
            1nat
        } else {
            0nat
        }
    }
}

/// At least `n` of the ages `s` lie in `[lo, hi]`.
pub open spec fn tokens_hold_spec(s: Seq<u64>, n: nat, lo: u64, hi: u64) -> bool {
    count_in_window(s, lo, hi) >= n
}

/// There are at least `n` tokens, and, where invariants are set, at least `n`
/// of them satisfy all of them.
pub open spec fn invariants_hold_spec(s: Seq<u64>, invs: Seq<Invariant>, n: nat) -> bool {
    n <= s.len() && (invs.len() == 0 || count_satisfying(s, invs) >= n)
}

/// The index of the first token of greatest age.
pub open spec fn first_oldest(s: Seq<u64>) -> int
    decreases s.len(),
{
    if s.len() <= 1 {
        0
    } else {
        let j = first_oldest(s.drop_last());
        if s.last() > s[j] {
            s.len() - 1
        } else {
            j
        }
    }
}

/// The `n` oldest ages of `s`, oldest first; of equal ages the one that
/// stands first goes first.
pub open spec fn oldest(s: Seq<u64>, n: nat) -> Seq<u64>
    decreases n,
{
    if n == 0 || s.len() == 0 {
        seq![]
    } else {
        seq![s[first_oldest(s)]] + oldest(s.remove(first_oldest(s)), (n - 1) as nat)
    }
}

/// What stays of `s` once its `n` oldest ages are taken out, in the order
/// in which it stood.
pub open spec fn without_oldest(s: Seq<u64>, n: nat) -> Seq<u64>
    decreases n,
{
    if n == 0 || s.len() == 0 {
        s
    } else {
        without_oldest(s.remove(first_oldest(s)), (n - 1) as nat)
    }
}

pub proof fn lemma_first_oldest(s: Seq<u64>)
    requires
        s.len() > 0,
    ensures
        0 <= first_oldest(s) < s.len(),
        forall|k: int| 0 <= k < s.len() ==> #[trigger] s[k] <= s[first_oldest(s)],
    decreases s.len(),
{
    if s.len() > 1 {
        lemma_first_oldest(s.drop_last());
        assert forall|k: int| 0 <= k < s.len() - 1 implies #[trigger] s[k] == s.drop_last()[k] by {}
    }
}

/// Taking out the `n` oldest tokens, for `n` up to the number of tokens,
/// takes exactly `n` of them, none younger than any token that stays, and
/// what is taken and what stays make up the tokens there were.
pub proof fn lemma_remove_oldest(s: Seq<u64>, n: nat)
    requires
        n <= s.len(),
    ensures
        oldest(s, n).len() == n,
        without_oldest(s, n).len() == s.len() - n,
        oldest(s, n).to_multiset().add(without_oldest(s, n).to_multiset()) == s.to_multiset(),
        forall|i: int, k: int|
            0 <= i < n && 0 <= k < s.len() - n ==> #[trigger] oldest(s, n)[i]
                >= #[trigger] without_oldest(s, n)[k],
    decreases n,
{
    if n > 0 {
        let j = first_oldest(s);
        lemma_first_oldest(s);
        let s2 = s.remove(j);
        let m = (n - 1) as nat;
        lemma_remove_oldest(s2, m);
        let t = oldest(s2, m);
        let w = without_oldest(s2, m);
        assert(oldest(s, n) == seq![s[j]] + t);
        assert(without_oldest(s, n) == w);
        assert((seq![s[j]] + t).to_multiset() == t.to_multiset().insert(s[j])) by {
            vstd::seq_lib::lemma_seq_union_to_multiset_commutative(seq![s[j]], t);
            assert(t + seq![s[j]] == t.push(s[j]));
        }
        assert(s2.to_multiset() == s.to_multiset().remove(s[j]));
        assert(s.to_multiset().contains(s[j])) by {
            assert(s.contains(s[j]));
        }
        assert(oldest(s, n).to_multiset().add(w.to_multiset()) =~= s.to_multiset()) by {
            broadcast use vstd::multiset::group_multiset_axioms;

            let x = s[j];
            assert(t.to_multiset().add(w.to_multiset()) == s2.to_multiset());
            assert(oldest(s, n).to_multiset() == t.to_multiset().insert(x));
            assert forall|v: u64|
                #[trigger] oldest(s, n).to_multiset().add(w.to_multiset()).count(v)
                    == s.to_multiset().count(v) by {
                assert(s2.to_multiset().count(v) == s.to_multiset().remove(x).count(v));
                if v == x {
                    assert(s.to_multiset().count(x) > 0);
                }
            }
        }
        assert forall|i: int, k: int|
            0 <= i < n && 0 <= k < s.len() - n implies #[trigger] oldest(s, n)[i]
                >= #[trigger] without_oldest(s, n)[k] by {
            if i > 0 {
                assert(oldest(s, n)[i] == t[i - 1]);
            } else {
                let x = w[k];
                assert(w.to_multiset().contains(x)) by {
                    assert(w.contains(x));
                }
                assert(s2.to_multiset().contains(x));
                assert(s2.contains(x));
                let kk = choose|kk: int| 0 <= kk < s2.len() && s2[kk] == x;
                assert(s2[kk] == s[if kk < j { kk } else { kk + 1 }]);
            }
        }
    }
}

/// `a + d`, held at `u64::MAX`.
pub open spec fn sat_add(a: u64, d: u64) -> u64 {
    if a + d > u64::MAX {
        u64::MAX
    } else {
        (a + d) as u64
    }
}

/// A place of the net: an id, a name for display, the ages of its tokens,
/// and the invariants that its tokens are held to.
#[derive(Clone, Debug)]
pub struct Place {
    pub id: usize,
    pub name: String,
    pub tokens: Vec<u64>,
    pub invariants: Vec<Invariant>,
}

impl Place {
    pub fn new(id: usize, name: String, tokens: Vec<u64>, invariants: Vec<Invariant>) -> (r: Place)
        ensures
            r.id == id,
            r.name@ == name@,
            r.tokens@ == tokens@,
            r.invariants@ == invariants@,
    {
        Place { id, name, tokens, invariants }
    }

    /// Whether a token of age `age` satisfies every invariant of this place.
    fn satisfies_invariants(&self, age: u64) -> (r: bool)
        ensures
            r == satisfies_all(self.invariants@, age),
    {
        let mut i: usize = 0;
        while i < self.invariants.len()
            invariant
                i <= self.invariants.len(),
                forall|k: int| 0 <= k < i ==> (#[trigger] self.invariants@[k]).holds(age),
            decreases self.invariants.len() - i,
        {
            if !self.invariants[i].check(age) {
                return false;
            }
            i += 1;
        }
        true
    }

    /// Whether at least `n` tokens satisfy all invariants; false whenever
    /// there are fewer than `n` tokens, true when no invariant is set.
    pub fn invariants_hold(&self, n: usize) -> (r: bool)
        ensures
            r == invariants_hold_spec(self.tokens@, self.invariants@, n as nat),
    {
        if n > self.tokens.len() {
            return false;
        }
        if self.invariants.len() == 0 {
            return true;
        }
        let mut count: usize = 0;
        let mut i: usize = 0;
        while i < self.tokens.len()
            invariant
                i <= self.tokens.len(),
                count <= i,
                count == count_satisfying(self.tokens@.subrange(0, i as int), self.invariants@),
            decreases self.tokens.len() - i,
        {
            let ghost s = self.tokens@.subrange(0, i as int + 1);
            assert(s.drop_last() == self.tokens@.subrange(0, i as int));
            if self.satisfies_invariants(self.tokens[i]) {
                count += 1;
            }
            i += 1;
        }
        assert(self.tokens@.subrange(0, i as int) == self.tokens@);
        count >= n
    }

    /// Whether at least `n` tokens have an age in `[timing[0], timing[1]]`.
    pub fn tokens_hold(&self, n: usize, timing: &[u64; 2]) -> (r: bool)
        ensures
            r == tokens_hold_spec(self.tokens@, n as nat, timing@[0], timing@[1]),
    {
        let min_age = timing[0];
        let max_age = timing[1];
        let mut count: usize = 0;
        let mut i: usize = 0;
        while i < self.tokens.len()
            invariant
                i <= self.tokens.len(),
                count <= i,
                min_age == timing@[0],
                max_age == timing@[1],
                count == count_in_window(self.tokens@.subrange(0, i as int), min_age, max_age),
            decreases self.tokens.len() - i,
        {
            let ghost s = self.tokens@.subrange(0, i as int + 1);
            assert(s.drop_last() == self.tokens@.subrange(0, i as int));
            let age = self.tokens[i];
            if min_age <= age && age <= max_age {
                count += 1;
            }
            i += 1;
        }
        assert(self.tokens@.subrange(0, i as int) == self.tokens@);
        count >= n
    }

    /// Takes out the `n` oldest tokens and returns their ages, oldest first.
    /// With fewer than `n` tokens nothing changes and nothing is returned.
    pub fn remove_tokens(&mut self, n: usize) -> (r: Vec<u64>)
        ensures
            final(self).id == old(self).id,
            final(self).name == old(self).name,
            final(self).invariants == old(self).invariants,
            n <= old(self).tokens.len() ==> r@ == oldest(old(self).tokens@, n as nat)
                && final(self).tokens@ == without_oldest(old(self).tokens@, n as nat),
            n > old(self).tokens.len() ==> r@ == Seq::<u64>::empty() && final(self).tokens@
                == old(self).tokens@,
    {
        let mut taken: Vec<u64> = Vec::new();
        if n <= self.tokens.len() {
            let mut k: usize = 0;
            while k < n
                invariant
                    k <= n,
                    n <= old(self).tokens.len(),
                    self.tokens.len() == old(self).tokens.len() - k,
                    self.id == old(self).id,
                    self.name == old(self).name,
                    self.invariants == old(self).invariants,
                    taken@ + oldest(self.tokens@, (n - k) as nat) == oldest(
                        old(self).tokens@,
                        n as nat,
                    ),
                    without_oldest(self.tokens@, (n - k) as nat) == without_oldest(
                        old(self).tokens@,
                        n as nat,
                    ),
                decreases n - k,
            {
                let ghost s = self.tokens@;
                let ghost m = (n - k) as nat;
                let j = index_of_oldest(&self.tokens);
                let a = self.tokens.remove(j);
                assert(oldest(s, m) == seq![a] + oldest(self.tokens@, (m - 1) as nat));
                assert(without_oldest(s, m) == without_oldest(self.tokens@, (m - 1) as nat));
                assert(taken@ + oldest(s, m) == taken@.push(a) + oldest(
                    self.tokens@,
                    (m - 1) as nat,
                ));
                taken.push(a);
                k += 1;
            }
            assert(taken@ + oldest(self.tokens@, 0) == taken@);
        }
        taken
    }

    /// Makes every token `delay` ticks older; an age stops at `u64::MAX`.
    pub fn age_by(&mut self, delay: u64)
        ensures
            final(self).id == old(self).id,
            final(self).name == old(self).name,
            final(self).invariants == old(self).invariants,
            final(self).tokens@ == Seq::new(
                old(self).tokens@.len(),
                |j: int| sat_add(old(self).tokens@[j], delay),
            ),
    {
        let mut j: usize = 0;
        while j < self.tokens.len()
            invariant
                j <= self.tokens.len() == old(self).tokens.len(),
                self.id == old(self).id,
                self.name == old(self).name,
                self.invariants == old(self).invariants,
                forall|k: int| 0 <= k < j ==> #[trigger] self.tokens@[k] == sat_add(old(self).tokens@[k], delay),
                forall|k: int| j <= k < self.tokens.len() ==> #[trigger] self.tokens@[k] == old(self).tokens@[k],
            decreases self.tokens.len() - j,
        {
            let age = self.tokens[j];
            let older = if age > u64::MAX - delay {
                u64::MAX
            } else {
                age + delay
            };
            self.tokens.set(j, older);
            j += 1;
        }
        assert(self.tokens@ =~= Seq::new(
            old(self).tokens@.len(),
            |j: int| sat_add(old(self).tokens@[j], delay),
        ));
    }

    /// Appends `tokens` to the tokens of this place, in order.
    pub fn add_tokens(&mut self, tokens: &[u64])
        ensures
            final(self).id == old(self).id,
            final(self).name == old(self).name,
            final(self).invariants == old(self).invariants,
            final(self).tokens@ == old(self).tokens@ + tokens@,
    {
        append_ages(&mut self.tokens, tokens);
    }
}

/// Appends `ages` to `dst`, in order.
pub(crate) fn append_ages(dst: &mut Vec<u64>, ages: &[u64])
    ensures
        final(dst)@ == old(dst)@ + ages@,
{
    let mut i: usize = 0;
    while i < ages.len()
        invariant
            i <= ages.len(),
            dst@ == old(dst)@ + ages@.subrange(0, i as int),
        decreases ages.len() - i,
    {
        assert(ages@.subrange(0, i as int + 1) == ages@.subrange(0, i as int).push(ages@[i as int]));
        dst.push(ages[i]);
        i += 1;
    }
    assert(ages@.subrange(0, i as int) == ages@);
}

/// The index of the first token of greatest age in `tokens`.
fn index_of_oldest(tokens: &Vec<u64>) -> (j: usize)
    requires
        tokens.len() > 0,
    ensures
        j == first_oldest(tokens@),
        j < tokens.len(),
{
    let mut best: usize = 0;
    let mut i: usize = 1;
    proof {
        assert(tokens@.subrange(0, 1).len() == 1);
    }
    while i < tokens.len()
        invariant
            1 <= i <= tokens.len(),
            best < i,
            best == first_oldest(tokens@.subrange(0, i as int)),
        decreases tokens.len() - i,
    {
        let ghost s = tokens@.subrange(0, i as int + 1);
        assert(s.drop_last() == tokens@.subrange(0, i as int));
        if tokens[i] > tokens[best] {
            best = i;
        }
        i += 1;
    }
    assert(tokens@.subrange(0, i as int) == tokens@);
    best
}

/// Whether at least `n` ages lie in a window holds for every smaller `n` too.
pub proof fn lemma_tokens_hold_monotone(s: Seq<u64>, n: nat, m: nat, lo: u64, hi: u64)
    requires
        tokens_hold_spec(s, n, lo, hi),
        m <= n,
    ensures
        tokens_hold_spec(s, m, lo, hi),
{
}

/// No token is ever needed for zero tokens to hold the invariants, and more
/// tokens than there are never hold them.
pub proof fn lemma_invariants_hold_bounds(s: Seq<u64>, invs: Seq<Invariant>, n: nat)
    ensures
        invariants_hold_spec(s, invs, 0),
        n > s.len() ==> !invariants_hold_spec(s, invs, n),
{
}

} // verus!
