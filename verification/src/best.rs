use vstd::prelude::*;

use crate::ranking::{is_first_minimum, shortest_index};

verus! {

/// The smallest key of a non-empty sequence of keys.
pub open spec fn seq_min(keys: Seq<u64>) -> u64
    recommends
        keys.len() > 0,
    decreases keys.len(),
{
    if keys.len() <= 1 {
        keys[0]
    } else {
        let rest = seq_min(keys.drop_last());
        if keys.last() < rest {
            keys.last()
        } else {
            rest
        }
    }
}

/// The smaller of two keys.
pub open spec fn min_key(a: u64, b: u64) -> u64 {
    if a < b {
        a
    } else {
        b
    }
}

/// The best key after the iterations `iterations`, one after the other,
/// starting from `initial`.
pub open spec fn running_best(initial: u64, iterations: Seq<Seq<u64>>) -> u64
    decreases iterations.len(),
{
    if iterations.len() == 0 {
        initial
    } else {
        min_key(running_best(initial, iterations.drop_last()), seq_min(iterations.last()))
    }
}

/// `seq_min` is one of the keys and no key is smaller.
pub proof fn lemma_seq_min(keys: Seq<u64>)
    requires
        keys.len() > 0,
    ensures
        keys.contains(seq_min(keys)),
        forall|j: int| 0 <= j < keys.len() ==> seq_min(keys) <= #[trigger] keys[j],
    decreases keys.len(),
{
    if keys.len() > 1 {
        let rest = keys.drop_last();
        lemma_seq_min(rest);
        assert forall|j: int| 0 <= j < keys.len() implies seq_min(keys) <= #[trigger] keys[j] by {
            if j < keys.len() - 1 {
                assert(keys[j] == rest[j]);
            }
        }
        if seq_min(keys) == seq_min(rest) {
            let t = choose|t: int| 0 <= t < rest.len() && rest[t] == seq_min(rest);
            assert(keys[t] == seq_min(keys));
        } else {
            assert(keys[keys.len() - 1] == seq_min(keys));
        }
    } else {
        assert(keys[0] == seq_min(keys));
    }
}

/// Law: `min_key` is the smaller of its two keys.
pub proof fn min_key_is_smaller(a: u64, b: u64)
    ensures
        min_key(a, b) <= a,
        min_key(a, b) <= b,
        min_key(a, b) == a || min_key(a, b) == b,
{
}

/// The distance key of the shortest tour found so far over all iterations.
pub struct BestDistance {
    key: u64,
}

impl BestDistance {
    /// The key of the best tour so far.
    pub closed spec fn best_key(&self) -> u64 {
        self.key
    }

    /// No tour found yet: the best key is `initial_key`, which a tour must
    /// beat to be recorded.
    pub fn new(initial_key: u64) -> (b: Self)
        ensures
            b.best_key() == initial_key,
    {
        BestDistance { key: initial_key }
    }

    /// The key of the best tour so far.
    pub fn key(&self) -> (k: u64)
        ensures
            k == self.best_key(),
    {
        self.key
    }

    /// Offers the tours of one iteration, by their distance keys. The
    /// shortest of them (the first with the smallest key) replaces the best
    /// when its key is strictly smaller; its index is then returned.
    pub fn offer_iteration(&mut self, keys: &Vec<u64>) -> (improved: Option<usize>)
        requires
            keys@.len() > 0,
        ensures
            final(self).best_key() == min_key(old(self).best_key(), seq_min(keys@)),
            final(self).best_key() <= old(self).best_key(),
            seq_min(keys@) < old(self).best_key() ==> (improved matches Some(i) && is_first_minimum(
                keys@,
                i as int,
            )),
            !(seq_min(keys@) < old(self).best_key()) ==> improved is None,
    {
        let i = shortest_index(keys);
        proof {
            lemma_seq_min(keys@);
            let t = choose|t: int| 0 <= t < keys@.len() && keys@[t] == seq_min(keys@);
            assert(keys@[i as int] <= keys@[t]);
            assert(keys@[i as int] == seq_min(keys@));
        }
        if keys[i] < self.key {
            self.key = keys[i];
            Some(i)
        } else {
            None
        }
    }
}

/// Law: the best key after any series of iterations is no larger than the
/// initial key or any tour offered, and it is the initial key or the key of
/// one of those tours.
pub proof fn best_is_minimum_of_all_offered(initial: u64, iterations: Seq<Seq<u64>>)
    requires
        forall|it: int| 0 <= it < iterations.len() ==> #[trigger] iterations[it].len() > 0,
    ensures
        running_best(initial, iterations) <= initial,
        forall|it: int, k: int|
            0 <= it < iterations.len() && 0 <= k < iterations[it].len() ==> running_best(
                initial,
                iterations,
            ) <= #[trigger] iterations[it][k],
        running_best(initial, iterations) == initial || exists|it: int, k: int|
            0 <= it < iterations.len() && 0 <= k < iterations[it].len() && #[trigger] iterations[it][k]
                == running_best(initial, iterations),
    decreases iterations.len(),
{
    if iterations.len() > 0 {
        let rest = iterations.drop_last();
        let last = iterations.last();
        assert forall|it: int| 0 <= it < rest.len() implies #[trigger] rest[it].len() > 0 by {
            assert(rest[it] == iterations[it]);
        }
        best_is_minimum_of_all_offered(initial, rest);
        assert(iterations[iterations.len() - 1].len() > 0);
        lemma_seq_min(last);
        let r = running_best(initial, iterations);
        assert forall|it: int, k: int|
            0 <= it < iterations.len() && 0 <= k < iterations[it].len() implies r
            <= #[trigger] iterations[it][k] by {
            if it < rest.len() {
                assert(iterations[it] == rest[it]);
                assert(running_best(initial, rest) <= rest[it][k]);
            } else {
                assert(iterations[it] == last);
            }
        }
        if r != initial {
            if r == seq_min(last) {
                let k = choose|k: int| 0 <= k < last.len() && last[k] == seq_min(last);
                assert(iterations[iterations.len() - 1][k] == r);
            } else {
                assert(r == running_best(initial, rest));
                let (it, k) = choose|it: int, k: int|
                    0 <= it < rest.len() && 0 <= k < rest[it].len() && #[trigger] rest[it][k]
                        == running_best(initial, rest);
                assert(iterations[it] == rest[it]);
                assert(iterations[it][k] == r);
            }
        }
    }
}

} // verus!
