use vstd::prelude::*;

use fnv::{FnvHashMap, FnvHasher};
use std::hash::BuildHasherDefault;

verus! {

/// The hasher of FNV hash maps (the `fnv` crate).
#[verifier::external_type_specification]
#[verifier::external_body]
pub struct ExFnvHasher(FnvHasher);

/// The builder of default hashers (std), here of FNV hashers.
#[verifier::external_type_specification]
#[verifier::external_body]
#[verifier::reject_recursive_types(H)]
pub struct ExBuildHasherDefault<H>(BuildHasherDefault<H>);

/// An empty FNV hash map.
///
/// Trusted: `FnvHashMap::default()` is an empty `std` `HashMap` with the FNV
/// hasher; the contract claims that it maps no key.
#[verifier::external_body]
fn fnv_map_new<V>() -> (empty: FnvHashMap<i64, V>)
    ensures
        empty@ =~= Map::empty(),
{
    FnvHashMap::default()
}

/// The value that an FNV hash map holds for `k`.
///
/// Trusted: `HashMap::get` on a map whose hasher is the deterministic
/// `FnvHasher` finds the value stored under `k`; the contract claims that
/// it returns that value, or `None` when `k` has none.
#[verifier::external_body]
fn fnv_map_get<V>(m: &FnvHashMap<i64, V>, k: i64) -> (r: Option<&V>)
    ensures
        r matches Some(v) ==> m@.contains_key(k) && *v == m@[k],
        r is None ==> !m@.contains_key(k),
{
    m.get(&k)
}

/// Stores `v` under `k` in an FNV hash map.
///
/// Trusted: `HashMap::insert` with the deterministic `FnvHasher`; the
/// contract claims that afterwards `k` maps to `v` and no other key changes.
/// The value it hands back is dropped.
#[verifier::external_body]
fn fnv_map_insert<V>(m: &mut FnvHashMap<i64, V>, k: i64, v: V)
    ensures
        final(m)@ == old(m)@.insert(k, v),
{
    m.insert(k, v);
}

/// Takes the value stored under `k` out of an FNV hash map.
///
/// Trusted: `HashMap::remove` with the deterministic `FnvHasher`; the
/// contract claims that it returns the value that `k` had, if any, and that
/// afterwards `k` has none and no other key changes.
#[verifier::external_body]
fn fnv_map_remove<V>(m: &mut FnvHashMap<i64, V>, k: i64) -> (r: Option<V>)
    ensures
        final(m)@ == old(m)@.remove(k),
        r matches Some(v) ==> old(m)@.contains_key(k) && v == old(m)@[k],
        r is None ==> !old(m)@.contains_key(k),
{
    m.remove(&k)
}

/// The level of an edge: the recorded one, or `default` when none is.
pub open spec fn level_or<V>(recorded: Option<V>, default: V) -> V {
    match recorded {
        Some(v) => v,
        None => default,
    }
}

/// Law: an edge's level is its recorded level when there is one, and the
/// default otherwise.
pub proof fn level_is_recorded_or_default<V>(recorded: Option<V>, default: V)
    ensures
        recorded is None ==> level_or(recorded, default) == default,
        recorded matches Some(v) ==> level_or(recorded, default) == v,
{
}

/// The pheromone levels recorded on the edges of the graph, by the node an
/// edge leaves and then the node it enters. An edge with no record carries
/// the colony's default level.
#[derive(Debug)]
pub struct PheromoneTable<V> {
    levels: FnvHashMap<i64, FnvHashMap<i64, V>>,
}

impl<V> PheromoneTable<V> {
    /// The level recorded on the edge from `a` to `b`, if any.
    pub closed spec fn recorded(&self, a: i64, b: i64) -> Option<V> {
        if self.levels@.contains_key(a) && self.levels@[a]@.contains_key(b) {
            Some(self.levels@[a]@[b])
        } else {
            None
        }
    }

    /// A table with no level recorded on any edge.
    pub fn new() -> (t: Self)
        ensures
            forall|a: i64, b: i64| #[trigger] t.recorded(a, b) is None,
    {
        PheromoneTable { levels: fnv_map_new() }
    }
}

impl<V> Default for PheromoneTable<V> {
    /// A table with no level recorded on any edge.
    fn default() -> (t: Self)
        ensures
            forall|a: i64, b: i64| #[trigger] t.recorded(a, b) is None,
    {
        Self::new()
    }
}

impl<V: Copy> PheromoneTable<V> {
    /// The level of the edge from `a` to `b`.
    pub fn level(&self, a: i64, b: i64, default: V) -> (v: V)
        ensures
            v == level_or(self.recorded(a, b), default),
    {
        match fnv_map_get(&self.levels, a) {
            Some(row) => match fnv_map_get(row, b) {
                Some(v) => *v,
                None => default,
            },
            None => default,
        }
    }

    /// The levels of the edges from `a` to each of the nodes
    /// `0, 1, ..., count - 1`, in that order.
    pub fn row(&self, a: i64, count: usize, default: V) -> (levels: Vec<V>)
        requires
            count <= i64::MAX,
        ensures
            levels@.len() == count,
            forall|j: int|
                0 <= j < count ==> #[trigger] levels@[j] == level_or(
                    self.recorded(a, j as i64),
                    default,
                ),
    {
        let mut levels: Vec<V> = Vec::new();
        match fnv_map_get(&self.levels, a) {
            Some(row) => {
                let mut j: usize = 0;
                while j < count
                    invariant
                        j <= count <= i64::MAX,
                        self.levels@.contains_key(a),
                        *row == self.levels@[a],
                        levels@.len() == j,
                        forall|k: int|
                            0 <= k < j ==> #[trigger] levels@[k] == level_or(
                                self.recorded(a, k as i64),
                                default,
                            ),
                    decreases count - j,
                {
                    let v = match fnv_map_get(row, j as i64) {
                        Some(v) => *v,
                        None => default,
                    };
                    levels.push(v);
                    j = j + 1;
                }
            },
            None => {
                let mut j: usize = 0;
                while j < count
                    invariant
                        j <= count <= i64::MAX,
                        !self.levels@.contains_key(a),
                        levels@.len() == j,
                        forall|k: int| 0 <= k < j ==> #[trigger] levels@[k] == default,
                    decreases count - j,
                {
                    levels.push(default);
                    j = j + 1;
                }
            },
        }
        levels
    }

    /// Lays pheromone on the edge from `a` to `b`: its level becomes
    /// `raise` of its current level (`default` when none is recorded), and
    /// that new level is returned. No other edge changes.
    pub fn reinforce<F: Fn(V) -> V>(&mut self, a: i64, b: i64, default: V, raise: F) -> (new_level: V)
        requires
            forall|v: V| call_requires(raise, (v,)),
        ensures
            call_ensures(raise, (level_or(old(self).recorded(a, b), default),), new_level),
            final(self).recorded(a, b) == Some(new_level),
            forall|x: i64, y: i64|
                !(x == a && y == b) ==> #[trigger] final(self).recorded(x, y) == old(self).recorded(
                    x,
                    y,
                ),
    {
        let ghost before = *self;
        let ghost old_row: Map<i64, V> = if before.levels@.contains_key(a) {
            before.levels@[a]@
        } else {
            Map::empty()
        };
        let mut row: FnvHashMap<i64, V> = match fnv_map_remove(&mut self.levels, a) {
            Some(r) => r,
            None => fnv_map_new(),
        };
        assert(row@ == old_row);
        let current = match fnv_map_get(&row, b) {
            Some(v) => *v,
            None => default,
        };
        assert(current == level_or(before.recorded(a, b), default));
        let new_level = raise(current);
        fnv_map_insert(&mut row, b, new_level);
        fnv_map_insert(&mut self.levels, a, row);
        proof {
            assert(self.levels@[a]@ == old_row.insert(b, new_level));
            assert forall|x: i64, y: i64| !(x == a && y == b) implies #[trigger] self.recorded(x, y)
                == before.recorded(x, y) by {
                if x != a {
                    assert(self.levels@.contains_key(x) == before.levels@.contains_key(x));
                }
            }
        }
        new_level
    }
}

} // verus!
