use vstd::prelude::*;

verus! {

/// Tour `a` ranks before tour `b`: its distance key is smaller, or the keys
/// are equal and `a` comes first.
pub open spec fn ranks_before(keys: Seq<u64>, a: usize, b: usize) -> bool {
    keys[a as int] < keys[b as int] || (keys[a as int] == keys[b as int] && a < b)
}

/// `order` lists every index of `keys` once, shortest first, ties in the
/// order of the indices: the order of a stable sort by key.
pub open spec fn is_stable_sort_order(keys: Seq<u64>, order: Seq<usize>) -> bool {
    &&& order.len() == keys.len()
    &&& forall|k: int| 0 <= k < order.len() ==> #[trigger] order[k] < keys.len()
    &&& forall|i: int| 0 <= i < keys.len() ==> #[trigger] order.contains(i as usize)
    &&& forall|i: int, j: int|
        0 <= i < j < order.len() ==> ranks_before(keys, #[trigger] order[i], #[trigger] order[j])
}

/// The number of tours that reinforce the pheromone trail: the first
/// `no_best_path` in rank order, or all of them when `no_best_path` is
/// negative or not smaller than the number of tours.
pub open spec fn reinforced_count(len: nat, no_best_path: int) -> nat {
    if 0 <= no_best_path < len {
        no_best_path as nat
    } else {
        len
    }
}

/// `i` is the first index of a smallest key.
pub open spec fn is_first_minimum(keys: Seq<u64>, i: int) -> bool {
    &&& 0 <= i < keys.len()
    &&& forall|j: int| 0 <= j < keys.len() ==> keys[i] <= #[trigger] keys[j]
    &&& forall|j: int| 0 <= j < i ==> keys[i] < #[trigger] keys[j]
}

/// The order of a stable sort of `keys`, as computed by `permutation::sort`
/// and applied to the identity.
///
/// Trusted: `permutation::sort` sorts the identity index vector with the
/// stable `sort_by_key` on the keys, and `Permutation::apply_slice` of that
/// (inverse-form) permutation lists the element at each sorted index; the
/// contract claims that the result is the stable sort order of the keys.
#[verifier::external_body]
fn stable_sort_order(keys: &[u64]) -> (order: Vec<usize>)
    ensures
        is_stable_sort_order(keys@, order@),
{
    let permutation = permutation::sort(keys);
    let identity: Vec<usize> = (0..keys.len()).collect();
    permutation.apply_slice(identity)
}

/// The indices of the tours whose edges reinforce the pheromone trail, in
/// the order they are applied: the tours ranked by distance key (shortest
/// first, ties by index), cut after the first `no_best_path` of them.
pub fn reinforced_paths(keys: &Vec<u64>, no_best_path: i64) -> (selected: Vec<usize>)
    ensures
        selected@.len() == reinforced_count(keys@.len(), no_best_path as int),
        selected@.len() == if 0 <= no_best_path < keys@.len() {
            no_best_path as int
        } else {
            keys@.len() as int
        },
        forall|k: int| 0 <= k < selected@.len() ==> #[trigger] selected@[k] < keys@.len(),
        forall|i: int, j: int|
            0 <= i < j < selected@.len() ==> ranks_before(
                keys@,
                #[trigger] selected@[i],
                #[trigger] selected@[j],
            ),
        forall|t: usize, k: int|
            t < keys@.len() && !selected@.contains(t) && 0 <= k < selected@.len() ==> #[trigger] ranks_before(
                keys@,
                selected@[k],
                t,
            ),
{
    let order = stable_sort_order(keys.as_slice());
    let ghost m = reinforced_count(keys@.len(), no_best_path as int);
    let mut selected: Vec<usize> = Vec::new();
    let mut count: usize = 0;
    while count < order.len()
        invariant_except_break
            is_stable_sort_order(keys@, order@),
            m == reinforced_count(keys@.len(), no_best_path as int),
            count <= order@.len(),
            count <= m,
            selected@ == order@.take(count as int),
        ensures
            selected@ == order@.take(m as int),
        decreases order@.len() - count,
    {
        if no_best_path >= 0 && (count as u64) == (no_best_path as u64) {
            break;
        }
        selected.push(order[count]);
        count = count + 1;
        proof {
            assert(selected@ =~= order@.take(count as int));
        }
    }
    proof {
        let s = selected@;
        let o = order@;
        assert forall|k: int| 0 <= k < s.len() implies #[trigger] s[k] < keys@.len() by {
            assert(s[k] == o[k]);
        }
        assert forall|i: int, j: int| 0 <= i < j < s.len() implies ranks_before(
            keys@,
            #[trigger] s[i],
            #[trigger] s[j],
        ) by {
            assert(s[i] == o[i] && s[j] == o[j]);
        }
        assert forall|t: usize, k: int|
            t < keys@.len() && !s.contains(t) && 0 <= k < s.len() implies #[trigger] ranks_before(
            keys@,
            s[k],
            t,
        ) by {
            assert(o.contains(t as int as usize));
            let p = choose|p: int| 0 <= p < o.len() && o[p] == t;
            if p < m {
                assert(s[p] == t);
            }
            assert(s[k] == o[k]);
            assert(ranks_before(keys@, o[k], o[p]));
        }
    }
    selected
}

/// Law: the number of tours that reinforce the trail is `no_best_path`
/// when that is a count below the number of tours, and all of them
/// otherwise.
pub proof fn reinforced_count_is_capped_selection(len: nat, no_best_path: int)
    ensures
        0 <= no_best_path < len ==> reinforced_count(len, no_best_path) == no_best_path,
        !(0 <= no_best_path < len) ==> reinforced_count(len, no_best_path) == len,
        reinforced_count(len, no_best_path) <= len,
{
}

/// Law: tour `a` ranks before tour `b` exactly when its key is smaller, or
/// the keys are equal and `a` is the smaller index.
pub proof fn ranks_before_is_key_then_index(keys: Seq<u64>, a: usize, b: usize)
    ensures
        ranks_before(keys, a, b) <==> (keys[a as int] < keys[b as int] || (keys[a as int]
            == keys[b as int] && a < b)),
        !(ranks_before(keys, a, b) && ranks_before(keys, b, a)),
        a != b ==> (ranks_before(keys, a, b) || ranks_before(keys, b, a)),
{
}

/// Law: a stable sort order of `keys` has one entry per key, each an index
/// of `keys`, every index appears, and earlier entries have smaller keys or
/// equal keys and smaller indices.
pub proof fn stable_sort_order_is_sorted_permutation(keys: Seq<u64>, order: Seq<usize>)
    ensures
        is_stable_sort_order(keys, order) <==> {
            &&& order.len() == keys.len()
            &&& forall|k: int| 0 <= k < order.len() ==> #[trigger] order[k] < keys.len()
            &&& forall|i: usize| i < keys.len() ==> #[trigger] order.contains(i)
            &&& forall|i: int, j: int|
                0 <= i < j < order.len() ==> (keys[order[i] as int] < keys[order[j] as int] || (
                keys[#[trigger] order[i] as int] == keys[#[trigger] order[j] as int] && order[i]
                    < order[j]))
        },
{
    if order.len() == keys.len() && (forall|i: usize| i < keys.len() ==> #[trigger] order.contains(i)) {
        assert forall|i: int| 0 <= i < keys.len() implies #[trigger] order.contains(i as usize) by {
            assert(order.contains((i as usize)));
        }
    }
    if is_stable_sort_order(keys, order) {
        assert forall|i: usize| i < keys.len() implies #[trigger] order.contains(i) by {
            assert(order.contains(i as int as usize));
        }
    }
}

/// Law: the first minimum is a smallest key with no smallest key before it.
pub proof fn first_minimum_is_earliest_smallest(keys: Seq<u64>, i: int)
    ensures
        is_first_minimum(keys, i) <==> (0 <= i < keys.len() && (forall|j: int|
            0 <= j < keys.len() ==> keys[i] <= #[trigger] keys[j]) && (forall|j: int|
            0 <= j < i ==> keys[i] != #[trigger] keys[j])),
{
    if 0 <= i < keys.len() && (forall|j: int| 0 <= j < keys.len() ==> keys[i] <= #[trigger] keys[j])
        && (forall|j: int| 0 <= j < i ==> keys[i] != #[trigger] keys[j]) {
        assert forall|j: int| 0 <= j < i implies keys[i] < #[trigger] keys[j] by {
            assert(keys[i] <= keys[j]);
        }
    }
}

/// The index of the shortest tour of an iteration: the first index whose
/// key is smallest.
pub fn shortest_index(keys: &Vec<u64>) -> (i: usize)
    requires
        keys@.len() > 0,
    ensures
        is_first_minimum(keys@, i as int),
{
    let mut best: usize = 0;
    let mut j: usize = 1;
    while j < keys.len()
        invariant
            1 <= j <= keys@.len(),
            is_first_minimum(keys@.take(j as int), best as int),
        decreases keys@.len() - j,
    {
        if keys[j] < keys[best] {
            best = j;
        }
        proof {
            let s = keys@.take(j as int + 1);
            let p = keys@.take(j as int);
            assert forall|x: int| 0 <= x < s.len() implies s[best as int] <= #[trigger] s[x] by {
                if x < j {
                    assert(s[x] == p[x]);
                }
            }
            assert forall|x: int| 0 <= x < best implies s[best as int] < #[trigger] s[x] by {
                if x < j {
                    assert(s[x] == p[x]);
                }
            }
        }
        j = j + 1;
    }
    proof {
        assert(keys@.take(j as int) =~= keys@);
    }
    best
}

} // verus!
