use vstd::prelude::*;

verus! {

/// One directed edge of an ant's tour: from node `start` to node `end`.
#[derive(Clone, Copy, Debug, Default, PartialEq, Eq, Structural)]
pub struct UnitPath {
    pub start: i64,
    pub end: i64,
}

/// Why tour construction refused a step or a request to close the tour.
#[derive(Clone, Copy, Debug, PartialEq, Eq, Structural)]
pub enum TourError {
    /// The chosen node is not a node of the graph.
    OutOfRange,
    /// The chosen node has already been visited.
    AlreadyVisited,
    /// The tour was to be closed before every node had been visited.
    Incomplete,
}

/// Edge `k` of `path` ends where edge `k + 1` starts.
pub open spec fn links(path: Seq<UnitPath>, k: int) -> bool {
    path[k].end == path[k + 1].start
}

/// `path` is a chain of edges that leads from node `from` to node `to`
/// (the empty chain leads from a node to itself).
pub open spec fn is_chain(path: Seq<UnitPath>, from: i64, to: i64) -> bool {
    if path.len() == 0 {
        from == to
    } else {
        &&& path[0].start == from
        &&& path.last().end == to
        &&& forall|k: int| 0 <= k < path.len() - 1 ==> #[trigger] links(path, k)
    }
}

/// The nodes an ant has stood on, in order, after walking `path` from `start`.
pub open spec fn visited_nodes(start: i64, path: Seq<UnitPath>) -> Seq<i64> {
    seq![start] + path.map_values(|e: UnitPath| e.end)
}

/// The node that each edge of `path` leaves from, in order.
pub open spec fn tour_starts(path: Seq<UnitPath>) -> Seq<i64> {
    path.map_values(|e: UnitPath| e.start)
}

/// `s` lists every node `0..n` exactly once.
pub open spec fn is_node_permutation(s: Seq<i64>, n: nat) -> bool {
    &&& s.len() == n
    &&& s.no_duplicates()
    &&& forall|i: int| 0 <= i < s.len() ==> 0 <= #[trigger] s[i] < n
    &&& forall|v: i64| 0 <= v < n ==> #[trigger] s.contains(v)
}

/// `path` is a closed tour of the `n` nodes from `start`: `n` chained edges
/// that leave from every node exactly once and lead back to `start`.
pub open spec fn is_closed_tour(path: Seq<UnitPath>, n: nat, start: i64) -> bool {
    &&& path.len() == n
    &&& is_chain(path, start, start)
    &&& is_node_permutation(tour_starts(path), n)
}

/// The number of `false` entries of `s`.
pub open spec fn count_false(s: Seq<bool>) -> nat
    decreases s.len(),
{
    if s.len() == 0 {
        0
    } else {
        count_false(s.drop_last()) + if s.last() {
            0nat
        } else {
            1nat
        }
    }
}

proof fn lemma_count_false_push(s: Seq<bool>, b: bool)
    ensures
        count_false(s.push(b)) == count_false(s) + if b {
            0nat
        } else {
            1nat
        },
{
    assert(s.push(b).drop_last() =~= s);
}

proof fn lemma_count_false_set_true(s: Seq<bool>, i: int)
    requires
        0 <= i < s.len(),
        !s[i],
    ensures
        count_false(s.update(i, true)) + 1 == count_false(s),
    decreases s.len(),
{
    let t = s.update(i, true);
    if i == s.len() - 1 {
        assert(t.drop_last() =~= s.drop_last());
    } else {
        lemma_count_false_set_true(s.drop_last(), i);
        assert(t.drop_last() =~= s.drop_last().update(i, true));
    }
}

proof fn lemma_count_false_zero(s: Seq<bool>)
    requires
        count_false(s) == 0,
    ensures
        forall|i: int| 0 <= i < s.len() ==> s[i],
    decreases s.len(),
{
    if s.len() > 0 {
        lemma_count_false_zero(s.drop_last());
        assert forall|i: int| 0 <= i < s.len() implies s[i] by {
            if i < s.len() - 1 {
                assert(s[i] == s.drop_last()[i]);
            }
        }
    }
}

/// The state of one ant building a tour: the node it started from, the
/// node it stands on, the nodes it has visited and the edges it has walked.
pub struct TourBuilder {
    start: i64,
    current: i64,
    visited: Vec<bool>,
    path: Vec<UnitPath>,
}

impl TourBuilder {
    /// The number of nodes of the graph.
    pub closed spec fn n_nodes(&self) -> nat {
        self.visited@.len()
    }

    /// The node the tour started from.
    pub closed spec fn start_node(&self) -> i64 {
        self.start
    }

    /// The node the ant stands on.
    pub closed spec fn current_node(&self) -> i64 {
        self.current
    }

    /// The edges walked so far, in order.
    pub closed spec fn edges(&self) -> Seq<UnitPath> {
        self.path@
    }

    /// Entry `v` is `true` when node `v` has been visited.
    pub closed spec fn visited_flags(&self) -> Seq<bool> {
        self.visited@
    }

    /// The builder's invariant: the edges form a chain from the start to
    /// the current node through distinct nodes of the graph, the flags mark
    /// exactly those nodes, and every unvisited node is counted.
    pub closed spec fn wf(&self) -> bool {
        let n = self.visited@.len();
        let nodes = visited_nodes(self.start, self.path@);
        &&& 1 <= n <= i64::MAX
        &&& 0 <= self.start < n
        &&& self.path@.len() < n
        &&& is_chain(self.path@, self.start, self.current)
        &&& nodes.no_duplicates()
        &&& forall|i: int| 0 <= i < nodes.len() ==> 0 <= #[trigger] nodes[i] < n
        &&& forall|v: int| 0 <= v < n ==> (#[trigger] self.visited@[v] <==> nodes.contains(v as i64))
        &&& count_false(self.visited@) + self.path@.len() + 1 == n
    }

    /// An ant on a graph of `n` nodes, standing on `start`, which is the
    /// only visited node.
    pub fn new(n: usize, start: i64) -> (b: Self)
        requires
            0 <= start < n,
            n <= i64::MAX,
        ensures
            b.wf(),
            b.n_nodes() == n,
            b.visited_flags().len() == n,
            b.start_node() == start,
            b.current_node() == start,
            b.edges() == Seq::<UnitPath>::empty(),
            forall|v: int| 0 <= v < n ==> (#[trigger] b.visited_flags()[v] <==> v == start),
    {
        let mut visited: Vec<bool> = Vec::new();
        let mut i: usize = 0;
        while i < n
            invariant
                i <= n,
                visited@.len() == i,
                forall|j: int| 0 <= j < i ==> !visited@[j],
                count_false(visited@) == i,
            decreases n - i,
        {
            proof {
                lemma_count_false_push(visited@, false);
            }
            visited.push(false);
            i = i + 1;
        }
        let s = start as usize;
        proof {
            lemma_count_false_set_true(visited@, s as int);
        }
        visited[s] = true;
        let b = TourBuilder { start, current: start, visited, path: Vec::new() };
        proof {
            let nodes = visited_nodes(start, b.path@);
            assert(nodes =~= seq![start]);
            assert forall|v: int| 0 <= v < n implies (#[trigger] b.visited@[v] <==> nodes.contains(
                v as i64,
            )) by {
                if nodes.contains(v as i64) {
                    assert(nodes[0] == v as i64);
                }
                if v == start {
                    assert(nodes[0] == v as i64);
                }
            }
        }
        b
    }

    /// The number of nodes of the graph.
    pub fn node_count(&self) -> (n: usize)
        requires
            self.wf(),
        ensures
            n == self.n_nodes(),
    {
        self.visited.len()
    }

    /// The node the ant stands on.
    pub fn current(&self) -> (c: i64)
        ensures
            c == self.current_node(),
    {
        self.current
    }

    /// The number of edges walked so far.
    pub fn steps_taken(&self) -> (k: usize)
        ensures
            k == self.edges().len(),
    {
        self.path.len()
    }

    /// Whether every node has been visited, so that the tour can be closed.
    pub fn is_complete(&self) -> (c: bool)
        requires
            self.wf(),
        ensures
            c == (self.edges().len() + 1 == self.n_nodes()),
    {
        self.path.len() == self.visited.len() - 1
    }

    /// Whether node `v` has been visited.
    pub fn is_visited(&self, v: usize) -> (r: bool)
        requires
            self.wf(),
            v < self.n_nodes(),
        ensures
            r == self.visited_flags()[v as int],
    {
        self.visited[v]
    }

    /// The visited flags of all nodes, indexed by node.
    pub fn visited(&self) -> (flags: &Vec<bool>)
        ensures
            flags@ == self.visited_flags(),
    {
        &self.visited
    }

    /// Moves the ant to node `next`: refused when `next` is not a node of
    /// the graph or has been visited; otherwise the edge from the current
    /// node to `next` is walked and `next` is marked visited.
    pub fn step(&mut self, next: i64) -> (r: Result<(), TourError>)
        requires
            old(self).wf(),
        ensures
            final(self).wf(),
            final(self).n_nodes() == old(self).n_nodes(),
            final(self).visited_flags().len() == final(self).n_nodes(),
            final(self).start_node() == old(self).start_node(),
            (next < 0 || next >= old(self).n_nodes()) ==> r == Err::<(), TourError>(
                TourError::OutOfRange,
            ) && *final(self) == *old(self),
            (0 <= next < old(self).n_nodes() && old(self).visited_flags()[next as int]) ==> r
                == Err::<(), TourError>(TourError::AlreadyVisited) && *final(self) == *old(self),
            (0 <= next < old(self).n_nodes() && !old(self).visited_flags()[next as int]) ==> {
                &&& r == Ok::<(), TourError>(())
                &&& final(self).edges() == old(self).edges().push(
                    UnitPath { start: old(self).current_node(), end: next },
                )
                &&& final(self).current_node() == next
                &&& final(self).visited_flags() == old(self).visited_flags().update(
                    next as int,
                    true,
                )
            },
    {
        if next < 0 || (next as u64) >= (self.visited.len() as u64) {
            return Err(TourError::OutOfRange);
        }
        let v = next as usize;
        if self.visited[v] {
            return Err(TourError::AlreadyVisited);
        }
        let ghost old_nodes = visited_nodes(self.start, self.path@);
        let ghost old_path = self.path@;
        let ghost old_visited = self.visited@;
        let ghost n = self.visited@.len();
        let edge = UnitPath { start: self.current, end: next };
        proof {
            lemma_count_false_set_true(old_visited, v as int);
            assert(!old_nodes.contains(next));
        }
        self.path.push(edge);
        self.visited[v] = true;
        self.current = next;
        proof {
            let nodes = visited_nodes(self.start, self.path@);
            assert(nodes =~= old_nodes.push(next));
            let p = self.path@;
            if old_path.len() > 0 {
                assert forall|k: int| 0 <= k < p.len() - 1 implies #[trigger] links(p, k) by {
                    if k < old_path.len() - 1 {
                        assert(links(old_path, k));
                    }
                }
            }
            assert forall|i: int, j: int|
                0 <= i < nodes.len() && 0 <= j < nodes.len() && i != j implies nodes[i]
                != nodes[j] by {
                if i < old_nodes.len() && j < old_nodes.len() {
                } else if i < old_nodes.len() {
                    assert(old_nodes.contains(nodes[i]));
                } else {
                    assert(old_nodes.contains(nodes[j]));
                }
            }
            assert forall|w: int| 0 <= w < n implies (#[trigger] self.visited@[w]
                <==> nodes.contains(w as i64)) by {
                if w == v {
                    assert(nodes[nodes.len() - 1] == w as i64);
                } else {
                    assert(old_visited[w] == self.visited@[w]);
                    if old_nodes.contains(w as i64) {
                        let t = choose|t: int| 0 <= t < old_nodes.len() && old_nodes[t] == w as i64;
                        assert(nodes[t] == w as i64);
                    }
                    if nodes.contains(w as i64) {
                        let t = choose|t: int| 0 <= t < nodes.len() && nodes[t] == w as i64;
                        assert(old_nodes[t] == w as i64);
                    }
                }
            }
            assert forall|i: int| 0 <= i < nodes.len() implies 0 <= #[trigger] nodes[i] < n by {
                if i < old_nodes.len() {
                    assert(nodes[i] == old_nodes[i]);
                }
            }
        }
        Ok(())
    }

    /// Closes the tour with the edge from the current node back to the
    /// start: refused while some node is unvisited; otherwise the result is
    /// a closed tour through every node.
    pub fn finish(self) -> (r: Result<Vec<UnitPath>, TourError>)
        requires
            self.wf(),
        ensures
            self.edges().len() + 1 < self.n_nodes() ==> r == Err::<Vec<UnitPath>, TourError>(
                TourError::Incomplete,
            ),
            self.edges().len() + 1 == self.n_nodes() ==> (r matches Ok(p) && p@ == self.edges().push(
                UnitPath { start: self.current_node(), end: self.start_node() },
            ) && is_closed_tour(p@, self.n_nodes(), self.start_node())),
    {
        if self.path.len() + 1 < self.visited.len() {
            return Err(TourError::Incomplete);
        }
        let ghost nodes = visited_nodes(self.start, self.path@);
        let ghost n = self.visited@.len();
        let ghost old_path = self.path@;
        proof {
            lemma_count_false_zero(self.visited@);
        }
        let mut path = self.path;
        path.push(UnitPath { start: self.current, end: self.start });
        proof {
            let p = path@;
            if old_path.len() > 0 {
                assert forall|k: int| 0 <= k < p.len() - 1 implies #[trigger] links(p, k) by {
                    if k < old_path.len() - 1 {
                        assert(links(old_path, k));
                    }
                }
            }
            assert(is_chain(p, self.start, self.start));
            let starts = tour_starts(p);
            assert forall|i: int| 0 <= i < n implies #[trigger] starts[i] == nodes[i] by {
                if i > 0 {
                    assert(links(p, i - 1));
                }
            }
            assert(starts =~= nodes);
            assert forall|v: i64| 0 <= v < n implies #[trigger] starts.contains(v) by {
                assert(self.visited@[v as int]);
            }
        }
        Ok(path)
    }
}

/// The visited flags of `n` nodes when the nodes `nodes` have been visited.
pub open spec fn flags_of(n: nat, nodes: Seq<i64>) -> Seq<bool> {
    Seq::new(n, |v: int| nodes.contains(v as i64))
}

/// Edge `k` of `path` is the move that `pick_next_move` chose, given the
/// node the edge leaves and the flags of the nodes visited before it.
pub open spec fn follows_pick<F: Fn(i64, &Vec<bool>) -> i64>(
    pick_next_move: F,
    n: nat,
    start: i64,
    path: Seq<UnitPath>,
    k: int,
) -> bool {
    exists|visited: &Vec<bool>|
        #[trigger] call_ensures(pick_next_move, (path[k].start, visited), path[k].end) && visited@
            == flags_of(n, visited_nodes(start, path.take(k)))
}

/// The node an ant stands on after walking `walked` from `start`.
pub open spec fn walk_end(start: i64, walked: Seq<UnitPath>) -> i64 {
    if walked.len() == 0 {
        start
    } else {
        walked.last().end
    }
}

/// After walking `walked` from `start`, `pick_next_move`, given the current
/// node and the visited flags, named a node that ends the walk with `e`: a
/// node out of range, or one already visited.
pub open spec fn rejected_pick<F: Fn(i64, &Vec<bool>) -> i64>(
    pick_next_move: F,
    n: nat,
    start: i64,
    walked: Seq<UnitPath>,
    e: TourError,
) -> bool {
    exists|visited: &Vec<bool>, next: i64|
        #[trigger] call_ensures(pick_next_move, (walk_end(start, walked), visited), next) && visited@
            == flags_of(n, visited_nodes(start, walked)) && if 0 <= next < n {
            visited@[next as int] && e == TourError::AlreadyVisited
        } else {
            e == TourError::OutOfRange
        }
}

/// Law: while a tour is built, the edges form a chain from the start to
/// the current node through distinct nodes of the graph, and the visited
/// flags mark exactly those nodes: no node is ever entered twice.
pub proof fn building_never_revisits(b: &TourBuilder)
    requires
        b.wf(),
    ensures
        is_chain(b.edges(), b.start_node(), b.current_node()),
        visited_nodes(b.start_node(), b.edges()).no_duplicates(),
        b.edges().len() < b.n_nodes(),
        b.visited_flags().len() == b.n_nodes(),
        forall|i: int|
            0 <= i < visited_nodes(b.start_node(), b.edges()).len() ==> 0 <= #[trigger] visited_nodes(
                b.start_node(),
                b.edges(),
            )[i] < b.n_nodes(),
        forall|v: int|
            0 <= v < b.n_nodes() ==> (#[trigger] b.visited_flags()[v] <==> visited_nodes(
                b.start_node(),
                b.edges(),
            ).contains(v as i64)),
{
}

/// Law: the flags of `n` nodes, after the nodes `nodes` have been visited,
/// are `n` flags, and flag `v` is set exactly when `v` is one of `nodes`.
pub proof fn flags_mark_exactly_the_visited(n: nat, nodes: Seq<i64>)
    requires
        n <= i64::MAX,
    ensures
        flags_of(n, nodes).len() == n,
        forall|v: int|
            0 <= v < n ==> (#[trigger] flags_of(n, nodes)[v] <==> exists|i: int|
                0 <= i < nodes.len() && nodes[i] == v),
{
    assert forall|v: int| 0 <= v < n implies (#[trigger] flags_of(n, nodes)[v] <==> exists|i: int|
        0 <= i < nodes.len() && nodes[i] == v) by {
        if exists|i: int| 0 <= i < nodes.len() && nodes[i] == v {
            let i = choose|i: int| 0 <= i < nodes.len() && nodes[i] == v;
            assert(nodes[i] == v as i64);
        }
    }
}

/// Law: the nodes visited after walking `path` from `start` are `start`
/// followed by the node each edge enters, in order; each edge leaves from
/// the node that precedes it there exactly when the edges are chained.
pub proof fn visited_nodes_are_start_then_edge_ends(start: i64, path: Seq<UnitPath>)
    ensures
        visited_nodes(start, path).len() == path.len() + 1,
        visited_nodes(start, path)[0] == start,
        forall|k: int| 0 <= k < path.len() ==> visited_nodes(start, path)[k + 1] == #[trigger] path[k].end,
        tour_starts(path).len() == path.len(),
        forall|k: int| 0 <= k < path.len() ==> tour_starts(path)[k] == #[trigger] path[k].start,
{
}

/// Law: a chain from `from` to `to` is empty with `from == to`, or starts
/// at `from`, ends at `to`, and each edge leaves where the one before it
/// ends.
pub proof fn chain_is_linked_edges(path: Seq<UnitPath>, from: i64, to: i64)
    ensures
        is_chain(path, from, to) <==> (if path.len() == 0 {
            from == to
        } else {
            &&& path[0].start == from
            &&& path[path.len() - 1].end == to
            &&& forall|i: int, j: int|
                0 <= i && j == i + 1 && j < path.len() ==> #[trigger] path[i].end
                    == #[trigger] path[j].start
        }),
{
    if path.len() > 0 {
        if is_chain(path, from, to) {
            assert forall|i: int, j: int|
                0 <= i && j == i + 1 && j < path.len() implies #[trigger] path[i].end
                == #[trigger] path[j].start by {
                assert(links(path, i));
            }
        }
        if forall|i: int, j: int|
            0 <= i && j == i + 1 && j < path.len() ==> #[trigger] path[i].end
                == #[trigger] path[j].start {
            assert forall|k: int| 0 <= k < path.len() - 1 implies #[trigger] links(path, k) by {
                assert(path[k].end == path[k + 1].start);
            }
        }
    }
}

/// Law: a closed tour of `n >= 1` nodes from `start` has `n` edges, the
/// first leaving `start` and the last entering it, each leaving where the
/// one before ends; the edges leave from distinct nodes of the graph, and
/// from every node.
pub proof fn closed_tour_visits_every_node_once(path: Seq<UnitPath>, n: nat, start: i64)
    requires
        is_closed_tour(path, n, start),
        n >= 1,
    ensures
        path.len() == n,
        path[0].start == start,
        path[n - 1].end == start,
        forall|i: int, j: int|
            0 <= i && j == i + 1 && j < n ==> #[trigger] path[i].end == #[trigger] path[j].start,
        forall|i: int, j: int|
            0 <= i < n && 0 <= j < n && i != j ==> #[trigger] path[i].start != #[trigger] path[j].start,
        forall|i: int| 0 <= i < n ==> 0 <= #[trigger] path[i].start < n,
        forall|v: i64| 0 <= v < n ==> #[trigger] tour_starts(path).contains(v),
{
    chain_is_linked_edges(path, start, start);
    let s = tour_starts(path);
    assert forall|i: int, j: int|
        0 <= i < n && 0 <= j < n && i != j implies #[trigger] path[i].start != #[trigger] path[j].start by {
        assert(s[i] == path[i].start && s[j] == path[j].start);
    }
    assert forall|i: int| 0 <= i < n implies 0 <= #[trigger] path[i].start < n by {
        assert(s[i] == path[i].start);
    }

}

/// Law: when edge `k` of `path` follows the pick, the pick was handed the
/// node edge `k` leaves and `n` flags marking exactly `start` and the nodes
/// the first `k` edges enter, and it named the node edge `k` enters.
pub proof fn follows_pick_is_the_named_move<F: Fn(i64, &Vec<bool>) -> i64>(
    pick_next_move: F,
    n: nat,
    start: i64,
    path: Seq<UnitPath>,
    k: int,
)
    requires
        n <= i64::MAX,
        0 <= k < path.len(),
        follows_pick(pick_next_move, n, start, path, k),
    ensures
        exists|visited: &Vec<bool>|
            #[trigger] call_ensures(pick_next_move, (path[k].start, visited), path[k].end)
                && visited@.len() == n && forall|v: int|
                0 <= v < n ==> (visited@[v] <==> (v == start || exists|j: int|
                    0 <= j < k && #[trigger] path[j].end == v)),
{
    let visited = choose|visited: &Vec<bool>|
        #[trigger] call_ensures(pick_next_move, (path[k].start, visited), path[k].end) && visited@
            == flags_of(n, visited_nodes(start, path.take(k)));
    let nodes = visited_nodes(start, path.take(k));
    flags_mark_exactly_the_visited(n, nodes);
    visited_nodes_are_start_then_edge_ends(start, path.take(k));
    assert forall|v: int| 0 <= v < n implies (visited@[v] <==> (v == start || exists|j: int|
        0 <= j < k && #[trigger] path[j].end == v)) by {
        if visited@[v] {
            let i = choose|i: int| 0 <= i < nodes.len() && nodes[i] == v;
            if i > 0 {
                assert(path.take(k)[i - 1] == path[i - 1]);
                assert(path[i - 1].end == v);
            }
        }
        if exists|j: int| 0 <= j < k && #[trigger] path[j].end == v {
            let j = choose|j: int| 0 <= j < k && #[trigger] path[j].end == v;
            assert(path.take(k)[j] == path[j]);
            assert(nodes[j + 1] == v);
        }
        if v == start {
            assert(nodes[0] == v);
        }
    }
}

/// Law: a rejected pick was handed the node the walk ends on (the start
/// when nothing was walked, else the node the last edge enters) and `n`
/// flags marking exactly the visited nodes, and named a node out of range
/// (`OutOfRange`) or one of those flagged (`AlreadyVisited`).
pub proof fn rejected_pick_is_an_invalid_move<F: Fn(i64, &Vec<bool>) -> i64>(
    pick_next_move: F,
    n: nat,
    start: i64,
    walked: Seq<UnitPath>,
    e: TourError,
)
    requires
        n <= i64::MAX,
        rejected_pick(pick_next_move, n, start, walked, e),
    ensures
        walk_end(start, walked) == if walked.len() == 0 {
            start
        } else {
            walked[walked.len() - 1].end
        },
        exists|visited: &Vec<bool>, next: i64|
            #[trigger] call_ensures(pick_next_move, (walk_end(start, walked), visited), next)
                && visited@.len() == n && (forall|v: int|
                0 <= v < n ==> (visited@[v] <==> (v == start || exists|j: int|
                    0 <= j < walked.len() && #[trigger] walked[j].end == v))) && if 0 <= next < n {
                visited@[next as int] && e == TourError::AlreadyVisited
            } else {
                e == TourError::OutOfRange
            },
{
    let (visited, next) = choose|visited: &Vec<bool>, next: i64|
        #[trigger] call_ensures(pick_next_move, (walk_end(start, walked), visited), next) && visited@
            == flags_of(n, visited_nodes(start, walked)) && if 0 <= next < n {
            visited@[next as int] && e == TourError::AlreadyVisited
        } else {
            e == TourError::OutOfRange
        };
    let nodes = visited_nodes(start, walked);
    flags_mark_exactly_the_visited(n, nodes);
    visited_nodes_are_start_then_edge_ends(start, walked);
    assert forall|v: int| 0 <= v < n implies (visited@[v] <==> (v == start || exists|j: int|
        0 <= j < walked.len() && #[trigger] walked[j].end == v)) by {
        if visited@[v] {
            let i = choose|i: int| 0 <= i < nodes.len() && nodes[i] == v;
            if i > 0 {
                assert(walked[i - 1].end == v);
            }
        }
        if exists|j: int| 0 <= j < walked.len() && #[trigger] walked[j].end == v {
            let j = choose|j: int| 0 <= j < walked.len() && #[trigger] walked[j].end == v;
            assert(nodes[j + 1] == v);
        }
        if v == start {
            assert(nodes[0] == v);
        }
    }
}

/// One ant's tour over `n` nodes from `start`: at each of the `n - 1`
/// steps `pick_next_move` is given the current node and the visited flags
/// and names the next node; the tour is then closed back to `start`.
/// A pick that is out of range or already visited ends the walk with that
/// error; a pick that never does so yields a closed tour.
pub fn gen_path<F: Fn(i64, &Vec<bool>) -> i64>(n: usize, start: i64, pick_next_move: F) -> (r: Result<
    Vec<UnitPath>,
    TourError,
>)
    requires
        0 <= start < n,
        n <= i64::MAX,
        forall|prev: i64, visited: &Vec<bool>| call_requires(pick_next_move, (prev, visited)),
    ensures
        r matches Ok(path) ==> is_closed_tour(path@, n as nat, start),
        r matches Ok(path) ==> forall|k: int|
            0 <= k < n - 1 ==> #[trigger] follows_pick(pick_next_move, n as nat, start, path@, k),
        r matches Err(e) ==> exists|walked: Seq<UnitPath>|
            walked.len() < n - 1 && (forall|k: int|
                0 <= k < walked.len() ==> #[trigger] follows_pick(
                    pick_next_move,
                    n as nat,
                    start,
                    walked,
                    k,
                )) && #[trigger] rejected_pick(pick_next_move, n as nat, start, walked, e),
        (forall|prev: i64, visited: &Vec<bool>, next: i64|
            call_ensures(pick_next_move, (prev, visited), next) ==> 0 <= next < visited@.len()
                && !visited@[next as int]) ==> r is Ok,
{
    let mut builder = TourBuilder::new(n, start);
    let mut i: usize = 0;
    while i + 1 < n
        invariant
            builder.wf(),
            builder.n_nodes() == n,
            builder.start_node() == start,
            builder.edges().len() == i,
            i < n,
            forall|prev: i64, visited: &Vec<bool>| call_requires(pick_next_move, (prev, visited)),
            forall|k: int|
                0 <= k < i ==> #[trigger] follows_pick(
                    pick_next_move,
                    n as nat,
                    start,
                    builder.edges(),
                    k,
                ),
        decreases n - i,
    {
        let ghost old_edges = builder.edges();
        let prev = builder.current();
        let flags = builder.visited();
        let ghost snapshot: Vec<bool> = *flags;
        let next = pick_next_move(prev, flags);
        proof {
            building_never_revisits(&builder);
            assert(snapshot@ =~= flags_of(n as nat, visited_nodes(start, old_edges)));
        }
        match builder.step(next) {
            Ok(()) => {},
            Err(e) => {
                proof {
                    assert(walk_end(start, old_edges) == prev);
                    assert(call_ensures(pick_next_move, (prev, &snapshot), next));
                    assert(rejected_pick(pick_next_move, n as nat, start, old_edges, e));
                }
                return Err(e);
            },
        }
        proof {
            let edges = builder.edges();
            assert(edges.take(i as int) =~= old_edges);
            assert(call_ensures(pick_next_move, (edges[i as int].start, &snapshot), edges[i as int].end));
            assert(follows_pick(pick_next_move, n as nat, start, edges, i as int));
            assert forall|k: int| 0 <= k < i + 1 implies #[trigger] follows_pick(
                pick_next_move,
                n as nat,
                start,
                edges,
                k,
            ) by {
                if k < i {
                    assert(follows_pick(pick_next_move, n as nat, start, old_edges, k));
                    assert(edges.take(k) =~= old_edges.take(k));
                    assert(edges[k] == old_edges[k]);
                }
            }
        }
        i = i + 1;
    }
    let ghost final_edges = builder.edges();
    let r = builder.finish();
    proof {
        if r is Ok {
            let path = r->Ok_0;
            assert forall|k: int| 0 <= k < n - 1 implies #[trigger] follows_pick(
                pick_next_move,
                n as nat,
                start,
                path@,
                k,
            ) by {
                assert(follows_pick(pick_next_move, n as nat, start, final_edges, k));
                assert(path@.take(k) =~= final_edges.take(k));
                assert(path@[k] == final_edges[k]);
            }
        }
    }
    r
}

/// Appends the node identifiers `0, 1, ..., count - 1` to `nodes` (nothing
/// when `count` is not positive).
pub fn push_node_ids(nodes: &mut Vec<i64>, count: i64)
    ensures
        final(nodes)@ == old(nodes)@ + Seq::new(
            if count > 0 {
                count as nat
            } else {
                0nat
            },
            |i: int| i as i64,
        ),
{
    let ghost initial = old(nodes)@;
    let mut i: i64 = 0;
    while i < count
        invariant
            0 <= i,
            count > 0 ==> i <= count,
            count <= 0 ==> i == 0,
            nodes@ == initial + Seq::new(i as nat, |j: int| j as i64),
        decreases count - i,
    {
        nodes.push(i);
        i = i + 1;
        proof {
            assert(nodes@ =~= initial + Seq::new(i as nat, |j: int| j as i64));
        }
    }
    proof {
        assert(nodes@ =~= initial + Seq::new(
            if count > 0 {
                count as nat
            } else {
                0nat
            },
            |i: int| i as i64,
        ));
    }
}

} // verus!
