//! Why the distances of a search are those of shortest paths.
//!
//! The search expands nodes in the order of their distance. At every moment
//! the expanded nodes are no farther than the waiting ones, the waiting ones
//! span at most two neighbouring distances, and every edge that leaves an
//! expanded node ends at a node that is at most one hop farther. When the
//! queue is empty, no walk from the source can be shorter than the distance
//! of its end, and the predecessors spell out a walk of exactly that length.

use vstd::prelude::*;
use crate::depth::count_unset;
use crate::graph::closed;
use crate::paths::{lemma_relax_balance, one_hop_closer, relax, search, search_from, start, Search};

verus! {

/// The distance of node `x`, 0 where it has none.
pub open spec fn hops_to(s: Search, x: usize) -> nat {
    match s.dist[x as int] {
        Some(d) => d,
        None => 0,
    }
}

/// Whether `w` is reached and at most one hop farther than `u`.
pub open spec fn edge_settled(s: Search, u: usize, w: usize) -> bool {
    w < s.dist.len() && s.dist[w as int] is Some && hops_to(s, w) <= hops_to(s, u) + 1
}

/// Whether every expanded node and every waiting node is a reached node of
/// the graph, and every reached node is expanded or waits. Only the source
/// has distance 0.
pub open spec fn accounted(s: Search, n: nat, source: usize) -> bool {
    &&& s.dist.len() == n
    &&& s.preds.len() == n
    &&& n <= usize::MAX
    &&& source < n
    &&& s.dist[source as int] == Some(0nat)
    &&& forall|i: int| 0 <= i < s.order.len() ==> (#[trigger] s.order[i]) < n && s.dist[s.order[i] as int] is Some
    &&& forall|j: int| 0 <= j < s.queue.len() ==> (#[trigger] s.queue[j]) < n && s.dist[s.queue[j] as int] is Some
    &&& forall|x: int|
        0 <= x < n && (#[trigger] s.dist[x]) is Some ==> s.order.contains(x as usize) || s.queue.contains(x as usize)
    &&& forall|x: int| 0 <= x < n && #[trigger] s.dist[x] == Some(0nat) ==> x == source
}

/// Whether every reached node but the source has a predecessor.
pub open spec fn reached_have_preds(s: Search, n: nat, source: usize) -> bool {
    forall|x: int| 0 <= x < n && (#[trigger] s.dist[x]) is Some && x != source ==> s.preds[x].len() > 0
}

/// Whether the waiting nodes are ordered by distance and lie between
/// distance `low` and `low + 1`, and no expanded node is farther than `low`.
pub open spec fn layered(s: Search, low: nat) -> bool {
    &&& forall|i: int| 0 <= i < s.order.len() ==> hops_to(s, #[trigger] s.order[i]) <= low
    &&& forall|j: int| 0 <= j < s.queue.len() ==> low <= hops_to(s, #[trigger] s.queue[j]) <= low + 1
    &&& forall|j: int, k: int|
        0 <= j < k < s.queue.len() ==> hops_to(s, #[trigger] s.queue[j]) <= hops_to(s, #[trigger] s.queue[k])
}

/// Whether every edge that leaves one of the first `upto` expanded nodes is
/// settled.
pub open spec fn expanded_settled(s: Search, adj: Seq<Seq<usize>>, upto: int) -> bool {
    forall|i: int, k: int|
        0 <= i < upto && i < s.order.len() && 0 <= k < adj[s.order[i] as int].len() ==> edge_settled(
            s,
            s.order[i],
            #[trigger] adj[s.order[i] as int][k],
        )
}

/// What holds while node `v` at distance `dv`, the last expanded node, has
/// looked at its first `k` neighbours.
pub open spec fn expanding(s: Search, adj: Seq<Seq<usize>>, n: nat, source: usize, v: usize, dv: nat, k: int) -> bool {
    &&& accounted(s, n, source)
    &&& reached_have_preds(s, n, source)
    &&& layered(s, dv)
    &&& s.order.len() > 0
    &&& s.order.last() == v
    &&& v < n
    &&& s.dist[v as int] == Some(dv)
    &&& expanded_settled(s, adj, s.order.len() - 1)
    &&& forall|j: int| 0 <= j < k && j < adj[v as int].len() ==> edge_settled(s, v, #[trigger] adj[v as int][j])
}

/// What holds between two expansions.
pub open spec fn resting(s: Search, adj: Seq<Seq<usize>>, n: nat, source: usize) -> bool {
    &&& accounted(s, n, source)
    &&& reached_have_preds(s, n, source)
    &&& expanded_settled(s, adj, s.order.len() as int)
    &&& exists|low: nat| #[trigger] layered(s, low) && (s.queue.len() > 0 ==> hops_to(s, s.queue[0]) == low)
}

/// Looking at the first `k` neighbours of `v` keeps what holds during an
/// expansion, and changes no distance that was set.
pub proof fn lemma_relax_expanding(
    adj: Seq<Seq<usize>>,
    popped: Search,
    n: nat,
    source: usize,
    v: usize,
    dv: nat,
    k: int,
)
    requires
        closed(adj),
        adj.len() == n,
        expanding(popped, adj, n, source, v, dv, 0),
        0 <= k <= adj[v as int].len(),
    ensures
        expanding(relax(popped, v, dv + 1, adj[v as int].take(k)), adj, n, source, v, dv, k),
        forall|x: int|
            0 <= x < n && popped.dist[x] is Some ==> #[trigger] relax(popped, v, dv + 1, adj[v as int].take(k)).dist[x]
                == popped.dist[x],
    decreases k,
{
    let row = adj[v as int];
    if k == 0 {
        assert(row.take(0) =~= Seq::<usize>::empty());
    } else {
        lemma_relax_expanding(adj, popped, n, source, v, dv, k - 1);
        let s = relax(popped, v, dv + 1, row.take(k - 1));
        assert(row.take(k).drop_last() =~= row.take(k - 1));
        assert(row.take(k).last() == row[k - 1]);
        let w = row[k - 1];
        assert(w < n);
        lemma_relax_balance(popped, v, dv + 1, row.take(k - 1));
        let r = relax(popped, v, dv + 1, row.take(k));
        let hops = dv + 1;
        let reached = if s.dist[w as int] is None {
            Search { dist: s.dist.update(w as int, Some(hops)), queue: s.queue.push(w), ..s }
        } else {
            s
        };
        assert(r.dist == reached.dist);
        assert(r.queue == reached.queue);
        assert(r.order == s.order);
        assert forall|x: usize| x < n && s.dist[x as int] is Some implies hops_to(r, x) == hops_to(s, x) by {}
        if s.dist[w as int] is None {
            assert(accounted(reached, n, source)) by {
                assert forall|j: int| 0 <= j < reached.queue.len() implies (#[trigger] reached.queue[j]) < n
                    && reached.dist[reached.queue[j] as int] is Some by {
                    if j < s.queue.len() {
                        assert(reached.queue[j] == s.queue[j]);
                    }
                }
                assert forall|x: int| 0 <= x < n && (#[trigger] reached.dist[x]) is Some implies reached.order.contains(
                    x as usize,
                ) || reached.queue.contains(x as usize) by {
                    if x == w {
                        assert(reached.queue[s.queue.len() as int] == w);
                    } else {
                        assert(s.dist[x] is Some);
                        if s.queue.contains(x as usize) {
                            let j = choose|j: int| 0 <= j < s.queue.len() && s.queue[j] == x as usize;
                            assert(reached.queue[j] == x as usize);
                        }
                    }
                }
            }
            assert(layered(reached, dv)) by {
                assert forall|j: int| 0 <= j < reached.queue.len() implies dv <= hops_to(
                    reached,
                    #[trigger] reached.queue[j],
                ) <= dv + 1 by {
                    if j < s.queue.len() {
                        assert(reached.queue[j] == s.queue[j]);
                        assert(s.dist[s.queue[j] as int] is Some);
                    }
                }
                assert forall|j: int, q: int| 0 <= j < q < reached.queue.len() implies hops_to(
                    reached,
                    #[trigger] reached.queue[j],
                ) <= hops_to(reached, #[trigger] reached.queue[q]) by {
                    assert(reached.queue[j] == s.queue[j]);
                    assert(s.dist[s.queue[j] as int] is Some);
                    if q < s.queue.len() {
                        assert(reached.queue[q] == s.queue[q]);
                        assert(s.dist[s.queue[q] as int] is Some);
                    }
                }
                assert forall|i: int| 0 <= i < reached.order.len() implies hops_to(reached, #[trigger] reached.order[i])
                    <= dv by {
                    assert(s.dist[s.order[i] as int] is Some);
                }
            }
        }
        assert(accounted(r, n, source)) by {
            assert(accounted(reached, n, source));
        }
        assert(reached_have_preds(r, n, source)) by {
            assert forall|x: int| 0 <= x < n && (#[trigger] r.dist[x]) is Some && x != source implies r.preds[x].len()
                > 0 by {
                if x == w {
                    if s.dist[w as int] is None {
                        assert(reached.dist[w as int] == Some(hops));
                    } else {
                        assert(s.preds[x].len() > 0);
                    }
                } else {
                    assert(r.preds[x] == reached.preds[x]);
                    assert(reached.preds[x] == s.preds[x]);
                }
            }
        }
        assert(layered(r, dv)) by {
            assert(layered(reached, dv));
        }
        assert(expanded_settled(r, adj, r.order.len() - 1)) by {
            assert forall|i: int, q: int|
                0 <= i < r.order.len() - 1 && i < r.order.len() && 0 <= q < adj[r.order[i] as int].len() implies edge_settled(
                r,
                r.order[i],
                #[trigger] adj[r.order[i] as int][q],
            ) by {
                assert(edge_settled(s, s.order[i], adj[s.order[i] as int][q]));
                assert(s.dist[s.order[i] as int] is Some);
            }
        }
        assert forall|j: int| 0 <= j < k && j < row.len() implies edge_settled(r, v, #[trigger] row[j]) by {
            if j < k - 1 {
                assert(edge_settled(s, v, row[j]));
            } else {
                if s.dist[w as int] is Some {
                    // `w` is expanded or waits, so it is no farther than one hop beyond `v`.
                    if s.order.contains(w) {
                        let i = choose|i: int| 0 <= i < s.order.len() && s.order[i] == w;
                        assert(hops_to(s, s.order[i]) <= dv);
                    } else {
                        assert(s.queue.contains(w));
                        let q = choose|q: int| 0 <= q < s.queue.len() && s.queue[q] == w;
                        assert(hops_to(s, s.queue[q]) <= dv + 1);
                    }
                }
            }
        }
    }
}

/// What holds between two expansions holds to the end of the search.
pub proof fn lemma_search_resting(adj: Seq<Seq<usize>>, s: Search, n: nat, source: usize)
    requires
        closed(adj),
        adj.len() == n,
        resting(s, adj, n, source),
    ensures
        resting(search_from(adj, s), adj, n, source),
        search_from(adj, s).queue.len() == 0,
    decreases count_unset(s.dist) + s.queue.len(),
{
    if s.queue.len() > 0 {
        let v = s.queue[0];
        let rest = s.queue.drop_first();
        let low = choose|low: nat| #[trigger] layered(s, low) && (s.queue.len() > 0 ==> hops_to(s, s.queue[0]) == low);
        assert(v < n && s.dist[v as int] is Some);
        let dv = s.dist[v as int]->0;
        assert(dv == low);
        let popped = Search { queue: rest, order: s.order.push(v), ..s };
        assert(forall|j: int| 0 <= j < rest.len() ==> #[trigger] rest[j] == s.queue[j + 1]);
        assert(expanding(popped, adj, n, source, v, dv, 0)) by {
            assert(accounted(popped, n, source)) by {
                assert forall|i: int| 0 <= i < popped.order.len() implies (#[trigger] popped.order[i]) < n
                    && popped.dist[popped.order[i] as int] is Some by {
                    if i < s.order.len() {
                        assert(popped.order[i] == s.order[i]);
                    }
                }
                assert forall|x: int| 0 <= x < n && (#[trigger] popped.dist[x]) is Some implies popped.order.contains(
                    x as usize,
                ) || popped.queue.contains(x as usize) by {
                    if s.order.contains(x as usize) {
                        let i = choose|i: int| 0 <= i < s.order.len() && s.order[i] == x as usize;
                        assert(popped.order[i] == x as usize);
                    } else {
                        let j = choose|j: int| 0 <= j < s.queue.len() && s.queue[j] == x as usize;
                        if j == 0 {
                            assert(popped.order[s.order.len() as int] == x as usize);
                        } else {
                            assert(rest[j - 1] == x as usize);
                        }
                    }
                }
            }
            assert(layered(popped, dv)) by {
                assert forall|i: int| 0 <= i < popped.order.len() implies hops_to(popped, #[trigger] popped.order[i])
                    <= dv by {
                    if i < s.order.len() {
                        assert(popped.order[i] == s.order[i]);
                        assert(hops_to(s, s.order[i]) <= low);
                    }
                }
                assert forall|j: int| 0 <= j < popped.queue.len() implies dv <= hops_to(
                    popped,
                    #[trigger] popped.queue[j],
                ) <= dv + 1 by {
                    assert(popped.queue[j] == s.queue[j + 1]);
                    assert(low <= hops_to(s, s.queue[j + 1]) <= low + 1);
                }
                assert forall|j: int, q: int| 0 <= j < q < popped.queue.len() implies hops_to(
                    popped,
                    #[trigger] popped.queue[j],
                ) <= hops_to(popped, #[trigger] popped.queue[q]) by {
                    assert(popped.queue[j] == s.queue[j + 1]);
                    assert(popped.queue[q] == s.queue[q + 1]);
                    assert(hops_to(s, s.queue[j + 1]) <= hops_to(s, s.queue[q + 1]));
                }
            }
            assert(expanded_settled(popped, adj, popped.order.len() - 1)) by {
                assert forall|i: int, q: int|
                    0 <= i < popped.order.len() - 1 && i < popped.order.len() && 0 <= q < adj[popped.order[i] as int].len() implies edge_settled(
                    popped,
                    popped.order[i],
                    #[trigger] adj[popped.order[i] as int][q],
                ) by {
                    assert(popped.order[i] == s.order[i]);
                    assert(edge_settled(s, s.order[i], adj[s.order[i] as int][q]));
                }
            }
        }
        let row = adj[v as int];
        lemma_relax_expanding(adj, popped, n, source, v, dv, row.len() as int);
        assert(row.take(row.len() as int) =~= row);
        let r = relax(popped, v, dv + 1, row);
        lemma_relax_balance(popped, v, dv + 1, row);
        assert(resting(r, adj, n, source)) by {
            assert(expanded_settled(r, adj, r.order.len() as int)) by {
                assert forall|i: int, q: int|
                    0 <= i < r.order.len() && i < r.order.len() && 0 <= q < adj[r.order[i] as int].len() implies edge_settled(
                    r,
                    r.order[i],
                    #[trigger] adj[r.order[i] as int][q],
                ) by {
                    if i == r.order.len() - 1 {
                        assert(r.order[i] == v);
                        assert(edge_settled(r, v, row[q]));
                    }
                }
            }
            if r.queue.len() > 0 {
                let next = hops_to(r, r.queue[0]);
                assert(dv <= next <= dv + 1);
                assert(layered(r, next)) by {
                    assert forall|j: int| 0 <= j < r.queue.len() implies next <= hops_to(r, #[trigger] r.queue[j])
                        <= next + 1 by {
                        if j > 0 {
                            assert(hops_to(r, r.queue[0]) <= hops_to(r, r.queue[j]));
                        }
                        assert(dv <= hops_to(r, r.queue[j]) <= dv + 1);
                    }
                    assert forall|i: int| 0 <= i < r.order.len() implies hops_to(r, #[trigger] r.order[i]) <= next by {
                        assert(hops_to(r, r.order[i]) <= dv);
                    }
                }
            } else {
                assert(layered(r, dv));
            }
        }
        lemma_search_resting(adj, r, n, source);
    }
}

/// The state in which a search starts is at rest.
pub proof fn lemma_start_resting(adj: Seq<Seq<usize>>, source: usize)
    requires
        source < adj.len(),
        adj.len() <= usize::MAX,
    ensures
        resting(start(adj.len(), source), adj, adj.len(), source),
{
    let begin = start(adj.len(), source);
    assert(begin.queue[0] == source);
    assert(layered(begin, 0));
    assert(accounted(begin, adj.len(), source)) by {
        assert forall|x: int| 0 <= x < adj.len() && (#[trigger] begin.dist[x]) is Some implies begin.order.contains(
            x as usize,
        ) || begin.queue.contains(x as usize) by {
            assert(begin.queue[0] == x as usize);
        }
    }
}

/// Whether `walk` is a walk in the graph: a list of nodes each of which has
/// an edge to the next.
pub open spec fn is_walk(adj: Seq<Seq<usize>>, walk: Seq<usize>) -> bool {
    &&& walk.len() > 0
    &&& forall|i: int| 0 <= i < walk.len() ==> (#[trigger] walk[i]) < adj.len()
    &&& forall|i: int| 0 <= i < walk.len() - 1 ==> adj[walk[i] as int].contains(#[trigger] walk[i + 1])
}

/// In a finished search, every edge that leaves a reached node ends at a
/// reached node that is at most one hop farther.
pub proof fn lemma_edges_settled(adj: Seq<Seq<usize>>, source: usize, u: usize, w: usize)
    requires
        closed(adj),
        adj.len() <= usize::MAX,
        source < adj.len(),
        u < adj.len(),
        search(adj, source).dist[u as int] is Some,
        adj[u as int].contains(w),
    ensures
        edge_settled(search(adj, source), u, w),
{
    lemma_start_resting(adj, source);
    lemma_search_resting(adj, start(adj.len(), source), adj.len(), source);
    let done = search(adj, source);
    assert(done.order.contains(u)) by {
        assert(!done.queue.contains(u));
    }
    let i = choose|i: int| 0 <= i < done.order.len() && done.order[i] == u;
    let k = choose|k: int| 0 <= k < adj[u as int].len() && adj[u as int][k] == w;
    assert(edge_settled(done, done.order[i], adj[done.order[i] as int][k]));
}

/// No walk is shorter than the distance: the end of a walk of `k` edges
/// from the source is reached, at a distance of at most `k`.
pub proof fn lemma_no_walk_is_shorter(adj: Seq<Seq<usize>>, source: usize, walk: Seq<usize>)
    requires
        closed(adj),
        adj.len() <= usize::MAX,
        source < adj.len(),
        is_walk(adj, walk),
        walk[0] == source,
    ensures
        search(adj, source).dist[walk.last() as int] is Some,
        hops_to(search(adj, source), walk.last()) <= walk.len() - 1,
    decreases walk.len(),
{
    let done = search(adj, source);
    if walk.len() == 1 {
        lemma_start_resting(adj, source);
        lemma_search_resting(adj, start(adj.len(), source), adj.len(), source);
    } else {
        let front = walk.drop_last();
        assert(is_walk(adj, front)) by {
            assert forall|i: int| 0 <= i < front.len() - 1 implies adj[front[i] as int].contains(#[trigger] front[i + 1]) by {
                assert(front[i] == walk[i]);
                assert(front[i + 1] == walk[i + 1]);
            }
        }
        lemma_no_walk_is_shorter(adj, source, front);
        let u = front.last();
        assert(u == walk[walk.len() - 2]);
        assert(adj[walk[walk.len() - 2] as int].contains(walk[walk.len() - 2 + 1]));
        lemma_edges_settled(adj, source, u, walk.last());
    }
}

/// The distance is attained: a node at distance `d` ends a walk of `d`
/// edges from the source.
pub proof fn lemma_a_walk_attains_the_distance(adj: Seq<Seq<usize>>, source: usize, w: usize, d: nat) -> (walk: Seq<
    usize,
>)
    requires
        closed(adj),
        adj.len() <= usize::MAX,
        source < adj.len(),
        w < adj.len(),
        search(adj, source).dist[w as int] == Some(d),
    ensures
        is_walk(adj, walk),
        walk[0] == source,
        walk.last() == w,
        walk.len() == d + 1,
    decreases d,
{
    let done = search(adj, source);
    lemma_start_resting(adj, source);
    lemma_search_resting(adj, start(adj.len(), source), adj.len(), source);
    crate::paths::lemma_predecessors_one_hop_closer(adj, source);
    crate::paths::lemma_predecessors_are_neighbours(adj, source);
    if d == 0 {
        seq![w]
    } else {
        assert(done.preds[w as int].len() > 0);
        let p = done.preds[w as int][0];
        assert(one_hop_closer(done, p, w as int));
        assert(adj[p as int].contains(w));
        let front = lemma_a_walk_attains_the_distance(adj, source, p, (d - 1) as nat);
        let walk = front.push(w);
        assert(is_walk(adj, walk)) by {
            assert forall|i: int| 0 <= i < walk.len() - 1 implies adj[walk[i] as int].contains(#[trigger] walk[i + 1]) by {
                if i < front.len() - 1 {
                    assert(walk[i] == front[i]);
                    assert(walk[i + 1] == front[i + 1]);
                } else {
                    assert(walk[i] == p);
                    assert(walk[i + 1] == w);
                }
            }
        }
        walk
    }
}

} // verus!
