//! Shortest paths from one source, as betweenness centrality needs them.
//!
//! The search is breadth first with a strict first-in first-out queue. It
//! records the order in which nodes leave the queue, the distance of each
//! reached node from the source, and for each node its predecessors: the
//! nodes that precede it on a shortest path, once for each such edge, in the
//! order in which the search met them.

use vstd::prelude::*;
use crate::depth::{count_unset, depth_model, lemma_set_reduces_unset, lemma_unset_bound};
use crate::graph::{closed, rows};

verus! {

/// The state of a search.
pub struct Search {
    /// Distance from the source, `None` for a node not reached yet.
    pub dist: Seq<Option<nat>>,
    /// Predecessors of each node.
    pub preds: Seq<Seq<usize>>,
    /// Nodes waiting to be expanded, the next one first.
    pub queue: Seq<usize>,
    /// Nodes expanded so far, in order.
    pub order: Seq<usize>,
}

/// The state after node `v` has looked at `neighbors` in order. A neighbour
/// without a distance gets `hops` and joins the queue; a neighbour at
/// distance `hops`, old or new, gets `v` as one more predecessor.
pub open spec fn relax(search: Search, v: usize, hops: nat, neighbors: Seq<usize>) -> Search
    decreases neighbors.len(),
{
    if neighbors.len() == 0 {
        search
    } else {
        let s = relax(search, v, hops, neighbors.drop_last());
        let w = neighbors.last();
        if w >= s.dist.len() || w >= s.preds.len() {
            s
        } else {
            let reached = if s.dist[w as int] is None {
                Search { dist: s.dist.update(w as int, Some(hops)), queue: s.queue.push(w), ..s }
            } else {
                s
            };
            if reached.dist[w as int] == Some(hops) {
                Search { preds: reached.preds.update(w as int, reached.preds[w as int].push(v)), ..reached }
            } else {
                reached
            }
        }
    }
}

/// Looking at neighbours sets as many distances as it adds nodes to the
/// queue, and changes neither the number of nodes nor the expanded ones.
pub proof fn lemma_relax_balance(search: Search, v: usize, hops: nat, neighbors: Seq<usize>)
    ensures
        count_unset(relax(search, v, hops, neighbors).dist) + relax(search, v, hops, neighbors).queue.len()
            == count_unset(search.dist) + search.queue.len(),
        relax(search, v, hops, neighbors).queue.len() >= search.queue.len(),
        relax(search, v, hops, neighbors).dist.len() == search.dist.len(),
        relax(search, v, hops, neighbors).preds.len() == search.preds.len(),
        relax(search, v, hops, neighbors).order == search.order,
    decreases neighbors.len(),
{
    if neighbors.len() > 0 {
        lemma_relax_balance(search, v, hops, neighbors.drop_last());
        let s = relax(search, v, hops, neighbors.drop_last());
        let w = neighbors.last();
        if w < s.dist.len() && w < s.preds.len() && s.dist[w as int] is None {
            lemma_set_reduces_unset(s.dist, w as int, hops);
        }
    }
}

/// The state in which the search from `search` ends: nodes leave the queue
/// in order, and each looks at its neighbours.
pub open spec fn search_from(adj: Seq<Seq<usize>>, search: Search) -> Search
    decreases count_unset(search.dist) + search.queue.len(),
{
    if search.queue.len() == 0 {
        search
    } else {
        let v = search.queue[0];
        let rest = search.queue.drop_first();
        if v < search.dist.len() && v < adj.len() && search.dist[v as int] is Some {
            let popped = Search { queue: rest, order: search.order.push(v), ..search };
            let hops = search.dist[v as int]->0 + 1;
            proof {
                lemma_relax_balance(popped, v, hops, adj[v as int]);
            }
            search_from(adj, relax(popped, v, hops, adj[v as int]))
        } else {
            search_from(adj, Search { queue: rest, ..search })
        }
    }
}

/// The state in which a search over `n` nodes starts: only the source has a
/// distance, 0, and only the source waits.
pub open spec fn start(n: nat, source: usize) -> Search {
    Search {
        dist: Seq::new(
            n,
            |i: int|
                if i == source {
                    Some(0nat)
                } else {
                    None
                },
        ),
        preds: Seq::new(n, |i: int| Seq::<usize>::empty()),
        queue: seq![source],
        order: Seq::empty(),
    }
}

/// The finished search from `source`.
pub open spec fn search(adj: Seq<Seq<usize>>, source: usize) -> Search {
    search_from(adj, start(adj.len(), source))
}

/// What a search from one source found.
#[derive(Debug, Clone)]
pub struct ShortestPaths {
    /// The reached nodes in the order in which the search expanded them; the
    /// source comes first and distances never fall along the list.
    pub order: Vec<usize>,
    /// Distance of each node from the source, `None` where there is no path.
    pub distance: Vec<Option<usize>>,
    /// Predecessors of each node on shortest paths, in the order met.
    pub predecessors: Vec<Vec<usize>>,
}

impl ShortestPaths {
    /// Whether this is what the search from `source` over `adj` finds.
    pub open spec fn is_search(self, adj: Seq<Seq<usize>>, source: usize) -> bool {
        &&& self.order@ == search(adj, source).order
        &&& depth_model(self.distance@) == search(adj, source).dist
        &&& rows(self.predecessors@) == search(adj, source).preds
    }
}

/// The state that the vectors of a running search stand for: the queue
/// vector holds the expanded nodes before `head` and the waiting ones after.
pub open spec fn search_model(
    dist: Seq<Option<usize>>,
    preds: Seq<Vec<usize>>,
    queue: Seq<usize>,
    head: int,
) -> Search {
    Search { dist: depth_model(dist), preds: rows(preds), queue: queue.skip(head), order: queue.take(head) }
}

/// Searches the graph breadth first from `source`.
pub fn shortest_paths(adjacency: &Vec<Vec<usize>>, source: usize) -> (paths: ShortestPaths)
    requires
        closed(rows(adjacency@)),
        source < adjacency@.len(),
    ensures
        paths.is_search(rows(adjacency@), source),
        paths.distance@.len() == adjacency@.len(),
        paths.predecessors@.len() == adjacency@.len(),
{
    let n: usize = adjacency.len();
    let ghost adj = rows(adjacency@);
    let mut dist: Vec<Option<usize>> = Vec::new();
    let mut preds: Vec<Vec<usize>> = Vec::new();
    let mut i: usize = 0;
    while i < n
        invariant
            i <= n,
            source < n,
            dist@.len() == i,
            preds@.len() == i,
            forall|j: int| 0 <= j < i ==> #[trigger] dist@[j] == if j == source { Some(0usize) } else { None },
            forall|j: int| 0 <= j < i ==> (#[trigger] preds@[j])@.len() == 0,
        decreases n - i,
    {
        if i == source {
            dist.push(Some(0));
        } else {
            dist.push(None);
        }
        preds.push(Vec::new());
        i += 1;
    }
    let mut queue: Vec<usize> = Vec::new();
    queue.push(source);
    let mut head: usize = 0;
    proof {
        let begin = start(n as nat, source);
        let model = search_model(dist@, preds@, queue@, 0);
        assert(model.dist =~= begin.dist);
        assert forall|j: int| 0 <= j < n implies #[trigger] model.preds[j] =~= begin.preds[j] by {
            assert(model.preds[j] == preds@[j]@);
        }
        assert(model.preds =~= begin.preds);
        assert(model.queue =~= begin.queue);
        assert(model.order =~= begin.order);
        lemma_unset_bound(depth_model(dist@));
        lemma_set_reduces_unset(Seq::new(n as nat, |i: int| None::<nat>), source as int, 0);
        assert(depth_model(dist@) =~= Seq::new(n as nat, |i: int| None::<nat>).update(source as int, Some(0nat)));
        lemma_unset_bound(Seq::new(n as nat, |i: int| None::<nat>));
    }
    while head < queue.len()
        invariant
            head <= queue@.len(),
            n == adjacency@.len(),
            adj == rows(adjacency@),
            closed(adj),
            dist@.len() == n,
            preds@.len() == n,
            search_from(adj, search_model(dist@, preds@, queue@, head as int)) == search(adj, source),
            count_unset(depth_model(dist@)) < n,
            forall|j: int| 0 <= j < queue@.len() ==> #[trigger] queue@[j] < n && dist@[queue@[j] as int] is Some,
            forall|j: int|
                0 <= j < n ==> match #[trigger] dist@[j] {
                    Some(d) => d + count_unset(depth_model(dist@)) < n,
                    None => true,
                },
        decreases count_unset(depth_model(dist@)) + (queue@.len() - head),
    {
        let v: usize = queue[head];
        let ghost before = search_model(dist@, preds@, queue@, head as int);
        let reach: usize = match dist[v] {
            Some(d) => d,
            None => 0,
        };
        let hops: usize = reach + 1;
        head += 1;
        let ghost popped = search_model(dist@, preds@, queue@, head as int);
        proof {
            assert(before.queue[0] == v);
            assert(popped.queue =~= before.queue.drop_first());
            assert(popped.order =~= before.order.push(v));
            assert(before.dist[v as int] == Some(reach as nat));
            assert(popped == (Search { queue: before.queue.drop_first(), order: before.order.push(v), ..before }));
            assert(adj[v as int] == adjacency@[v as int]@);
            assert(adj[v as int].take(0) =~= Seq::<usize>::empty());
            lemma_relax_balance(popped, v, hops as nat, adj[v as int]);
        }
        let mut k: usize = 0;
        while k < adjacency[v].len()
            invariant
                v < n,
                head <= queue@.len(),
                n == adjacency@.len(),
                adj == rows(adjacency@),
                closed(adj),
                dist@.len() == n,
                preds@.len() == n,
                k <= adjacency@[v as int]@.len(),
                dist@[v as int] == Some(reach),
                hops == reach + 1,
                search_model(dist@, preds@, queue@, head as int) == relax(
                    popped,
                    v,
                    hops as nat,
                    adj[v as int].take(k as int),
                ),
                count_unset(depth_model(dist@)) < n,
                forall|j: int| 0 <= j < queue@.len() ==> #[trigger] queue@[j] < n && dist@[queue@[j] as int] is Some,
                forall|j: int|
                    0 <= j < n ==> match #[trigger] dist@[j] {
                        Some(d) => d + count_unset(depth_model(dist@)) < n,
                        None => true,
                    },
            decreases adjacency@[v as int]@.len() - k,
        {
            let w: usize = adjacency[v][k];
            let ghost s = search_model(dist@, preds@, queue@, head as int);
            proof {
                assert(adj[v as int][k as int] == w);
                assert(adj[v as int].take(k + 1).drop_last() =~= adj[v as int].take(k as int));
                assert(adj[v as int].take(k + 1).last() == w);
            }
            if dist[w].is_none() {
                proof {
                    lemma_set_reduces_unset(depth_model(dist@), w as int, hops as nat);
                }
                let ghost old_dist = depth_model(dist@);
                dist[w] = Some(hops);
                queue.push(w);
                proof {
                    assert(depth_model(dist@) =~= old_dist.update(w as int, Some(hops as nat)));
                    assert(queue@.skip(head as int) =~= s.queue.push(w));
                    assert(queue@.take(head as int) =~= s.order);
                }
            }
            let ghost reached = search_model(dist@, preds@, queue@, head as int);
            let same: bool = match dist[w] {
                Some(d) => d == hops,
                None => false,
            };
            assert(same == (reached.dist[w as int] == Some(hops as nat)));
            if same {
                let ghost old_preds = rows(preds@);
                preds[w].push(v);
                proof {
                    let new_rows = rows(preds@);
                    let wanted = old_preds.update(w as int, old_preds[w as int].push(v));
                    assert forall|j: int| 0 <= j < n implies #[trigger] new_rows[j] =~= wanted[j] by {
                        assert(new_rows[j] == preds@[j]@);
                    }
                    assert(new_rows =~= wanted);
                }
            }
            k += 1;
        }
        proof {
            assert(adj[v as int].take(k as int) =~= adj[v as int]);
        }
    }
    proof {
        assert(queue@.skip(head as int) =~= Seq::<usize>::empty());
        assert(queue@.take(head as int) =~= queue@);
    }
    ShortestPaths { order: queue, distance: dist, predecessors: preds }
}

/// Whether `p` has a distance and `w` lies one hop beyond it.
pub open spec fn one_hop_closer(s: Search, p: usize, w: int) -> bool {
    &&& p < s.dist.len()
    &&& s.dist[p as int] is Some
    &&& s.dist[w] == Some((s.dist[p as int]->0 + 1) as nat)
}

/// What holds of a search over `n` nodes at every moment: every waiting node
/// has a distance, and every predecessor of a node is one hop closer to the
/// source than the node.
pub open spec fn consistent(s: Search, n: nat) -> bool {
    &&& s.dist.len() == n
    &&& s.preds.len() == n
    &&& forall|q: int| 0 <= q < s.queue.len() ==> (#[trigger] s.queue[q]) < n && s.dist[s.queue[q] as int] is Some
    &&& forall|w: int, k: int|
        0 <= w < n && 0 <= k < s.preds[w].len() ==> one_hop_closer(s, #[trigger] s.preds[w][k], w)
}

/// Looking at neighbours keeps a search consistent and changes no distance
/// that was set.
pub proof fn lemma_relax_consistent(search: Search, v: usize, hops: nat, neighbors: Seq<usize>, n: nat)
    requires
        consistent(search, n),
        v < n,
        hops >= 1,
        search.dist[v as int] == Some((hops - 1) as nat),
        forall|k: int| 0 <= k < neighbors.len() ==> #[trigger] neighbors[k] < n,
    ensures
        consistent(relax(search, v, hops, neighbors), n),
        forall|i: int|
            0 <= i < n && search.dist[i] is Some ==> #[trigger] relax(search, v, hops, neighbors).dist[i]
                == search.dist[i],
    decreases neighbors.len(),
{
    if neighbors.len() > 0 {
        let front = neighbors.drop_last();
        assert(forall|k: int| 0 <= k < front.len() ==> #[trigger] front[k] == neighbors[k]);
        lemma_relax_consistent(search, v, hops, front, n);
        let s = relax(search, v, hops, front);
        let w = neighbors.last();
        assert(w == neighbors[neighbors.len() - 1]);
        let reached = if s.dist[w as int] is None {
            Search { dist: s.dist.update(w as int, Some(hops)), queue: s.queue.push(w), ..s }
        } else {
            s
        };
        assert(consistent(reached, n)) by {
            assert forall|x: int, k: int| 0 <= x < n && 0 <= k < reached.preds[x].len() implies one_hop_closer(
                reached,
                #[trigger] reached.preds[x][k],
                x,
            ) by {
                assert(one_hop_closer(s, s.preds[x][k], x));
            }
        }
        let r = relax(search, v, hops, neighbors);
        if reached.dist[w as int] == Some(hops) {
            assert(r.preds == reached.preds.update(w as int, reached.preds[w as int].push(v)));
            assert forall|x: int, k: int| 0 <= x < n && 0 <= k < r.preds[x].len() implies one_hop_closer(
                r,
                #[trigger] r.preds[x][k],
                x,
            ) by {
                if x == w && k == reached.preds[w as int].len() {
                    assert(r.preds[x][k] == v);
                    assert(s.dist[v as int] == search.dist[v as int]);
                } else {
                    assert(r.preds[x][k] == reached.preds[x][k]);
                    assert(one_hop_closer(reached, reached.preds[x][k], x));
                }
            }
        }
    }
}

/// A search stays consistent to its end and changes no distance that was
/// set.
pub proof fn lemma_search_consistent(adj: Seq<Seq<usize>>, search: Search, n: nat)
    requires
        consistent(search, n),
        closed(adj),
        adj.len() == n,
    ensures
        consistent(search_from(adj, search), n),
        forall|i: int| 0 <= i < n && search.dist[i] is Some ==> #[trigger] search_from(adj, search).dist[i] == search.dist[i],
    decreases count_unset(search.dist) + search.queue.len(),
{
    if search.queue.len() > 0 {
        let v = search.queue[0];
        let rest = search.queue.drop_first();
        assert(forall|q: int| 0 <= q < rest.len() ==> #[trigger] rest[q] == search.queue[q + 1]);
        if v < search.dist.len() && v < adj.len() && search.dist[v as int] is Some {
            let popped = Search { queue: rest, order: search.order.push(v), ..search };
            let hops = search.dist[v as int]->0 + 1;
            assert(consistent(popped, n)) by {
                assert forall|x: int, k: int| 0 <= x < n && 0 <= k < popped.preds[x].len() implies one_hop_closer(
                    popped,
                    #[trigger] popped.preds[x][k],
                    x,
                ) by {
                    assert(one_hop_closer(search, search.preds[x][k], x));
                }
            }
            lemma_relax_balance(popped, v, hops, adj[v as int]);
            lemma_relax_consistent(popped, v, hops, adj[v as int], n);
            lemma_search_consistent(adj, relax(popped, v, hops, adj[v as int]), n);
        } else {
            let skipped = Search { queue: rest, ..search };
            assert(consistent(skipped, n)) by {
                assert forall|x: int, k: int| 0 <= x < n && 0 <= k < skipped.preds[x].len() implies one_hop_closer(
                    skipped,
                    #[trigger] skipped.preds[x][k],
                    x,
                ) by {
                    assert(one_hop_closer(search, search.preds[x][k], x));
                }
            }
            lemma_search_consistent(adj, skipped, n);
        }
    }
}

/// In a finished search the source has distance 0, and every predecessor of
/// a node is a node of the graph at one hop less than the node.
pub proof fn lemma_predecessors_one_hop_closer(adj: Seq<Seq<usize>>, source: usize)
    requires
        closed(adj),
        source < adj.len(),
    ensures
        consistent(search(adj, source), adj.len()),
        search(adj, source).dist[source as int] == Some(0nat),
{
    let begin = start(adj.len(), source);
    assert(consistent(begin, adj.len()));
    lemma_search_consistent(adj, begin, adj.len());
}

/// With at most two nodes, the only predecessor that a search records is
/// its source: no node lies between two others. Centrality that is summed
/// along predecessors is therefore zero for every node.
pub proof fn lemma_small_graph_has_no_intermediate(adj: Seq<Seq<usize>>, source: usize, w: int, k: int)
    requires
        closed(adj),
        adj.len() <= 2,
        source < adj.len(),
        0 <= w < adj.len(),
        0 <= k < search(adj, source).preds[w].len(),
    ensures
        search(adj, source).preds[w][k] == source,
        w != source,
{
    lemma_predecessors_one_hop_closer(adj, source);
    let done = search(adj, source);
    assert(one_hop_closer(done, done.preds[w][k], w));
}

/// In a graph without edges a search expands its source and nothing else,
/// and records no predecessor.
pub proof fn lemma_search_without_edges(adj: Seq<Seq<usize>>, source: usize)
    requires
        source < adj.len(),
        forall|i: int| 0 <= i < adj.len() ==> #[trigger] adj[i].len() == 0,
    ensures
        search(adj, source).order == seq![source],
        forall|w: int| 0 <= w < adj.len() ==> #[trigger] search(adj, source).preds[w].len() == 0,
{
    let begin = start(adj.len(), source);
    let popped = Search { queue: begin.queue.drop_first(), order: begin.order.push(source), ..begin };
    assert(adj[source as int] =~= Seq::<usize>::empty());
    assert(relax(popped, source, 1, adj[source as int]) == popped);
    assert(popped.queue =~= Seq::<usize>::empty());
    assert(search_from(adj, popped) == popped);
    assert(search_from(adj, begin) == search_from(adj, relax(popped, source, 1, adj[source as int])));
    assert(popped.order =~= seq![source]);
}

/// Whether every recorded predecessor of a node has an edge to the node.
pub open spec fn preds_are_edges(s: Search, adj: Seq<Seq<usize>>) -> bool {
    forall|w: int, k: int|
        0 <= w < s.preds.len() && 0 <= k < s.preds[w].len() ==> (#[trigger] s.preds[w][k]) < adj.len()
            && adj[s.preds[w][k] as int].contains(w as usize)
}

/// Looking at neighbours records only nodes that have an edge to the node.
pub proof fn lemma_relax_preds_are_edges(search: Search, v: usize, hops: nat, neighbors: Seq<usize>, adj: Seq<Seq<usize>>)
    requires
        preds_are_edges(search, adj),
        v < adj.len(),
        search.preds.len() <= usize::MAX,
        forall|k: int| 0 <= k < neighbors.len() ==> adj[v as int].contains(#[trigger] neighbors[k]),
    ensures
        preds_are_edges(relax(search, v, hops, neighbors), adj),
    decreases neighbors.len(),
{
    if neighbors.len() > 0 {
        let front = neighbors.drop_last();
        assert(forall|k: int| 0 <= k < front.len() ==> #[trigger] front[k] == neighbors[k]);
        lemma_relax_preds_are_edges(search, v, hops, front, adj);
        lemma_relax_balance(search, v, hops, front);
        let s = relax(search, v, hops, front);
        let w = neighbors.last();
        assert(w == neighbors[neighbors.len() - 1]);
        let r = relax(search, v, hops, neighbors);
        assert forall|x: int, k: int| 0 <= x < r.preds.len() && 0 <= k < r.preds[x].len() implies (
        #[trigger] r.preds[x][k]) < adj.len() && adj[r.preds[x][k] as int].contains(x as usize) by {
            if x == w && k == s.preds[x].len() && r.preds[x].len() > s.preds[x].len() {
                assert(r.preds[x][k] == v);
            } else {
                assert(r.preds[x][k] == s.preds[x][k]);
            }
        }
    }
}

/// A search records only nodes that have an edge to the node.
pub proof fn lemma_search_preds_are_edges(adj: Seq<Seq<usize>>, search: Search)
    requires
        preds_are_edges(search, adj),
        search.preds.len() <= usize::MAX,
    ensures
        preds_are_edges(search_from(adj, search), adj),
    decreases count_unset(search.dist) + search.queue.len(),
{
    if search.queue.len() > 0 {
        let v = search.queue[0];
        let rest = search.queue.drop_first();
        if v < search.dist.len() && v < adj.len() && search.dist[v as int] is Some {
            let popped = Search { queue: rest, order: search.order.push(v), ..search };
            let hops = search.dist[v as int]->0 + 1;
            lemma_relax_balance(popped, v, hops, adj[v as int]);
            lemma_relax_preds_are_edges(popped, v, hops, adj[v as int], adj);
            lemma_search_preds_are_edges(adj, relax(popped, v, hops, adj[v as int]));
        } else {
            lemma_search_preds_are_edges(adj, Search { queue: rest, ..search });
        }
    }
}

/// In a finished search every predecessor of a node has an edge to it.
pub proof fn lemma_predecessors_are_neighbours(adj: Seq<Seq<usize>>, source: usize)
    requires
        adj.len() <= usize::MAX,
    ensures
        preds_are_edges(search(adj, source), adj),
{
    lemma_search_preds_are_edges(adj, start(adj.len(), source));
}

} // verus!
