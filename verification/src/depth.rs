//! Depth of each component below the roots of the dependency graph.
//!
//! A root is a node that no edge enters. The traversal keeps a stack of
//! pending visits, each with the number of hops at which it was pushed. It
//! starts with every root at 0 hops, always takes the visit that was pushed
//! last, and gives a node the hops of the first visit taken for it; later
//! visits of the same node are dropped. A node that no visit reaches has
//! depth 0. The depth of a node is therefore the length of some path from a
//! root, not always of the shortest one.

use vstd::prelude::*;
use crate::graph::{closed, edge_total, lemma_empty_rows_no_edges, rows};

verus! {

/// Whether some edge of `adj` ends at node `t`.
pub open spec fn edge_into(adj: Seq<Seq<usize>>, t: int) -> bool {
    exists|s: int, k: int| 0 <= s < adj.len() && 0 <= k < adj[s].len() && #[trigger] adj[s][k] == t
}

/// The first visits: every root among the nodes below `upto`, in rising
/// order, at 0 hops.
pub open spec fn root_entries(adj: Seq<Seq<usize>>, upto: int) -> Seq<(usize, nat)>
    decreases upto,
{
    if upto <= 0 {
        Seq::empty()
    } else {
        let front = root_entries(adj, upto - 1);
        if edge_into(adj, upto - 1) {
            front
        } else {
            front.push(((upto - 1) as usize, 0nat))
        }
    }
}

/// The number of nodes that have no depth yet.
pub open spec fn count_unset(depth: Seq<Option<nat>>) -> nat
    decreases depth.len(),
{
    if depth.len() == 0 {
        0
    } else {
        count_unset(depth.drop_last()) + if depth.last() is None {
            1nat
        } else {
            0nat
        }
    }
}

/// The visits that a node pushes: one for each of its neighbours that has no
/// depth yet, in the order of its edges, at `hops`.
pub open spec fn fresh_entries(neighbors: Seq<usize>, depth: Seq<Option<nat>>, hops: nat) -> Seq<
    (usize, nat),
>
    decreases neighbors.len(),
{
    if neighbors.len() == 0 {
        Seq::empty()
    } else {
        let front = fresh_entries(neighbors.drop_last(), depth, hops);
        let t = neighbors.last();
        if t < depth.len() && depth[t as int] is None {
            front.push((t, hops))
        } else {
            front
        }
    }
}

/// Giving a depth to a node that had none leaves one node fewer without.
pub proof fn lemma_set_reduces_unset(depth: Seq<Option<nat>>, i: int, hops: nat)
    requires
        0 <= i < depth.len(),
        depth[i] is None,
    ensures
        count_unset(depth.update(i, Some(hops))) + 1 == count_unset(depth),
    decreases depth.len(),
{
    let after = depth.update(i, Some(hops));
    if i == depth.len() - 1 {
        assert(after.drop_last() =~= depth.drop_last());
    } else {
        lemma_set_reduces_unset(depth.drop_last(), i, hops);
        assert(after.drop_last() =~= depth.drop_last().update(i, Some(hops)));
    }
}

/// No more nodes are without depth than there are nodes.
pub proof fn lemma_unset_bound(depth: Seq<Option<nat>>)
    ensures
        count_unset(depth) <= depth.len(),
    decreases depth.len(),
{
    if depth.len() > 0 {
        lemma_unset_bound(depth.drop_last());
    }
}

/// The depths after the traversal has taken every visit on `stack`, last
/// first, starting from the depths `depth`.
pub open spec fn explore(adj: Seq<Seq<usize>>, stack: Seq<(usize, nat)>, depth: Seq<Option<nat>>) -> Seq<
    Option<nat>,
>
    decreases count_unset(depth), stack.len(),
{
    if stack.len() == 0 {
        depth
    } else {
        let node = stack.last().0;
        let hops = stack.last().1;
        let rest = stack.drop_last();
        if node < depth.len() && node < adj.len() && depth[node as int] is None {
            let marked = depth.update(node as int, Some(hops));
            proof {
                lemma_set_reduces_unset(depth, node as int, hops);
            }
            explore(adj, rest + fresh_entries(adj[node as int], marked, hops + 1), marked)
        } else {
            explore(adj, rest, depth)
        }
    }
}

/// The depths that the traversal assigns, `None` for a node it never reaches.
pub open spec fn explored(adj: Seq<Seq<usize>>) -> Seq<Option<nat>> {
    explore(adj, root_entries(adj, adj.len() as int), Seq::new(adj.len(), |i: int| None::<nat>))
}

/// The depth of node `i`: what the traversal assigned, or 0.
pub open spec fn depth_of(adj: Seq<Seq<usize>>, i: int) -> nat {
    match explored(adj)[i] {
        Some(d) => d,
        None => 0,
    }
}

/// The greatest of `depths`, 0 for none.
pub open spec fn greatest(depths: Seq<usize>) -> nat
    decreases depths.len(),
{
    if depths.len() == 0 {
        0
    } else {
        let front = greatest(depths.drop_last());
        if depths.last() > front {
            depths.last() as nat
        } else {
            front
        }
    }
}

/// The traversal keeps one entry for each node.
pub proof fn lemma_explore_len(adj: Seq<Seq<usize>>, stack: Seq<(usize, nat)>, depth: Seq<Option<nat>>)
    ensures
        explore(adj, stack, depth).len() == depth.len(),
    decreases count_unset(depth), stack.len(),
{
    if stack.len() > 0 {
        let node = stack.last().0;
        let hops = stack.last().1;
        let rest = stack.drop_last();
        if node < depth.len() && node < adj.len() && depth[node as int] is None {
            let marked = depth.update(node as int, Some(hops));
            lemma_set_reduces_unset(depth, node as int, hops);
            lemma_explore_len(adj, rest + fresh_entries(adj[node as int], marked, hops + 1), marked);
        } else {
            lemma_explore_len(adj, rest, depth);
        }
    }
}

/// In a graph without edges, a traversal whose pending visits are all at 0
/// hops and whose assigned depths are all 0 assigns only depth 0.
pub proof fn lemma_explore_flat(adj: Seq<Seq<usize>>, stack: Seq<(usize, nat)>, depth: Seq<Option<nat>>)
    requires
        forall|i: int| 0 <= i < adj.len() ==> #[trigger] adj[i].len() == 0,
        forall|i: int| 0 <= i < stack.len() ==> (#[trigger] stack[i]).1 == 0,
        forall|i: int| 0 <= i < depth.len() ==> #[trigger] depth[i] != Some(0nat) ==> depth[i] is None,
    ensures
        forall|i: int|
            0 <= i < depth.len() ==> #[trigger] explore(adj, stack, depth)[i] != Some(0nat) ==> explore(
                adj,
                stack,
                depth,
            )[i] is None,
    decreases count_unset(depth), stack.len(),
{
    if stack.len() > 0 {
        let node = stack.last().0;
        let hops = stack.last().1;
        let rest = stack.drop_last();
        if node < depth.len() && node < adj.len() && depth[node as int] is None {
            let marked = depth.update(node as int, Some(hops));
            lemma_set_reduces_unset(depth, node as int, hops);
            assert(adj[node as int] =~= Seq::<usize>::empty());
            assert(rest + fresh_entries(adj[node as int], marked, hops + 1) =~= rest);
            lemma_explore_flat(adj, rest, marked);
        } else {
            lemma_explore_flat(adj, rest, depth);
        }
    }
}

/// In a graph without edges every node has depth 0.
pub proof fn lemma_no_edges_depth_zero(adj: Seq<Seq<usize>>, i: int)
    requires
        edge_total(adj) == 0,
        0 <= i < adj.len(),
    ensures
        depth_of(adj, i) == 0,
{
    lemma_empty_rows_no_edges(adj);
    let start = Seq::new(adj.len(), |i: int| None::<nat>);
    lemma_root_entries_flat(adj, adj.len() as int);
    lemma_explore_flat(adj, root_entries(adj, adj.len() as int), start);
    lemma_explore_len(adj, root_entries(adj, adj.len() as int), start);
}

/// Every first visit is at 0 hops.
pub proof fn lemma_root_entries_flat(adj: Seq<Seq<usize>>, upto: int)
    ensures
        forall|i: int| 0 <= i < root_entries(adj, upto).len() ==> (#[trigger] root_entries(adj, upto)[i]).1 == 0,
    decreases upto,
{
    if upto > 0 {
        lemma_root_entries_flat(adj, upto - 1);
        let all = root_entries(adj, upto);
        let front = root_entries(adj, upto - 1);
        assert forall|i: int| 0 <= i < all.len() implies (#[trigger] all[i]).1 == 0 by {
            if i < front.len() {
                assert(all[i] == front[i]);
            }
        }
    }
}

/// Pending visits with their hops as numbers without bound.
pub open spec fn entries_model(stack: Seq<(usize, usize)>) -> Seq<(usize, nat)> {
    Seq::new(stack.len(), |i: int| (stack[i].0, stack[i].1 as nat))
}

/// Assigned depths as numbers without bound.
pub open spec fn depth_model(depth: Seq<Option<usize>>) -> Seq<Option<nat>> {
    Seq::new(
        depth.len(),
        |i: int|
            match depth[i] {
                Some(d) => Some(d as nat),
                None => None,
            },
    )
}

/// Whether one of the first `k` edges of `row` ends at `t`.
pub open spec fn hit_in_row(row: Seq<usize>, k: int, t: int) -> bool {
    exists|j: int| 0 <= j < k && j < row.len() && #[trigger] row[j] == t
}

/// Whether an edge of one of the first `s` rows ends at `t`.
pub open spec fn hit_in_rows(adj: Seq<Seq<usize>>, s: int, t: int) -> bool {
    exists|r: int, j: int| 0 <= r < s && r < adj.len() && 0 <= j < adj[r].len() && #[trigger] adj[r][j] == t
}

/// Marks the nodes that some edge enters.
pub fn mark_targets(adjacency: &Vec<Vec<usize>>) -> (targeted: Vec<bool>)
    requires
        closed(rows(adjacency@)),
    ensures
        targeted@.len() == adjacency@.len(),
        forall|t: int| 0 <= t < adjacency@.len() ==> #[trigger] targeted@[t] == edge_into(rows(adjacency@), t),
{
    let n: usize = adjacency.len();
    let ghost adj = rows(adjacency@);
    let mut targeted: Vec<bool> = Vec::new();
    let mut i: usize = 0;
    while i < n
        invariant
            i <= n,
            targeted@.len() == i,
            forall|t: int| 0 <= t < i ==> !#[trigger] targeted@[t],
        decreases n - i,
    {
        targeted.push(false);
        i += 1;
    }
    let mut s: usize = 0;
    while s < n
        invariant
            s <= n,
            n == adjacency@.len(),
            adj == rows(adjacency@),
            closed(adj),
            targeted@.len() == n,
            forall|t: int| 0 <= t < n ==> #[trigger] targeted@[t] == hit_in_rows(adj, s as int, t),
        decreases n - s,
    {
        let mut k: usize = 0;
        while k < adjacency[s].len()
            invariant
                s < n,
                n == adjacency@.len(),
                adj == rows(adjacency@),
                closed(adj),
                k <= adjacency@[s as int]@.len(),
                targeted@.len() == n,
                forall|t: int|
                    0 <= t < n ==> #[trigger] targeted@[t] == (hit_in_rows(adj, s as int, t) || hit_in_row(
                        adj[s as int],
                        k as int,
                        t,
                    )),
            decreases adjacency@[s as int]@.len() - k,
        {
            let target: usize = adjacency[s][k];
            assert(adj[s as int][k as int] == target);
            let ghost before = targeted@;
            targeted[target] = true;
            proof {
                assert forall|t: int| 0 <= t < n implies #[trigger] targeted@[t] == (hit_in_rows(
                    adj,
                    s as int,
                    t,
                ) || hit_in_row(adj[s as int], k + 1, t)) by {
                    if t == target {
                        assert(adj[s as int][k as int] == t);
                    } else {
                        assert(targeted@[t] == before[t]);
                        if hit_in_row(adj[s as int], k + 1, t) {
                            let j = choose|j: int| 0 <= j < k + 1 && j < adj[s as int].len() && #[trigger] adj[s as int][j] == t;
                            assert(j < k);
                        }
                    }
                }
            }
            k += 1;
        }
        proof {
            assert forall|t: int| 0 <= t < n implies #[trigger] targeted@[t] == hit_in_rows(adj, s + 1, t) by {
                if hit_in_rows(adj, s + 1, t) {
                    let (r, j) = choose|r: int, j: int|
                        0 <= r < s + 1 && r < adj.len() && 0 <= j < adj[r].len() && #[trigger] adj[r][j] == t;
                    if r == s {
                        assert(adj[s as int][j] == t);
                    } else {
                        assert(adj[r][j] == t);
                    }
                }
                if hit_in_row(adj[s as int], k as int, t) {
                    let j = choose|j: int| 0 <= j < k && j < adj[s as int].len() && #[trigger] adj[s as int][j] == t;
                    assert(adj[s as int][j] == t);
                }
            }
        }
        s += 1;
    }
    targeted
}

/// Computes the depth of every node below the roots.
pub fn compute_depth(adjacency: &Vec<Vec<usize>>) -> (depths: Vec<usize>)
    requires
        closed(rows(adjacency@)),
    ensures
        depths@.len() == adjacency@.len(),
        forall|i: int| 0 <= i < adjacency@.len() ==> #[trigger] depths@[i] == depth_of(rows(adjacency@), i),
{
    let n: usize = adjacency.len();
    let ghost adj = rows(adjacency@);
    let targeted = mark_targets(adjacency);
    let mut stack: Vec<(usize, usize)> = Vec::new();
    let mut depth: Vec<Option<usize>> = Vec::new();
    let mut i: usize = 0;
    assert(entries_model(stack@) =~= root_entries(adj, 0));
    while i < n
        invariant
            i <= n,
            n == adjacency@.len(),
            adj == rows(adjacency@),
            targeted@.len() == n,
            forall|t: int| 0 <= t < n ==> #[trigger] targeted@[t] == edge_into(adj, t),
            entries_model(stack@) == root_entries(adj, i as int),
            forall|j: int| 0 <= j < stack@.len() ==> (#[trigger] stack@[j]).0 < n && stack@[j].1 == 0,
            depth@.len() == i,
            forall|j: int| 0 <= j < i ==> #[trigger] depth@[j] is None,
        decreases n - i,
    {
        if !targeted[i] {
            stack.push((i, 0));
            assert(entries_model(stack@) =~= root_entries(adj, i as int).push((i, 0nat)));
        }
        depth.push(None);
        i += 1;
    }
    assert(depth_model(depth@) =~= Seq::new(adj.len(), |i: int| None::<nat>));
    proof {
        lemma_unset_bound(depth_model(depth@));
    }
    while stack.len() > 0
        invariant
            n == adjacency@.len(),
            adj == rows(adjacency@),
            closed(adj),
            depth@.len() == n,
            explore(adj, entries_model(stack@), depth_model(depth@)) == explored(adj),
            count_unset(depth_model(depth@)) <= n,
            forall|j: int|
                0 <= j < stack@.len() ==> (#[trigger] stack@[j]).0 < n && stack@[j].1 + count_unset(
                    depth_model(depth@),
                ) <= n,
        decreases count_unset(depth_model(depth@)), stack@.len(),
    {
        let ghost old_stack = entries_model(stack@);
        let ghost old_depth = depth_model(depth@);
        let ghost top = stack@[stack@.len() - 1];
        let entry = stack.pop().unwrap();
        let node: usize = entry.0;
        let hops: usize = entry.1;
        assert(entry == top);
        assert(entries_model(stack@) =~= old_stack.drop_last());
        assert(old_stack.last() == (node, hops as nat));
        if depth[node].is_none() {
            assert(old_depth[node as int] is None);
            depth[node] = Some(hops);
            let ghost marked = depth_model(depth@);
            let ghost rest = entries_model(stack@);
            proof {
                assert(marked =~= old_depth.update(node as int, Some(hops as nat)));
                lemma_set_reduces_unset(old_depth, node as int, hops as nat);
                assert(adj[node as int] == adjacency@[node as int]@);
                assert(adj[node as int].take(0) =~= Seq::<usize>::empty());
                assert(rest + fresh_entries(adj[node as int].take(0), marked, (hops + 1) as nat) =~= rest);
            }
            let mut k: usize = 0;
            while k < adjacency[node].len()
                invariant
                    node < n,
                    n == adjacency@.len(),
                    adj == rows(adjacency@),
                    closed(adj),
                    depth@.len() == n,
                    marked == depth_model(depth@),
                    k <= adjacency@[node as int]@.len(),
                    hops + 1 + count_unset(marked) <= n,
                    entries_model(stack@) == rest + fresh_entries(
                        adj[node as int].take(k as int),
                        marked,
                        (hops + 1) as nat,
                    ),
                    forall|j: int|
                        0 <= j < stack@.len() ==> (#[trigger] stack@[j]).0 < n && stack@[j].1 + count_unset(marked)
                            <= n,
                decreases adjacency@[node as int]@.len() - k,
            {
                let target: usize = adjacency[node][k];
                proof {
                    assert(adj[node as int][k as int] == target);
                    assert(adj[node as int].take(k + 1).drop_last() =~= adj[node as int].take(k as int));
                    assert(adj[node as int].take(k + 1).last() == target);
                }
                if depth[target].is_none() {
                    let ghost before = entries_model(stack@);
                    stack.push((target, hops + 1));
                    assert(entries_model(stack@) =~= before.push((target, (hops + 1) as nat)));
                }
                k += 1;
            }
            assert(adj[node as int].take(k as int) =~= adj[node as int]);
        } else {
            assert(old_depth[node as int] is Some);
        }
    }
    assert(entries_model(stack@) =~= Seq::<(usize, nat)>::empty());
    let mut depths: Vec<usize> = Vec::new();
    let mut j: usize = 0;
    while j < n
        invariant
            j <= n,
            depth@.len() == n,
            n == adj.len(),
            depth_model(depth@) == explored(adj),
            depths@.len() == j,
            forall|i: int| 0 <= i < j ==> #[trigger] depths@[i] == depth_of(adj, i),
        decreases n - j,
    {
        let d: usize = match depth[j] {
            Some(d) => d,
            None => 0,
        };
        assert(depth_model(depth@)[j as int] == explored(adj)[j as int]);
        depths.push(d);
        j += 1;
    }
    depths
}

/// The greatest depth, 0 when there is none.
pub fn max_depth(depths: &Vec<usize>) -> (deepest: usize)
    ensures
        deepest == greatest(depths@),
        forall|i: int| 0 <= i < depths@.len() ==> #[trigger] depths@[i] <= deepest,
        depths@.len() > 0 ==> exists|i: int| 0 <= i < depths@.len() && #[trigger] depths@[i] == deepest,
        depths@.len() == 0 ==> deepest == 0,
{
    let mut deepest: usize = 0;
    let mut i: usize = 0;
    assert(depths@.take(0) =~= Seq::<usize>::empty());
    while i < depths.len()
        invariant
            i <= depths.len(),
            deepest == greatest(depths@.take(i as int)),
            forall|j: int| 0 <= j < i ==> #[trigger] depths@[j] <= deepest,
            i > 0 ==> exists|j: int| 0 <= j < i && #[trigger] depths@[j] == deepest,
            i == 0 ==> deepest == 0,
        decreases depths.len() - i,
    {
        assert(depths@.take(i + 1).drop_last() =~= depths@.take(i as int));
        if depths[i] > deepest {
            deepest = depths[i];
        }
        i += 1;
    }
    assert(depths@.take(i as int) =~= depths@);
    deepest
}

/// Whether node `t` is one step from a node that has depth `hops - 1`.
pub open spec fn stepped_from(adj: Seq<Seq<usize>>, depth: Seq<Option<nat>>, t: int, hops: nat) -> bool {
    exists|s: int|
        0 <= s < adj.len() && s < depth.len() && adj[s].contains(t as usize) && #[trigger] depth[s] == Some(
            (hops - 1) as nat,
        )
}

/// Whether `hops` is a depth that node `t` may have: 0 for a root, and for
/// any other node one more than the depth of a node that points to it.
pub open spec fn justified(adj: Seq<Seq<usize>>, depth: Seq<Option<nat>>, t: int, hops: nat) -> bool {
    if hops == 0 {
        !edge_into(adj, t)
    } else {
        stepped_from(adj, depth, t, hops)
    }
}

/// Whether the visit of root `r` at 0 hops is pending.
pub open spec fn pending_root(stack: Seq<(usize, nat)>, r: int) -> bool {
    exists|i: int| 0 <= i < stack.len() && #[trigger] stack[i] == (r as usize, 0nat)
}

/// What holds of the traversal at every moment: every pending visit and
/// every assigned depth is justified, and every root either has depth 0 or
/// waits to be visited at 0 hops.
pub open spec fn traversal_sound(adj: Seq<Seq<usize>>, stack: Seq<(usize, nat)>, depth: Seq<Option<nat>>) -> bool {
    &&& depth.len() == adj.len()
    &&& adj.len() <= usize::MAX
    &&& forall|i: int|
        0 <= i < stack.len() ==> (#[trigger] stack[i]).0 < adj.len() && justified(
            adj,
            depth,
            stack[i].0 as int,
            stack[i].1,
        )
    &&& forall|v: int| 0 <= v < depth.len() && (#[trigger] depth[v]) is Some ==> justified(adj, depth, v, depth[v]->0)
    &&& forall|r: int|
        0 <= r < adj.len() && !edge_into(adj, r) ==> #[trigger] depth[r] == Some(0nat) || pending_root(stack, r)
}

/// What was justified stays justified when more depths are assigned.
pub proof fn lemma_justified_stays(
    adj: Seq<Seq<usize>>,
    depth: Seq<Option<nat>>,
    later: Seq<Option<nat>>,
    t: int,
    hops: nat,
)
    requires
        justified(adj, depth, t, hops),
        later.len() == depth.len(),
        forall|v: int| 0 <= v < depth.len() && depth[v] is Some ==> later[v] == depth[v],
    ensures
        justified(adj, later, t, hops),
{
    if hops > 0 {
        let s = choose|s: int|
            0 <= s < adj.len() && s < depth.len() && adj[s].contains(t as usize) && #[trigger] depth[s] == Some(
                (hops - 1) as nat,
            );
        assert(later[s] == Some((hops - 1) as nat));
    }
}

/// Every visit that a node pushes names one of its neighbours within the
/// graph, at the given hops.
pub proof fn lemma_fresh_entries(neighbors: Seq<usize>, depth: Seq<Option<nat>>, hops: nat)
    ensures
        forall|i: int|
            0 <= i < fresh_entries(neighbors, depth, hops).len() ==> {
                let entry = #[trigger] fresh_entries(neighbors, depth, hops)[i];
                entry.1 == hops && entry.0 < depth.len() && neighbors.contains(entry.0)
            },
    decreases neighbors.len(),
{
    if neighbors.len() > 0 {
        let front = neighbors.drop_last();
        lemma_fresh_entries(front, depth, hops);
        let all = fresh_entries(neighbors, depth, hops);
        let before = fresh_entries(front, depth, hops);
        assert forall|i: int| 0 <= i < all.len() implies {
            let entry = #[trigger] all[i];
            entry.1 == hops && entry.0 < depth.len() && neighbors.contains(entry.0)
        } by {
            if i < before.len() {
                assert(all[i] == before[i]);
                let k = choose|k: int| 0 <= k < front.len() && front[k] == before[i].0;
                assert(neighbors[k] == before[i].0);
            } else {
                assert(all[i].0 == neighbors.last());
                assert(neighbors[neighbors.len() - 1] == neighbors.last());
            }
        }
    }
}

/// A sound traversal ends with sound depths: every assigned depth is
/// justified and every root has depth 0.
pub proof fn lemma_explore_sound(adj: Seq<Seq<usize>>, stack: Seq<(usize, nat)>, depth: Seq<Option<nat>>)
    requires
        traversal_sound(adj, stack, depth),
    ensures
        traversal_sound(adj, Seq::empty(), explore(adj, stack, depth)),
    decreases count_unset(depth), stack.len(),
{
    if stack.len() > 0 {
        let node = stack.last().0;
        let hops = stack.last().1;
        let rest = stack.drop_last();
        assert(stack[stack.len() - 1] == (node, hops));
        assert(forall|i: int| 0 <= i < rest.len() ==> rest[i] == stack[i]);
        if node < depth.len() && node < adj.len() && depth[node as int] is None {
            let marked = depth.update(node as int, Some(hops));
            let pushed = fresh_entries(adj[node as int], marked, hops + 1);
            let next = rest + pushed;
            lemma_set_reduces_unset(depth, node as int, hops);
            lemma_fresh_entries(adj[node as int], marked, hops + 1);
            assert(traversal_sound(adj, next, marked)) by {
                assert forall|i: int| 0 <= i < next.len() implies (#[trigger] next[i]).0 < adj.len() && justified(
                    adj,
                    marked,
                    next[i].0 as int,
                    next[i].1,
                ) by {
                    if i < rest.len() {
                        assert(next[i] == stack[i]);
                        lemma_justified_stays(adj, depth, marked, stack[i].0 as int, stack[i].1);
                    } else {
                        let entry = pushed[i - rest.len()];
                        assert(next[i] == entry);
                        assert(adj[node as int].contains(entry.0));
                        assert(marked[node as int] == Some(hops));
                        assert(stepped_from(adj, marked, entry.0 as int, hops + 1));
                    }
                }
                assert forall|v: int| 0 <= v < marked.len() && (#[trigger] marked[v]) is Some implies justified(
                    adj,
                    marked,
                    v,
                    marked[v]->0,
                ) by {
                    if v == node {
                        lemma_justified_stays(adj, depth, marked, node as int, hops);
                    } else {
                        assert(depth[v] is Some);
                        lemma_justified_stays(adj, depth, marked, v, depth[v]->0);
                    }
                }
                assert forall|r: int| 0 <= r < adj.len() && !edge_into(adj, r) implies #[trigger] marked[r] == Some(
                    0nat,
                ) || pending_root(next, r) by {
                    if depth[r] == Some(0nat) {
                        assert(marked[r] == Some(0nat));
                    } else {
                        let i = choose|i: int| 0 <= i < stack.len() && #[trigger] stack[i] == (r as usize, 0nat);
                        if i < rest.len() {
                            assert(next[i] == (r as usize, 0nat));
                        } else {
                            assert(node == r && hops == 0);
                        }
                    }
                }
            }
            lemma_explore_sound(adj, next, marked);
        } else {
            assert(traversal_sound(adj, rest, depth)) by {
                assert forall|r: int| 0 <= r < adj.len() && !edge_into(adj, r) implies #[trigger] depth[r] == Some(
                    0nat,
                ) || pending_root(rest, r) by {
                    if depth[r] != Some(0nat) {
                        let i = choose|i: int| 0 <= i < stack.len() && #[trigger] stack[i] == (r as usize, 0nat);
                        if i < rest.len() {
                            assert(rest[i] == (r as usize, 0nat));
                        } else {
                            assert(node == r && hops == 0);
                            assert(depth[r] is Some);
                            assert(justified(adj, depth, r, depth[r]->0));
                            if depth[r]->0 > 0 {
                                lemma_step_is_edge(adj, depth, r, depth[r]->0);
                            }
                        }
                    }
                }
            }
            lemma_explore_sound(adj, rest, depth);
        }
    }
}

/// A node that is one step from another has an edge into it.
pub proof fn lemma_step_is_edge(adj: Seq<Seq<usize>>, depth: Seq<Option<nat>>, t: int, hops: nat)
    requires
        stepped_from(adj, depth, t, hops),
        0 <= t <= usize::MAX,
    ensures
        edge_into(adj, t),
{
    let s = choose|s: int|
        0 <= s < adj.len() && s < depth.len() && adj[s].contains(t as usize) && #[trigger] depth[s] == Some(
            (hops - 1) as nat,
        );
    let k = choose|k: int| 0 <= k < adj[s].len() && adj[s][k] == t as usize;
    assert(adj[s][k] == t);
}

/// Every root is among the first visits.
pub proof fn lemma_roots_are_pending(adj: Seq<Seq<usize>>, upto: int, r: int)
    requires
        0 <= r < upto <= usize::MAX,
        !edge_into(adj, r),
    ensures
        pending_root(root_entries(adj, upto), r),
        forall|i: int|
            0 <= i < root_entries(adj, upto).len() ==> (#[trigger] root_entries(adj, upto)[i]).0 < upto && !edge_into(
                adj,
                root_entries(adj, upto)[i].0 as int,
            ),
    decreases upto,
{
    lemma_root_entries_are_roots(adj, upto);
    let all = root_entries(adj, upto);
    if r == upto - 1 {
        assert(all[all.len() - 1] == (r as usize, 0nat));
    } else {
        lemma_roots_are_pending(adj, upto - 1, r);
        let front = root_entries(adj, upto - 1);
        let i = choose|i: int| 0 <= i < front.len() && #[trigger] front[i] == (r as usize, 0nat);
        assert(all[i] == front[i]);
    }
}

/// Every first visit names a root below `upto`.
pub proof fn lemma_root_entries_are_roots(adj: Seq<Seq<usize>>, upto: int)
    requires
        upto <= usize::MAX,
    ensures
        forall|i: int|
            0 <= i < root_entries(adj, upto).len() ==> (#[trigger] root_entries(adj, upto)[i]).0 < upto && !edge_into(
                adj,
                root_entries(adj, upto)[i].0 as int,
            ) && root_entries(adj, upto)[i].1 == 0,
    decreases upto,
{
    if upto > 0 {
        lemma_root_entries_are_roots(adj, upto - 1);
        let all = root_entries(adj, upto);
        let front = root_entries(adj, upto - 1);
        assert forall|i: int| 0 <= i < all.len() implies (#[trigger] all[i]).0 < upto && !edge_into(
            adj,
            all[i].0 as int,
        ) && all[i].1 == 0 by {
            if i < front.len() {
                assert(all[i] == front[i]);
            }
        }
    }
}

/// The depths are those of paths from roots: a root has depth 0, and a node
/// of depth `d > 0` is pointed to by a node of depth `d - 1`.
pub proof fn lemma_depths_follow_paths(adj: Seq<Seq<usize>>, v: int)
    requires
        0 <= v < adj.len(),
        adj.len() <= usize::MAX,
    ensures
        !edge_into(adj, v) ==> depth_of(adj, v) == 0,
        depth_of(adj, v) > 0 ==> exists|s: int|
            0 <= s < adj.len() && adj[s].contains(v as usize) && #[trigger] depth_of(adj, s) + 1 == depth_of(adj, v),
{
    let begin = Seq::new(adj.len(), |i: int| None::<nat>);
    let first = root_entries(adj, adj.len() as int);
    lemma_root_entries_are_roots(adj, adj.len() as int);
    assert(traversal_sound(adj, first, begin)) by {
        assert forall|r: int| 0 <= r < adj.len() && !edge_into(adj, r) implies #[trigger] begin[r] == Some(0nat)
            || pending_root(first, r) by {
            lemma_roots_are_pending(adj, adj.len() as int, r);
        }
    }
    lemma_explore_sound(adj, first, begin);
    let done = explored(adj);
    if !edge_into(adj, v) {
        assert(done[v] == Some(0nat) || pending_root(Seq::<(usize, nat)>::empty(), v));
    }
    if depth_of(adj, v) > 0 {
        assert(done[v] is Some);
        assert(justified(adj, done, v, done[v]->0));
        let s = choose|s: int|
            0 <= s < adj.len() && s < done.len() && adj[s].contains(v as usize) && #[trigger] done[s] == Some(
                (done[v]->0 - 1) as nat,
            );
        assert(depth_of(adj, s) + 1 == depth_of(adj, v));
    }
}

} // verus!
