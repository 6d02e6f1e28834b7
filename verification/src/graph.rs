//! The dependency graph over the registered components: which component
//! depends on which, how deep each lies below the roots, and the shape of
//! shortest paths between them.
//!
//! A component is addressed by its position in the registry. Edges run from a
//! component to the components it depends on.

use vstd::prelude::*;
use vstd::string::*;
use crate::measure::Measure;
use crate::ranking::{all_numbers, is_arrangement, is_descending, order_descending};
use crate::registry::{find_node, lemma_find_node, position_of, ComponentNode};
use crate::text::texts;

verus! {

/// The dependencies that one crate declares, by name.
#[derive(Debug, Clone)]
pub struct CrateDependencies {
    /// Name of the crate.
    pub name: String,
    /// Names of the crates it depends on, in declaration order.
    pub dependencies: Vec<String>,
}

/// Dependency edges as an external collaborator supplies them: for each
/// crate, the names it depends on.
#[derive(Debug, Clone)]
pub struct DependencyGraph {
    /// The crates, in the order they were given.
    pub crates: Vec<CrateDependencies>,
}

impl DependencyGraph {
    /// A graph without crates.
    pub fn new() -> (graph: Self)
        ensures
            graph.crates@.len() == 0,
    {
        DependencyGraph { crates: Vec::new() }
    }

    /// Adds a crate with its dependencies after those already given.
    pub fn add_crate(&mut self, name: &str, dependencies: Vec<String>)
        ensures
            final(self).crates@.len() == old(self).crates@.len() + 1,
            final(self).crates@.drop_last() == old(self).crates@,
            final(self).crates@.last().name@ == name@,
            final(self).crates@.last().dependencies == dependencies,
    {
        self.crates.push(CrateDependencies { name: String::from_str(name), dependencies });
        assert(self.crates@.drop_last() =~= old(self).crates@);
    }

    /// The crates, in the order they were given.
    pub fn all_crates(&self) -> (crates: &Vec<CrateDependencies>)
        ensures
            crates == self.crates,
    {
        &self.crates
    }
}

/// A score of a component, by name.
#[derive(Debug, Clone)]
pub struct NamedScore {
    /// Name of the component.
    pub name: String,
    /// Its score.
    pub score: Measure,
}

/// The depth of a component, by name.
#[derive(Debug, Clone)]
pub struct NamedDepth {
    /// Name of the component.
    pub name: String,
    /// Its depth below the roots.
    pub depth: usize,
}

/// Metrics of the dependency graph. Scores are kept as they were stored;
/// counts and depths are computed here.
#[derive(Debug, Clone)]
pub struct GraphMetrics {
    /// Importance score of each component.
    pub pagerank: Vec<NamedScore>,
    /// Betweenness centrality of each component.
    pub betweenness: Vec<NamedScore>,
    /// Depth of each component below the roots.
    pub depth_map: Vec<NamedDepth>,
    /// Number of components.
    pub total_nodes: usize,
    /// Number of edges between components.
    pub total_edges: usize,
    /// Edges divided by possible edges.
    pub density: Measure,
    /// Edges divided by components.
    pub avg_degree: Measure,
    /// The greatest depth.
    pub max_depth: usize,
}

impl GraphMetrics {
    /// Whether nothing was computed or stored: no scores, every number zero.
    pub open spec fn is_blank(self) -> bool {
        &&& self.pagerank@.len() == 0
        &&& self.betweenness@.len() == 0
        &&& self.depth_map@.len() == 0
        &&& self.total_nodes == 0
        &&& self.total_edges == 0
        &&& self.density.bits == 0
        &&& self.avg_degree.bits == 0
        &&& self.max_depth == 0
    }

    /// The scores of `entries`, in order.
    pub open spec fn scores_of(entries: Seq<NamedScore>) -> Seq<Measure> {
        Seq::new(entries.len(), |i: int| entries[i].score)
    }

    /// The names of those of `entries` whose score is above `threshold`, in
    /// order.
    pub open spec fn names_above(entries: Seq<NamedScore>, threshold: Measure) -> Seq<Seq<char>>
        decreases entries.len(),
    {
        if entries.len() == 0 {
            Seq::empty()
        } else {
            let front = Self::names_above(entries.drop_last(), threshold);
            if entries.last().score.spec_gt(threshold) {
                front.push(entries.last().name@)
            } else {
                front
            }
        }
    }

    /// Whether `top` holds the first entries of `entries` taken in `order`.
    pub open spec fn is_selection(entries: Seq<NamedScore>, order: Seq<usize>, top: Seq<NamedScore>) -> bool {
        &&& top.len() <= order.len()
        &&& forall|i: int|
            0 <= i < top.len() ==> (#[trigger] top[i]).name@ == entries[order[i] as int].name@ && top[i].score
                == entries[order[i] as int].score
    }

    /// The `n` components of highest importance, highest first; all of them
    /// when there are fewer. Components of equal score keep their order.
    pub fn top_by_pagerank(&self, n: usize) -> (top: Vec<NamedScore>)
        ensures
            top@.len() == if n <= self.pagerank@.len() {
                n as int
            } else {
                self.pagerank@.len() as int
            },
            exists|order: Seq<usize>|
                {
                    &&& is_arrangement(order, self.pagerank@.len())
                    &&& all_numbers(Self::scores_of(self.pagerank@)) ==> is_descending(
                        Self::scores_of(self.pagerank@),
                        order,
                    )
                    &&& Self::is_selection(self.pagerank@, order, top@)
                },
    {
        let len: usize = self.pagerank.len();
        let mut scores: Vec<Measure> = Vec::new();
        let mut i: usize = 0;
        while i < len
            invariant
                i <= len,
                len == self.pagerank@.len(),
                scores@.len() == i,
                forall|j: int| 0 <= j < i ==> #[trigger] scores@[j] == self.pagerank@[j].score,
            decreases len - i,
        {
            scores.push(self.pagerank[i].score);
            i += 1;
        }
        assert(scores@ =~= Self::scores_of(self.pagerank@));
        let order = order_descending(&scores);
        let take: usize = if n <= len {
            n
        } else {
            len
        };
        let mut top: Vec<NamedScore> = Vec::new();
        let mut k: usize = 0;
        while k < take
            invariant
                k <= take,
                take <= len,
                len == self.pagerank@.len(),
                is_arrangement(order@, len as nat),
                top@.len() == k,
                forall|j: int|
                    0 <= j < k ==> (#[trigger] top@[j]).name@ == self.pagerank@[order@[j] as int].name@ && top@[j].score
                        == self.pagerank@[order@[j] as int].score,
            decreases take - k,
        {
            let entry = &self.pagerank[order[k]];
            top.push(NamedScore { name: entry.name.clone(), score: entry.score });
            k += 1;
        }
        assert(Self::is_selection(self.pagerank@, order@, top@));
        top
    }

    /// The names of the components whose betweenness is above `threshold`.
    pub fn bottlenecks(&self, threshold: Measure) -> (names: Vec<String>)
        ensures
            texts(names@) == Self::names_above(self.betweenness@, threshold),
    {
        let mut names: Vec<String> = Vec::new();
        let mut i: usize = 0;
        assert(self.betweenness@.take(0) =~= Seq::<NamedScore>::empty());
        assert(texts(names@) =~= Seq::<Seq<char>>::empty());
        while i < self.betweenness.len()
            invariant
                i <= self.betweenness@.len(),
                texts(names@) == Self::names_above(self.betweenness@.take(i as int), threshold),
            decreases self.betweenness@.len() - i,
        {
            assert(self.betweenness@.take(i + 1).drop_last() =~= self.betweenness@.take(i as int));
            if self.betweenness[i].score.gt(&threshold) {
                let ghost before = texts(names@);
                names.push(self.betweenness[i].name.clone());
                assert(texts(names@) =~= before.push(self.betweenness@[i as int].name@));
            }
            i += 1;
        }
        assert(self.betweenness@.take(i as int) =~= self.betweenness@);
        names
    }

    /// Whether these metrics are `before` with counts and depths recomputed
    /// for the components `nodes` and their adjacency list `adj`: the number
    /// of nodes and of edges, the depth of every component under its name, in
    /// registry order, and the greatest depth. Scores are those of `before`.
    pub open spec fn is_computed_from(
        self,
        before: GraphMetrics,
        nodes: Seq<ComponentNode>,
        adj: Seq<Seq<usize>>,
    ) -> bool {
        &&& self.total_nodes == nodes.len()
        &&& self.total_edges == edge_total(adj)
        &&& self.depth_map@.len() == nodes.len()
        &&& forall|i: int|
            0 <= i < nodes.len() ==> (#[trigger] self.depth_map@[i]).name@ == nodes[i].name@
                && self.depth_map@[i].depth == crate::depth::depth_of(adj, i)
        &&& forall|i: int| 0 <= i < nodes.len() ==> crate::depth::depth_of(adj, i) <= self.max_depth
        &&& exists|i: int| 0 <= i < nodes.len() && crate::depth::depth_of(adj, i) == self.max_depth
        &&& self.pagerank == before.pagerank
        &&& self.betweenness == before.betweenness
        &&& self.density == before.density
        &&& self.avg_degree == before.avg_degree
    }

    /// Metrics with no scores and every number zero.
    pub fn new() -> (metrics: Self)
        ensures
            metrics.is_blank(),
    {
        GraphMetrics {
            pagerank: Vec::new(),
            betweenness: Vec::new(),
            depth_map: Vec::new(),
            total_nodes: 0,
            total_edges: 0,
            density: Measure { bits: 0 },
            avg_degree: Measure { bits: 0 },
            max_depth: 0,
        }
    }
}

/// The rows of an adjacency list: for each node, the nodes it points to.
pub open spec fn rows(adjacency: Seq<Vec<usize>>) -> Seq<Seq<usize>> {
    Seq::new(adjacency.len(), |i: int| adjacency[i]@)
}

/// Whether every edge of `adj` ends at one of its nodes.
pub open spec fn closed(adj: Seq<Seq<usize>>) -> bool {
    forall|s: int, k: int| 0 <= s < adj.len() && 0 <= k < adj[s].len() ==> #[trigger] adj[s][k] < adj.len()
}

/// The positions of those of `deps` that are registered, in the order of
/// `deps`. A name that is not registered is left out.
pub open spec fn resolved(nodes: Seq<ComponentNode>, deps: Seq<String>) -> Seq<usize>
    decreases deps.len(),
{
    if deps.len() == 0 {
        Seq::empty()
    } else {
        let front = resolved(nodes, deps.drop_last());
        match find_node(nodes, deps.last()@) {
            Some(t) => front.push(t as usize),
            None => front,
        }
    }
}

/// The edges that leave node `i`: the registered dependencies of every crate
/// of `crates` that bears the name of node `i`, in the order given.
pub open spec fn out_edges(nodes: Seq<ComponentNode>, crates: Seq<CrateDependencies>, i: int) -> Seq<
    usize,
>
    decreases crates.len(),
{
    if crates.len() == 0 {
        Seq::empty()
    } else {
        let front = out_edges(nodes, crates.drop_last(), i);
        if find_node(nodes, crates.last().name@) == Some(i) {
            front + resolved(nodes, crates.last().dependencies@)
        } else {
            front
        }
    }
}

/// The adjacency list of a registry and its dependency graph: one row for
/// each registered component, holding its edges to registered components.
/// Without a graph every row is empty.
pub open spec fn adjacency_of(nodes: Seq<ComponentNode>, graph: Option<DependencyGraph>) -> Seq<
    Seq<usize>,
> {
    Seq::new(
        nodes.len(),
        |i: int|
            match graph {
                Some(g) => out_edges(nodes, g.crates@, i),
                None => Seq::empty(),
            },
    )
}

/// The number of edges of `adj`.
pub open spec fn edge_total(adj: Seq<Seq<usize>>) -> nat
    decreases adj.len(),
{
    if adj.len() == 0 {
        0
    } else {
        edge_total(adj.drop_last()) + adj.last().len()
    }
}

/// Every resolved dependency is the position of a registered component.
pub proof fn lemma_resolved_in_range(nodes: Seq<ComponentNode>, deps: Seq<String>)
    requires
        nodes.len() <= usize::MAX,
    ensures
        forall|k: int| 0 <= k < resolved(nodes, deps).len() ==> #[trigger] resolved(nodes, deps)[k] < nodes.len(),
    decreases deps.len(),
{
    if deps.len() > 0 {
        lemma_resolved_in_range(nodes, deps.drop_last());
        lemma_find_node(nodes, deps.last()@);
        let all = resolved(nodes, deps);
        let front = resolved(nodes, deps.drop_last());
        assert forall|k: int| 0 <= k < all.len() implies #[trigger] all[k] < nodes.len() by {
            if k < front.len() {
                assert(all[k] == front[k]);
            }
        }
    }
}

/// Every edge of the adjacency list ends at a registered component.
pub proof fn lemma_out_edges_in_range(nodes: Seq<ComponentNode>, crates: Seq<CrateDependencies>, i: int)
    requires
        nodes.len() <= usize::MAX,
    ensures
        forall|k: int| 0 <= k < out_edges(nodes, crates, i).len() ==> #[trigger] out_edges(nodes, crates, i)[k] < nodes.len(),
    decreases crates.len(),
{
    if crates.len() > 0 {
        lemma_out_edges_in_range(nodes, crates.drop_last(), i);
        lemma_resolved_in_range(nodes, crates.last().dependencies@);
        let all = out_edges(nodes, crates, i);
        let front = out_edges(nodes, crates.drop_last(), i);
        let tail = resolved(nodes, crates.last().dependencies@);
        assert forall|k: int| 0 <= k < all.len() implies #[trigger] all[k] < nodes.len() by {
            if k < front.len() {
                assert(all[k] == front[k]);
            } else {
                assert(all[k] == tail[k - front.len()]);
            }
        }
    }
}

/// The adjacency list of a registry is closed.
pub proof fn lemma_adjacency_closed(nodes: Seq<ComponentNode>, graph: Option<DependencyGraph>)
    requires
        nodes.len() <= usize::MAX,
    ensures
        closed(adjacency_of(nodes, graph)),
        adjacency_of(nodes, graph).len() == nodes.len(),
{
    let adj = adjacency_of(nodes, graph);
    assert forall|s: int, k: int| 0 <= s < adj.len() && 0 <= k < adj[s].len() implies #[trigger] adj[s][k] < adj.len() by {
        match graph {
            Some(g) => {
                lemma_out_edges_in_range(nodes, g.crates@, s);
            },
            None => {},
        }
    }
}

/// Without a dependency graph there is no edge.
pub proof fn lemma_no_graph_no_edges(nodes: Seq<ComponentNode>)
    ensures
        edge_total(adjacency_of(nodes, None)) == 0,
        forall|i: int| 0 <= i < nodes.len() ==> #[trigger] adjacency_of(nodes, None)[i].len() == 0,
{
    lemma_empty_rows_no_edges(adjacency_of(nodes, None));
}

/// A graph whose rows are all empty has no edge, and a graph without an edge
/// has only empty rows.
pub proof fn lemma_empty_rows_no_edges(adj: Seq<Seq<usize>>)
    ensures
        edge_total(adj) == 0 <==> forall|i: int| 0 <= i < adj.len() ==> #[trigger] adj[i].len() == 0,
    decreases adj.len(),
{
    if adj.len() > 0 {
        let front = adj.drop_last();
        lemma_empty_rows_no_edges(front);
        assert(forall|i: int| 0 <= i < front.len() ==> front[i] == adj[i]);
        if edge_total(adj) == 0 {
            assert forall|i: int| 0 <= i < adj.len() implies #[trigger] adj[i].len() == 0 by {
                if i < front.len() {
                    assert(front[i].len() == 0);
                }
            }
        }
    }
}

/// The positions of the registered names among `deps`.
pub fn resolve(nodes: &Vec<ComponentNode>, deps: &Vec<String>) -> (targets: Vec<usize>)
    ensures
        targets@ == resolved(nodes@, deps@),
{
    let mut targets: Vec<usize> = Vec::new();
    let mut k: usize = 0;
    assert(deps@.take(0) =~= Seq::<String>::empty());
    while k < deps.len()
        invariant
            k <= deps.len(),
            targets@ == resolved(nodes@, deps@.take(k as int)),
        decreases deps.len() - k,
    {
        proof {
            assert(deps@.take(k + 1).drop_last() =~= deps@.take(k as int));
        }
        match position_of(nodes, deps[k].as_str()) {
            Some(t) => {
                targets.push(t);
            },
            None => {},
        }
        k += 1;
    }
    assert(deps@.take(k as int) =~= deps@);
    targets
}

/// Builds the adjacency list of the registered components from the
/// dependency graph. Edges to names that are not registered are dropped, and
/// so are the edges of crates that are not registered.
pub fn build_adjacency(nodes: &Vec<ComponentNode>, graph: Option<&DependencyGraph>) -> (adjacency: Vec<
    Vec<usize>,
>)
    ensures
        rows(adjacency@) == adjacency_of(
            nodes@,
            match graph {
                Some(g) => Some(*g),
                None => None,
            },
        ),
        closed(rows(adjacency@)),
        adjacency@.len() == nodes@.len(),
{
    let n: usize = nodes.len();
    let mut adjacency: Vec<Vec<usize>> = Vec::new();
    let mut i: usize = 0;
    while i < n
        invariant
            i <= n,
            adjacency@.len() == i,
            forall|j: int| 0 <= j < i ==> (#[trigger] adjacency@[j])@.len() == 0,
        decreases n - i,
    {
        adjacency.push(Vec::new());
        i += 1;
    }
    let ghost spec_graph: Option<DependencyGraph> = match graph {
        Some(g) => Some(*g),
        None => None,
    };
    match graph {
        Some(g) => {
            let mut c: usize = 0;
            assert(g.crates@.take(0) =~= Seq::<CrateDependencies>::empty());
            while c < g.crates.len()
                invariant
                    c <= g.crates.len(),
                    n == nodes@.len(),
                    adjacency@.len() == n,
                    forall|j: int|
                        0 <= j < n ==> (#[trigger] adjacency@[j])@ == out_edges(
                            nodes@,
                            g.crates@.take(c as int),
                            j,
                        ),
                decreases g.crates.len() - c,
            {
                proof {
                    assert(g.crates@.take(c + 1).drop_last() =~= g.crates@.take(c as int));
                    lemma_find_node(nodes@, g.crates@[c as int].name@);
                }
                match position_of(nodes, g.crates[c].name.as_str()) {
                    Some(from) => {
                        let targets = resolve(nodes, &g.crates[c].dependencies);
                        let ghost before = adjacency@[from as int]@;
                        let mut k: usize = 0;
                        while k < targets.len()
                            invariant
                                k <= targets.len(),
                                from < n,
                                adjacency@.len() == n,
                                adjacency@[from as int]@ == before + targets@.take(k as int),
                                forall|j: int|
                                    0 <= j < n && j != from ==> (#[trigger] adjacency@[j])@ == out_edges(
                                        nodes@,
                                        g.crates@.take(c as int),
                                        j,
                                    ),
                            decreases targets.len() - k,
                        {
                            adjacency[from].push(targets[k]);
                            k += 1;
                            assert(adjacency@[from as int]@ =~= before + targets@.take(k as int));
                        }
                        assert(targets@.take(k as int) =~= targets@);
                    },
                    None => {},
                }
                c += 1;
            }
            assert(g.crates@.take(c as int) =~= g.crates@);
        },
        None => {},
    }
    proof {
        let built = rows(adjacency@);
        let wanted = adjacency_of(nodes@, spec_graph);
        assert forall|j: int| 0 <= j < n implies built[j] =~= wanted[j] by {
            assert(built[j] == adjacency@[j]@);
        }
        assert(built =~= wanted);
        lemma_adjacency_closed(nodes@, spec_graph);
    }
    adjacency
}

/// Counts the edges of an adjacency list.
pub fn count_edges(adjacency: &Vec<Vec<usize>>) -> (total: usize)
    requires
        edge_total(rows(adjacency@)) <= usize::MAX,
    ensures
        total == edge_total(rows(adjacency@)),
{
    let mut total: usize = 0;
    let mut i: usize = 0;
    let ghost all = rows(adjacency@);
    assert(all.take(0) =~= Seq::<Seq<usize>>::empty());
    while i < adjacency.len()
        invariant
            i <= adjacency.len(),
            all == rows(adjacency@),
            total == edge_total(all.take(i as int)),
            edge_total(all) <= usize::MAX,
        decreases adjacency.len() - i,
    {
        proof {
            assert(all.take(i + 1).drop_last() =~= all.take(i as int));
            lemma_edge_total_prefix(all, i + 1);
        }
        total = total + adjacency[i].len();
        i += 1;
    }
    assert(all.take(i as int) =~= all);
    total
}

/// A prefix of a graph holds no more edges than the graph.
pub proof fn lemma_edge_total_prefix(adj: Seq<Seq<usize>>, k: int)
    requires
        0 <= k <= adj.len(),
    ensures
        edge_total(adj.take(k)) <= edge_total(adj),
    decreases adj.len() - k,
{
    if k < adj.len() {
        assert(adj.take(k + 1).drop_last() =~= adj.take(k));
        lemma_edge_total_prefix(adj, k + 1);
    } else {
        assert(adj.take(k) =~= adj);
    }
}

/// The nodes below `upto` that have no outgoing edge, in rising order.
pub open spec fn dangling_below(adj: Seq<Seq<usize>>, upto: int) -> Seq<usize>
    decreases upto,
{
    if upto <= 0 {
        Seq::empty()
    } else {
        let front = dangling_below(adj, upto - 1);
        if adj[upto - 1].len() == 0 {
            front.push((upto - 1) as usize)
        } else {
            front
        }
    }
}

/// The nodes below `upto` that have an edge to `node`, in rising order. A
/// node with several edges to `node` is listed once.
pub open spec fn sources_below(adj: Seq<Seq<usize>>, node: usize, upto: int) -> Seq<usize>
    decreases upto,
{
    if upto <= 0 {
        Seq::empty()
    } else {
        let front = sources_below(adj, node, upto - 1);
        if adj[upto - 1].contains(node) {
            front.push((upto - 1) as usize)
        } else {
            front
        }
    }
}

/// The dangling nodes: those without an outgoing edge. Their importance is
/// spread evenly over all nodes.
pub fn dangling_nodes(adjacency: &Vec<Vec<usize>>) -> (dangling: Vec<usize>)
    ensures
        dangling@ == dangling_below(rows(adjacency@), adjacency@.len() as int),
{
    let mut dangling: Vec<usize> = Vec::new();
    let mut i: usize = 0;
    while i < adjacency.len()
        invariant
            i <= adjacency@.len(),
            dangling@ == dangling_below(rows(adjacency@), i as int),
        decreases adjacency@.len() - i,
    {
        assert(rows(adjacency@)[i as int] == adjacency@[i as int]@);
        if adjacency[i].len() == 0 {
            dangling.push(i);
        }
        i += 1;
    }
    dangling
}

/// Whether `row` holds an edge to `node`.
pub fn links_to(row: &Vec<usize>, node: usize) -> (found: bool)
    ensures
        found == row@.contains(node),
{
    let mut k: usize = 0;
    while k < row.len()
        invariant
            k <= row@.len(),
            forall|j: int| 0 <= j < k ==> row@[j] != node,
        decreases row@.len() - k,
    {
        if row[k] == node {
            return true;
        }
        k += 1;
    }
    false
}

/// The nodes that link to `node`, each of which passes on its importance
/// divided by the number of its edges.
pub fn incoming_sources(adjacency: &Vec<Vec<usize>>, node: usize) -> (sources: Vec<usize>)
    ensures
        sources@ == sources_below(rows(adjacency@), node, adjacency@.len() as int),
        forall|k: int| 0 <= k < sources@.len() ==> (#[trigger] sources@[k]) < adjacency@.len() && adjacency@[sources@[k] as int]@.len() > 0,
{
    let mut sources: Vec<usize> = Vec::new();
    let mut i: usize = 0;
    while i < adjacency.len()
        invariant
            i <= adjacency@.len(),
            sources@ == sources_below(rows(adjacency@), node, i as int),
            forall|k: int| 0 <= k < sources@.len() ==> (#[trigger] sources@[k]) < adjacency@.len() && adjacency@[sources@[k] as int]@.len() > 0,
        decreases adjacency@.len() - i,
    {
        assert(rows(adjacency@)[i as int] == adjacency@[i as int]@);
        if links_to(&adjacency[i], node) {
            sources.push(i);
        }
        i += 1;
    }
    sources
}

/// The divisor that turns summed pair dependencies into betweenness: the
/// number of ordered pairs of other nodes, or 1 for fewer than three nodes.
pub open spec fn pair_count(n: nat) -> nat {
    if n > 2 {
        ((n - 1) * (n - 2)) as nat
    } else {
        1
    }
}

/// The divisor of betweenness for a graph of `n` nodes.
pub fn betweenness_divisor(n: usize) -> (divisor: usize)
    requires
        pair_count(n as nat) <= usize::MAX,
    ensures
        divisor == pair_count(n as nat),
        divisor >= 1,
{
    if n > 2 {
        assert((n - 1) * (n - 2) >= 1) by (nonlinear_arith)
            requires
                n > 2,
        ;
        (n - 1) * (n - 2)
    } else {
        1
    }
}

/// The number of edges that a graph of `n` nodes can hold, each node linked
/// to every other; what density divides by.
pub open spec fn possible_edges(n: nat) -> nat {
    if n == 0 {
        0
    } else {
        (n * (n - 1)) as nat
    }
}

/// The number of possible edges among `n` nodes.
pub fn max_edges(n: usize) -> (possible: usize)
    requires
        possible_edges(n as nat) <= usize::MAX,
    ensures
        possible == possible_edges(n as nat),
{
    if n == 0 {
        0
    } else {
        n * (n - 1)
    }
}

} // verus!
