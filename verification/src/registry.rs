//! The registry of components, and the health summary drawn from it.
//!
//! Components are kept in the order in which their names were first added.
//! No two components of a registry share a name.

use vstd::prelude::*;
use vstd::string::*;
use crate::anomaly::Anomaly;
use crate::depth::{compute_depth, depth_of, max_depth};
use crate::graph::{adjacency_of, build_adjacency, count_edges, edge_total, DependencyGraph, GraphMetrics, NamedDepth, NamedScore};
use crate::health::{andon_of_counts, health_of_grade, AndonStatus, HealthStatus, QualityGrade, StackLayer};
use crate::measure::Measure;
use crate::text::same_text;

verus! {

/// Encoding of 85.0, the demo score that a component has to reach.
pub const DEMO_THRESHOLD_BITS: u64 = 0x4055_4000_0000_0000;

/// Quality metrics of one component, as an external scoring step measured
/// them.
#[derive(Debug, Clone, Copy)]
pub struct ComponentMetrics {
    /// Demo score, 0 to 100.
    pub demo_score: Measure,
    /// Test coverage in percent.
    pub coverage: Measure,
    /// Mutation score in percent.
    pub mutation_score: Measure,
    /// Average cyclomatic complexity.
    pub complexity_avg: Measure,
    /// Number of self-admitted debt annotations.
    pub satd_count: u32,
    /// Dead code in percent.
    pub dead_code_pct: Measure,
    /// Overall grade.
    pub grade: QualityGrade,
}

impl Default for ComponentMetrics {
    /// All measurements zero and the lowest grade.
    fn default() -> (metrics: Self)
        ensures
            metrics == ComponentMetrics::zeroed(),
    {
        ComponentMetrics {
            demo_score: Measure { bits: 0 },
            coverage: Measure { bits: 0 },
            mutation_score: Measure { bits: 0 },
            complexity_avg: Measure { bits: 0 },
            satd_count: 0,
            dead_code_pct: Measure { bits: 0 },
            grade: QualityGrade::F,
        }
    }
}

impl ComponentMetrics {
    /// The metrics of a component of which nothing was measured.
    pub open spec fn zeroed() -> ComponentMetrics {
        ComponentMetrics {
            demo_score: Measure { bits: 0 },
            coverage: Measure { bits: 0 },
            mutation_score: Measure { bits: 0 },
            complexity_avg: Measure { bits: 0 },
            satd_count: 0,
            dead_code_pct: Measure { bits: 0 },
            grade: QualityGrade::F,
        }
    }

    /// Whether the demo score is at least 85.
    pub open spec fn spec_meets_threshold(self) -> bool {
        self.demo_score.spec_ge(Measure { bits: DEMO_THRESHOLD_BITS })
    }

    /// Metrics with the given demo score and the grade that was derived from
    /// it; every other measurement is zero.
    pub fn with_demo_score(demo_score: Measure, grade: QualityGrade) -> (metrics: Self)
        ensures
            metrics == (ComponentMetrics { demo_score, grade, ..ComponentMetrics::zeroed() }),
    {
        ComponentMetrics {
            demo_score,
            coverage: Measure { bits: 0 },
            mutation_score: Measure { bits: 0 },
            complexity_avg: Measure { bits: 0 },
            satd_count: 0,
            dead_code_pct: Measure { bits: 0 },
            grade,
        }
    }

    /// Whether the demo score reaches the threshold of 85.
    pub fn meets_threshold(&self) -> (met: bool)
        ensures
            met == self.spec_meets_threshold(),
    {
        let threshold = Measure::from_bits(DEMO_THRESHOLD_BITS);
        self.demo_score.ge(&threshold)
    }
}

/// A component of the stack.
#[derive(Debug, Clone)]
pub struct ComponentNode {
    /// Unique name.
    pub name: String,
    /// Version.
    pub version: String,
    /// Tier of the stack.
    pub layer: StackLayer,
    /// Health, as last set.
    pub health: HealthStatus,
    /// Metrics.
    pub metrics: ComponentMetrics,
}

impl ComponentNode {
    /// A component whose health is unknown and whose metrics are zero.
    pub fn new(name: &str, version: &str, layer: StackLayer) -> (node: Self)
        ensures
            node.name@ == name@,
            node.version@ == version@,
            node.layer == layer,
            node.health == HealthStatus::Unknown,
            node.metrics == ComponentMetrics::zeroed(),
    {
        ComponentNode {
            name: String::from_str(name),
            version: String::from_str(version),
            layer,
            health: HealthStatus::Unknown,
            metrics: ComponentMetrics::default(),
        }
    }

    /// Sets the health from the grade in the metrics. Health follows the
    /// metrics only through this call.
    pub fn update_health(&mut self)
        ensures
            final(self).health == health_of_grade(old(self).metrics.grade),
            final(self).health != HealthStatus::Unknown,
            final(self).name == old(self).name,
            final(self).version == old(self).version,
            final(self).layer == old(self).layer,
            final(self).metrics == old(self).metrics,
    {
        self.health = HealthStatus::from_grade(self.metrics.grade);
    }
}

/// The first position in `nodes` of a component called `name`.
pub open spec fn find_node(nodes: Seq<ComponentNode>, name: Seq<char>) -> Option<int>
    decreases nodes.len(),
{
    if nodes.len() == 0 {
        None
    } else {
        match find_node(nodes.drop_last(), name) {
            Some(i) => Some(i),
            None => if nodes.last().name@ == name {
                Some(nodes.len() - 1)
            } else {
                None
            },
        }
    }
}

/// Whether no two components of `nodes` share a name.
pub open spec fn names_distinct(nodes: Seq<ComponentNode>) -> bool {
    forall|i: int, j: int|
        0 <= i < nodes.len() && 0 <= j < nodes.len() && i != j ==> nodes[i].name@ != nodes[j].name@
}

/// The number of components of `nodes` whose health is `status`.
pub open spec fn count_health(nodes: Seq<ComponentNode>, status: HealthStatus) -> nat
    decreases nodes.len(),
{
    if nodes.len() == 0 {
        0
    } else {
        count_health(nodes.drop_last(), status) + if nodes.last().health == status {
            1nat
        } else {
            0nat
        }
    }
}

/// What [`find_node`] finds is the first component of that name, and it
/// finds none only where there is none.
pub proof fn lemma_find_node(nodes: Seq<ComponentNode>, name: Seq<char>)
    ensures
        match find_node(nodes, name) {
            Some(i) => 0 <= i < nodes.len() && nodes[i].name@ == name && forall|j: int|
                0 <= j < i ==> nodes[j].name@ != name,
            None => forall|j: int| 0 <= j < nodes.len() ==> nodes[j].name@ != name,
        },
    decreases nodes.len(),
{
    if nodes.len() > 0 {
        let front = nodes.drop_last();
        lemma_find_node(front, name);
        assert(forall|j: int| 0 <= j < front.len() ==> front[j] == nodes[j]);
    }
}

/// Every component has exactly one of the four statuses.
pub proof fn lemma_counts_add_up(nodes: Seq<ComponentNode>)
    ensures
        count_health(nodes, HealthStatus::Green) + count_health(nodes, HealthStatus::Yellow)
            + count_health(nodes, HealthStatus::Red) + count_health(nodes, HealthStatus::Unknown)
            == nodes.len(),
    decreases nodes.len(),
{
    if nodes.len() > 0 {
        lemma_counts_add_up(nodes.drop_last());
    }
}

/// The position in `nodes` of the component called `name`.
pub fn position_of(nodes: &Vec<ComponentNode>, name: &str) -> (found: Option<usize>)
    ensures
        match found {
            Some(i) => find_node(nodes@, name@) == Some(i as int),
            None => find_node(nodes@, name@) is None,
        },
{
    let mut i: usize = 0;
    assert(nodes@.take(0) =~= Seq::<ComponentNode>::empty());
    while i < nodes.len()
        invariant
            i <= nodes.len(),
            find_node(nodes@.take(i as int), name@) is None,
        decreases nodes.len() - i,
    {
        let same = same_text(nodes[i].name.as_str(), name);
        proof {
            assert(nodes@.take(i + 1).drop_last() =~= nodes@.take(i as int));
            if same {
                lemma_find_node_prefix(nodes@, name@, i + 1);
            }
        }
        if same {
            return Some(i);
        }
        i += 1;
    }
    assert(nodes@.take(i as int) =~= nodes@);
    None
}

/// A component found in a prefix of `nodes` is the one found in `nodes`.
pub proof fn lemma_find_node_prefix(nodes: Seq<ComponentNode>, name: Seq<char>, k: int)
    requires
        0 <= k <= nodes.len(),
        find_node(nodes.take(k), name) is Some,
    ensures
        find_node(nodes, name) == find_node(nodes.take(k), name),
    decreases nodes.len() - k,
{
    if k < nodes.len() {
        assert(nodes.take(k + 1).drop_last() =~= nodes.take(k));
        lemma_find_node_prefix(nodes, name, k + 1);
    } else {
        assert(nodes.take(k) =~= nodes);
    }
}

/// Counts of components by health, and the status of the stack.
#[derive(Debug, Clone, Copy)]
pub struct HealthSummary {
    /// Number of components.
    pub total_components: usize,
    /// Number of green components.
    pub green_count: usize,
    /// Number of yellow components.
    pub yellow_count: usize,
    /// Number of red components.
    pub red_count: usize,
    /// Number of components whose health is unknown.
    pub unknown_count: usize,
    /// Status of the stack.
    pub andon_status: AndonStatus,
}

impl HealthSummary {
    /// Whether nothing is red or yellow and every component is green.
    pub open spec fn spec_all_healthy(self) -> bool {
        self.red_count == 0 && self.yellow_count == 0 && self.green_count == self.total_components
    }

    /// Whether every component is healthy.
    pub fn all_healthy(&self) -> (healthy: bool)
        ensures
            healthy == self.spec_all_healthy(),
    {
        self.red_count == 0 && self.yellow_count == 0 && self.green_count == self.total_components
    }
}

/// The summary of a registry that holds `nodes`.
pub open spec fn summary_of(nodes: Seq<ComponentNode>) -> HealthSummary {
    HealthSummary {
        total_components: nodes.len() as usize,
        green_count: count_health(nodes, HealthStatus::Green) as usize,
        yellow_count: count_health(nodes, HealthStatus::Yellow) as usize,
        red_count: count_health(nodes, HealthStatus::Red) as usize,
        unknown_count: count_health(nodes, HealthStatus::Unknown) as usize,
        andon_status: andon_of_counts(
            count_health(nodes, HealthStatus::Green),
            count_health(nodes, HealthStatus::Yellow),
            count_health(nodes, HealthStatus::Red),
            nodes.len(),
        ),
    }
}

/// Counts the components by health and derives the status of the stack.
pub fn summarize(nodes: &Vec<ComponentNode>) -> (summary: HealthSummary)
    ensures
        summary == summary_of(nodes@),
{
    let total: usize = nodes.len();
    let mut green: usize = 0;
    let mut yellow: usize = 0;
    let mut red: usize = 0;
    let mut i: usize = 0;
    assert(nodes@.take(0) =~= Seq::<ComponentNode>::empty());
    while i < total
        invariant
            i <= total,
            total == nodes@.len(),
            green == count_health(nodes@.take(i as int), HealthStatus::Green),
            yellow == count_health(nodes@.take(i as int), HealthStatus::Yellow),
            red == count_health(nodes@.take(i as int), HealthStatus::Red),
            green + yellow + red <= i,
        decreases total - i,
    {
        proof {
            assert(nodes@.take(i + 1).drop_last() =~= nodes@.take(i as int));
        }
        match nodes[i].health {
            HealthStatus::Green => {
                green += 1;
            },
            HealthStatus::Yellow => {
                yellow += 1;
            },
            HealthStatus::Red => {
                red += 1;
            },
            HealthStatus::Unknown => {},
        }
        i += 1;
    }
    proof {
        assert(nodes@.take(total as int) =~= nodes@);
        lemma_counts_add_up(nodes@);
    }
    HealthSummary {
        total_components: total,
        green_count: green,
        yellow_count: yellow,
        red_count: red,
        unknown_count: total - (green + yellow + red),
        andon_status: AndonStatus::from_counts(green, yellow, red, total),
    }
}

/// The diagnostics engine: the registry, the dependency graph, the metrics
/// that were last computed, and the anomalies that were recorded.
#[derive(Debug)]
pub struct StackDiagnostics {
    components: Vec<ComponentNode>,
    graph: Option<DependencyGraph>,
    metrics: GraphMetrics,
    anomalies: Vec<Anomaly>,
}

impl StackDiagnostics {
    /// The components, in the order in which their names were first added.
    pub closed spec fn nodes(&self) -> Seq<ComponentNode> {
        self.components@
    }

    /// The dependency graph, if one was set.
    pub closed spec fn dependency_graph(&self) -> Option<DependencyGraph> {
        self.graph
    }

    /// The metrics as last stored.
    pub closed spec fn stored_metrics(&self) -> GraphMetrics {
        self.metrics
    }

    /// The recorded anomalies, oldest first.
    pub closed spec fn recorded_anomalies(&self) -> Seq<Anomaly> {
        self.anomalies@
    }

    /// No two components share a name.
    #[verifier::type_invariant]
    pub closed spec fn well_formed(&self) -> bool {
        names_distinct(self.components@)
    }

    /// An engine without components, graph or anomalies.
    pub fn new() -> (engine: Self)
        ensures
            engine.nodes().len() == 0,
            engine.dependency_graph() is None,
            engine.recorded_anomalies().len() == 0,
            engine.stored_metrics().is_blank(),
    {
        StackDiagnostics {
            components: Vec::new(),
            graph: None,
            metrics: GraphMetrics::new(),
            anomalies: Vec::new(),
        }
    }

    /// Adds a component, or replaces the component of the same name in its
    /// place.
    pub fn add_component(&mut self, node: ComponentNode)
        ensures
            final(self).nodes() == match find_node(old(self).nodes(), node.name@) {
                Some(i) => old(self).nodes().update(i, node),
                None => old(self).nodes().push(node),
            },
            final(self).dependency_graph() == old(self).dependency_graph(),
            final(self).stored_metrics() == old(self).stored_metrics(),
            final(self).recorded_anomalies() == old(self).recorded_anomalies(),
    {
        proof {
            use_type_invariant(&*self);
            lemma_find_node(self.components@, node.name@);
        }
        let found = position_of(&self.components, node.name.as_str());
        let mut components: Vec<ComponentNode> = Vec::new();
        std::mem::swap(&mut components, &mut self.components);
        match found {
            Some(i) => {
                components[i] = node;
            },
            None => {
                components.push(node);
            },
        }
        self.components = components;
    }

    /// The component called `name`, if the registry holds one.
    pub fn get_component(&self, name: &str) -> (found: Option<&ComponentNode>)
        ensures
            match found {
                Some(node) => find_node(self.nodes(), name@) is Some && *node == self.nodes()[find_node(
                    self.nodes(),
                    name@,
                )->0] && node.name@ == name@,
                None => find_node(self.nodes(), name@) is None,
            },
            found is Some <==> exists|i: int|
                0 <= i < self.nodes().len() && self.nodes()[i].name@ == name@,
    {
        proof {
            lemma_find_node(self.components@, name@);
        }
        match position_of(&self.components, name) {
            Some(i) => Some(&self.components[i]),
            None => None,
        }
    }

    /// All components, in registry order; no two share a name.
    pub fn components(&self) -> (all: &Vec<ComponentNode>)
        ensures
            all@ == self.nodes(),
            names_distinct(all@),
    {
        proof {
            use_type_invariant(self);
        }
        &self.components
    }

    /// The number of components.
    pub fn component_count(&self) -> (count: usize)
        ensures
            count == self.nodes().len(),
    {
        self.components.len()
    }

    /// Sets the dependency graph, replacing an earlier one.
    pub fn set_graph(&mut self, graph: DependencyGraph)
        ensures
            final(self).dependency_graph() == Some(graph),
            final(self).nodes() == old(self).nodes(),
            final(self).stored_metrics() == old(self).stored_metrics(),
            final(self).recorded_anomalies() == old(self).recorded_anomalies(),
    {
        proof {
            use_type_invariant(&*self);
        }
        self.graph = Some(graph);
    }

    /// The dependency graph, if one was set.
    pub fn graph(&self) -> (graph: Option<&DependencyGraph>)
        ensures
            match graph {
                Some(g) => self.dependency_graph() == Some(*g),
                None => self.dependency_graph() is None,
            },
    {
        self.graph.as_ref()
    }

    /// The metrics as last computed or stored. They are not refreshed when
    /// the registry changes.
    pub fn metrics(&self) -> (metrics: &GraphMetrics)
        ensures
            *metrics == self.stored_metrics(),
    {
        &self.metrics
    }

    /// Stores scores that were computed from the graph: importance and
    /// betweenness of each component, density and average degree. Counts and
    /// depths stay as they are.
    pub fn store_scores(
        &mut self,
        pagerank: Vec<NamedScore>,
        betweenness: Vec<NamedScore>,
        density: Measure,
        avg_degree: Measure,
    )
        ensures
            final(self).stored_metrics().pagerank == pagerank,
            final(self).stored_metrics().betweenness == betweenness,
            final(self).stored_metrics().density == density,
            final(self).stored_metrics().avg_degree == avg_degree,
            final(self).stored_metrics().depth_map == old(self).stored_metrics().depth_map,
            final(self).stored_metrics().total_nodes == old(self).stored_metrics().total_nodes,
            final(self).stored_metrics().total_edges == old(self).stored_metrics().total_edges,
            final(self).stored_metrics().max_depth == old(self).stored_metrics().max_depth,
            final(self).nodes() == old(self).nodes(),
            final(self).dependency_graph() == old(self).dependency_graph(),
            final(self).recorded_anomalies() == old(self).recorded_anomalies(),
    {
        proof {
            use_type_invariant(&*self);
        }
        let mut metrics = GraphMetrics::new();
        std::mem::swap(&mut metrics, &mut self.metrics);
        metrics.pagerank = pagerank;
        metrics.betweenness = betweenness;
        metrics.density = density;
        metrics.avg_degree = avg_degree;
        self.metrics = metrics;
    }

    /// The adjacency list of the registry and its graph.
    pub fn adjacency(&self) -> (adjacency: Vec<Vec<usize>>)
        ensures
            crate::graph::rows(adjacency@) == adjacency_of(self.nodes(), self.dependency_graph()),
            crate::graph::closed(crate::graph::rows(adjacency@)),
            adjacency@.len() == self.nodes().len(),
    {
        build_adjacency(&self.components, self.graph.as_ref())
    }

    /// Recomputes the counts and depths of the graph from the registry and
    /// the dependency graph as they are now, and returns the metrics. With
    /// an empty registry the metrics are left as they were. Stored scores
    /// are never touched.
    pub fn compute_metrics(&mut self) -> (metrics: &GraphMetrics)
        requires
            edge_total(adjacency_of(old(self).nodes(), old(self).dependency_graph())) <= usize::MAX,
        ensures
            *metrics == final(self).stored_metrics(),
            final(self).nodes() == old(self).nodes(),
            final(self).dependency_graph() == old(self).dependency_graph(),
            final(self).recorded_anomalies() == old(self).recorded_anomalies(),
            old(self).nodes().len() == 0 ==> final(self).stored_metrics() == old(self).stored_metrics(),
            old(self).nodes().len() > 0 ==> final(self).stored_metrics().is_computed_from(
                old(self).stored_metrics(),
                old(self).nodes(),
                adjacency_of(old(self).nodes(), old(self).dependency_graph()),
            ),
    {
        proof {
            use_type_invariant(&*self);
        }
        let n: usize = self.components.len();
        if n == 0 {
            return &self.metrics;
        }
        let adjacency = build_adjacency(&self.components, self.graph.as_ref());
        let depths = compute_depth(&adjacency);
        let total_edges = count_edges(&adjacency);
        let deepest = max_depth(&depths);
        let mut depth_map: Vec<NamedDepth> = Vec::new();
        let mut i: usize = 0;
        while i < n
            invariant
                i <= n,
                n == self.components@.len(),
                depths@.len() == n,
                depth_map@.len() == i,
                forall|j: int|
                    0 <= j < i ==> (#[trigger] depth_map@[j]).name@ == self.components@[j].name@ && depth_map@[j].depth
                        == depths@[j],
            decreases n - i,
        {
            depth_map.push(NamedDepth { name: self.components[i].name.clone(), depth: depths[i] });
            i += 1;
        }
        proof {
            let adj = adjacency_of(self.components@, self.graph);
            assert(crate::graph::rows(adjacency@) == adj);
            let w = choose|w: int| 0 <= w < depths@.len() && #[trigger] depths@[w] == deepest;
            assert(depth_of(adj, w) == deepest);
            assert forall|j: int| 0 <= j < n implies depth_of(adj, j) <= deepest by {
                assert(depths@[j] <= deepest);
            }
        }
        let mut metrics = GraphMetrics::new();
        std::mem::swap(&mut metrics, &mut self.metrics);
        metrics.total_nodes = n;
        metrics.total_edges = total_edges;
        metrics.depth_map = depth_map;
        metrics.max_depth = deepest;
        self.metrics = metrics;
        &self.metrics
    }

    /// The recorded anomalies, oldest first.
    pub fn anomalies(&self) -> (list: &Vec<Anomaly>)
        ensures
            list@ == self.recorded_anomalies(),
    {
        &self.anomalies
    }

    /// Records an anomaly after those already recorded.
    pub fn add_anomaly(&mut self, anomaly: Anomaly)
        ensures
            final(self).recorded_anomalies() == old(self).recorded_anomalies().push(anomaly),
            final(self).nodes() == old(self).nodes(),
            final(self).dependency_graph() == old(self).dependency_graph(),
            final(self).stored_metrics() == old(self).stored_metrics(),
    {
        proof {
            use_type_invariant(&*self);
        }
        let mut anomalies: Vec<Anomaly> = Vec::new();
        std::mem::swap(&mut anomalies, &mut self.anomalies);
        anomalies.push(anomaly);
        self.anomalies = anomalies;
    }

    /// Counts the components by health and derives the status of the stack:
    /// red if any component is red, else yellow if any is yellow, else green
    /// if the registry is not empty and all are green, else unknown.
    pub fn health_summary(&self) -> (summary: HealthSummary)
        ensures
            summary == summary_of(self.nodes()),
    {
        summarize(&self.components)
    }
}

impl Default for StackDiagnostics {
    fn default() -> (engine: Self)
        ensures
            engine.nodes().len() == 0,
            engine.dependency_graph() is None,
            engine.recorded_anomalies().len() == 0,
            engine.stored_metrics().is_blank(),
    {
        StackDiagnostics::new()
    }
}

/// Adding a component keeps the others: the registry grows by one for a new
/// name and keeps its size for a known one.
pub proof fn lemma_upsert_size(nodes: Seq<ComponentNode>, node: ComponentNode)
    ensures
        find_node(nodes, node.name@) is Some ==> nodes.update(
            find_node(nodes, node.name@)->0,
            node,
        ).len() == nodes.len(),
        find_node(nodes, node.name@) is None ==> nodes.push(node).len() == nodes.len() + 1,
{
    lemma_find_node(nodes, node.name@);
}

/// Adding a component twice is adding it once.
pub proof fn lemma_upsert_is_idempotent(nodes: Seq<ComponentNode>, node: ComponentNode)
    ensures
        ({
            let once = match find_node(nodes, node.name@) {
                Some(i) => nodes.update(i, node),
                None => nodes.push(node),
            };
            let twice = match find_node(once, node.name@) {
                Some(i) => once.update(i, node),
                None => once.push(node),
            };
            twice == once
        }),
{
    let once = match find_node(nodes, node.name@) {
        Some(i) => nodes.update(i, node),
        None => nodes.push(node),
    };
    lemma_find_node(nodes, node.name@);
    lemma_find_node(once, node.name@);
    match find_node(nodes, node.name@) {
        Some(i) => {
            assert(once[i].name@ == node.name@);
            let j = find_node(once, node.name@)->0;
            if j < i {
                assert(once[j] == nodes[j]);
            }
            assert(once.update(i, node) =~= once);
        },
        None => {
            let last = nodes.len() as int;
            assert(once[last].name@ == node.name@);
            let j = find_node(once, node.name@)->0;
            if j < last {
                assert(once[j] == nodes[j]);
            }
            assert(once.update(last, node) =~= once);
        },
    }
}

/// After a component was added, a lookup of its name finds it.
pub proof fn lemma_lookup_after_upsert(nodes: Seq<ComponentNode>, node: ComponentNode)
    requires
        names_distinct(nodes),
    ensures
        ({
            let after = match find_node(nodes, node.name@) {
                Some(i) => nodes.update(i, node),
                None => nodes.push(node),
            };
            &&& names_distinct(after)
            &&& find_node(after, node.name@) is Some
            &&& after[find_node(after, node.name@)->0] == node
        }),
{
    let after = match find_node(nodes, node.name@) {
        Some(i) => nodes.update(i, node),
        None => nodes.push(node),
    };
    lemma_find_node(nodes, node.name@);
    lemma_find_node(after, node.name@);
    match find_node(nodes, node.name@) {
        Some(i) => {
            assert(after[i].name@ == node.name@);
        },
        None => {
            assert(after[nodes.len() as int].name@ == node.name@);
        },
    }
}

/// A stack that holds a red component is red, and is not all healthy.
pub proof fn lemma_red_component_stops_the_line(nodes: Seq<ComponentNode>, i: int)
    requires
        0 <= i < nodes.len(),
        nodes[i].health == HealthStatus::Red,
        nodes.len() <= usize::MAX,
    ensures
        summary_of(nodes).andon_status == AndonStatus::Red,
        !summary_of(nodes).spec_all_healthy(),
{
    lemma_count_positive(nodes, HealthStatus::Red, i);
    lemma_counts_add_up(nodes);
}

/// A status that some component has is counted at least once.
pub proof fn lemma_count_positive(nodes: Seq<ComponentNode>, status: HealthStatus, i: int)
    requires
        0 <= i < nodes.len(),
        nodes[i].health == status,
    ensures
        count_health(nodes, status) > 0,
    decreases nodes.len(),
{
    if i < nodes.len() - 1 {
        lemma_count_positive(nodes.drop_last(), status, i);
    }
}

/// Metrics computed for a graph without edges count no edge and give every
/// component depth 0: each component is its own root.
pub proof fn lemma_no_edges_flat_metrics(
    metrics: GraphMetrics,
    before: GraphMetrics,
    nodes: Seq<ComponentNode>,
    adj: Seq<Seq<usize>>,
)
    requires
        metrics.is_computed_from(before, nodes, adj),
        adj.len() == nodes.len(),
        edge_total(adj) == 0,
    ensures
        metrics.total_edges == 0,
        metrics.max_depth == 0,
        forall|i: int| 0 <= i < nodes.len() ==> (#[trigger] metrics.depth_map@[i]).depth == 0,
{
    assert forall|i: int| 0 <= i < nodes.len() implies depth_of(adj, i) == 0 by {
        crate::depth::lemma_no_edges_depth_zero(adj, i);
    }
}

/// A registry without a dependency graph has no edge between its
/// components.
pub proof fn lemma_no_graph_flat_metrics(metrics: GraphMetrics, before: GraphMetrics, nodes: Seq<ComponentNode>)
    requires
        metrics.is_computed_from(before, nodes, adjacency_of(nodes, None)),
    ensures
        metrics.total_edges == 0,
        metrics.max_depth == 0,
        forall|i: int| 0 <= i < nodes.len() ==> (#[trigger] metrics.depth_map@[i]).depth == 0,
{
    crate::graph::lemma_no_graph_no_edges(nodes);
    lemma_no_edges_flat_metrics(metrics, before, nodes, adjacency_of(nodes, None));
}

} // verus!
