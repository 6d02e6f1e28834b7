//! Isolation forest: the ensemble, its trees, and the decisions of fitting
//! and scoring that need no arithmetic on measurements.
//!
//! A tree isolates a point by comparing one feature with a split value at
//! each inner node. The shorter the path to a leaf, the more anomalous the
//! point. Split values are chosen, and path lengths averaged, by the caller;
//! tree descent, sampling, partitioning and classification are decided here.

use vstd::prelude::*;
use crate::anomaly::{detect_anomalies, is_detection, Anomaly, Observation};
use crate::measure::Measure;
use crate::ranking::flag_above;
use crate::registry::StackDiagnostics;
use crate::rng::{pick_in_range, SimpleRng};

verus! {

/// A tree of an isolation forest.
#[derive(Debug)]
pub enum IsolationTree {
    /// Inner node: points whose feature is below the split value go left.
    Internal { split_feature: usize, split_value: Measure, left: Box<IsolationTree>, right: Box<IsolationTree> },
    /// Leaf that holds `size` points of the sample.
    External { size: usize },
}

/// The value of feature `k` of a point, zero where the point has no such
/// feature.
pub open spec fn feature_or_zero(point: Seq<Measure>, k: usize) -> Measure {
    if k < point.len() {
        point[k as int]
    } else {
        Measure { bits: 0 }
    }
}

impl IsolationTree {
    /// The number of nodes on the longest path from the root to a leaf.
    pub open spec fn height(self) -> nat
        decreases self,
    {
        match self {
            IsolationTree::External { .. } => 0,
            IsolationTree::Internal { left, right, .. } => {
                let l = left.height();
                let r = right.height();
                if l > r {
                    l + 1
                } else {
                    r + 1
                }
            },
        }
    }

    /// The leaf that `point` reaches: the number of inner nodes passed on the
    /// way, starting the count at `depth`, and the size of the leaf.
    pub open spec fn leaf_of(self, point: Seq<Measure>, depth: nat) -> (nat, usize)
        decreases self,
    {
        match self {
            IsolationTree::External { size } => (depth, size),
            IsolationTree::Internal { split_feature, split_value, left, right } => {
                if feature_or_zero(point, split_feature).spec_lt(split_value) {
                    left.leaf_of(point, depth + 1)
                } else {
                    right.leaf_of(point, depth + 1)
                }
            },
        }
    }

    /// Whether no path from the root to a leaf passes more than `limit`
    /// inner nodes.
    pub fn fits(&self, limit: usize) -> (within: bool)
        ensures
            within == (self.height() <= limit),
        decreases self,
    {
        match self {
            IsolationTree::External { .. } => true,
            IsolationTree::Internal { left, right, .. } => {
                if limit == 0 {
                    false
                } else {
                    left.fits(limit - 1) && right.fits(limit - 1)
                }
            },
        }
    }

    /// A leaf of `size` points.
    pub fn leaf(size: usize) -> (tree: Self)
        ensures
            tree == (IsolationTree::External { size }),
    {
        IsolationTree::External { size }
    }

    /// An inner node that splits on `split_feature` at `split_value`.
    pub fn node(split_feature: usize, split_value: Measure, left: IsolationTree, right: IsolationTree) -> (tree:
        Self)
        ensures
            tree == (IsolationTree::Internal {
                split_feature,
                split_value,
                left: Box::new(left),
                right: Box::new(right),
            }),
    {
        IsolationTree::Internal { split_feature, split_value, left: Box::new(left), right: Box::new(right) }
    }

    /// Follows `point` down the tree and returns the depth of the leaf it
    /// reaches, counted from `current_depth`, and the size of that leaf.
    pub fn locate(&self, point: &Vec<Measure>, current_depth: usize) -> (found: (usize, usize))
        requires
            current_depth + self.height() <= usize::MAX,
        ensures
            found.0 == self.leaf_of(point@, current_depth as nat).0,
            found.1 == self.leaf_of(point@, current_depth as nat).1,
            current_depth <= found.0 <= current_depth + self.height(),
        decreases self,
    {
        match self {
            IsolationTree::External { size } => (current_depth, *size),
            IsolationTree::Internal { split_feature, split_value, left, right } => {
                let value = if *split_feature < point.len() {
                    point[*split_feature]
                } else {
                    Measure::zero()
                };
                if value.lt(split_value) {
                    left.locate(point, current_depth + 1)
                } else {
                    right.locate(point, current_depth + 1)
                }
            },
        }
    }
}

/// The size of the leaf that a partition becomes without a look at its
/// values: a partition of no rows, or of one row, a partition at depth limit
/// 0, and a partition whose first row has no features. `None` for a
/// partition that may be split.
pub open spec fn early_leaf(rows: Seq<Vec<Measure>>, max_depth: usize) -> Option<usize> {
    if rows.len() == 0 {
        Some(0usize)
    } else if max_depth == 0 || rows.len() <= 1 || rows[0]@.len() == 0 {
        Some(rows.len() as usize)
    } else {
        None
    }
}

/// Decides whether a partition becomes a leaf before any of its values is
/// looked at, and of what size.
pub fn leaf_without_split(rows: &Vec<Vec<Measure>>, max_depth: usize) -> (size: Option<usize>)
    ensures
        size == early_leaf(rows@, max_depth),
{
    if rows.len() == 0 {
        Some(0)
    } else if max_depth == 0 || rows.len() <= 1 || rows[0].len() == 0 {
        Some(rows.len())
    } else {
        None
    }
}

/// The least `d` with `2^d >= n`, and 0 for `n == 0`: the depth at which a
/// tree over a sample of `n` points stops splitting.
pub open spec fn ceil_log2(n: nat) -> nat
    decreases n,
{
    if n <= 1 {
        0
    } else {
        ceil_log2(((n + 1) / 2) as nat) + 1
    }
}

/// 2 to the power `d`.
pub open spec fn pow2(d: nat) -> nat
    decreases d,
{
    if d == 0 {
        1
    } else {
        2 * pow2((d - 1) as nat)
    }
}

/// `ceil_log2(n)` is the least exponent whose power of two reaches `n`.
pub proof fn lemma_ceil_log2(n: nat)
    requires
        n >= 1,
    ensures
        pow2(ceil_log2(n)) >= n,
        ceil_log2(n) > 0 ==> pow2((ceil_log2(n) - 1) as nat) < n,
    decreases n,
{
    if n > 1 {
        let half = ((n + 1) / 2) as nat;
        lemma_ceil_log2(half);
        if ceil_log2(half) > 0 {
            assert(pow2(ceil_log2(half)) == 2 * pow2((ceil_log2(half) - 1) as nat));
        }
    }
}

/// The depth limit of trees over samples of `sample_size` points.
pub fn depth_limit(sample_size: usize) -> (limit: usize)
    ensures
        limit == ceil_log2(sample_size as nat),
{
    let mut n: usize = sample_size;
    let mut limit: usize = 0;
    while n > 1
        invariant
            limit + ceil_log2(n as nat) == ceil_log2(sample_size as nat),
            limit + n <= sample_size,
        decreases n,
    {
        n = n / 2 + n % 2;
        limit += 1;
    }
    limit
}

/// The positions drawn for a sample: `count` draws from `0..population`, one
/// step of the generator each.
pub open spec fn sample_positions(state: u64, population: usize, count: nat) -> Seq<usize>
    decreases count,
{
    if count == 0 {
        Seq::empty()
    } else {
        let front = sample_positions(state, population, (count - 1) as nat);
        front.push(pick_in_range(crate::rng::lcg_steps(state, count), 0, population) as usize)
    }
}

/// Draws the sample for one tree: as many positions as the sample size
/// allows, but no more than there are points, each drawn from all points
/// with replacement.
pub fn draw_sample(rng: &mut SimpleRng, population: usize, sample_size: usize) -> (sample: Vec<usize>)
    requires
        population > 0,
    ensures
        sample@.len() == if sample_size <= population {
            sample_size
        } else {
            population
        },
        sample@ == sample_positions(old(rng).state, population, sample@.len()),
        final(rng).state == crate::rng::lcg_steps(old(rng).state, sample@.len()),
        forall|k: int| 0 <= k < sample@.len() ==> #[trigger] sample@[k] < population,
{
    let count: usize = if sample_size <= population {
        sample_size
    } else {
        population
    };
    let mut sample: Vec<usize> = Vec::new();
    let mut i: usize = 0;
    let ghost start = rng.state;
    while i < count
        invariant
            i <= count,
            population > 0,
            sample@.len() == i,
            sample@ == sample_positions(start, population, i as nat),
            rng.state == crate::rng::lcg_steps(start, i as nat),
            forall|k: int| 0 <= k < sample@.len() ==> #[trigger] sample@[k] < population,
        decreases count - i,
    {
        let at = rng.gen_range(0, population);
        sample.push(at);
        i += 1;
    }
    sample
}

/// The positions below `upto` of the rows that go left at a split: those
/// that have the feature and whose value is below the split value.
pub open spec fn left_rows(rows: Seq<Vec<Measure>>, feature: usize, split: Measure, upto: int) -> Seq<usize>
    decreases upto,
{
    if upto <= 0 {
        Seq::empty()
    } else {
        let front = left_rows(rows, feature, split, upto - 1);
        if feature < rows[upto - 1]@.len() && rows[upto - 1]@[feature as int].spec_lt(split) {
            front.push((upto - 1) as usize)
        } else {
            front
        }
    }
}

/// The positions below `upto` of the rows that go right at a split: all
/// that do not go left.
pub open spec fn right_rows(rows: Seq<Vec<Measure>>, feature: usize, split: Measure, upto: int) -> Seq<usize>
    decreases upto,
{
    if upto <= 0 {
        Seq::empty()
    } else {
        let front = right_rows(rows, feature, split, upto - 1);
        if feature < rows[upto - 1]@.len() && rows[upto - 1]@[feature as int].spec_lt(split) {
            front
        } else {
            front.push((upto - 1) as usize)
        }
    }
}

/// Parts the rows at a split: the positions of those below the split value
/// on `feature`, and the positions of the others, both in order.
pub fn split_rows(rows: &Vec<Vec<Measure>>, feature: usize, split: Measure) -> (sides: (Vec<usize>, Vec<usize>))
    ensures
        sides.0@ == left_rows(rows@, feature, split, rows@.len() as int),
        sides.1@ == right_rows(rows@, feature, split, rows@.len() as int),
        sides.0@.len() + sides.1@.len() == rows@.len(),
{
    let mut left: Vec<usize> = Vec::new();
    let mut right: Vec<usize> = Vec::new();
    let mut i: usize = 0;
    while i < rows.len()
        invariant
            i <= rows@.len(),
            left@ == left_rows(rows@, feature, split, i as int),
            right@ == right_rows(rows@, feature, split, i as int),
            left@.len() + right@.len() == i,
        decreases rows@.len() - i,
    {
        if feature < rows[i].len() && rows[i][feature].lt(&split) {
            left.push(i);
        } else {
            right.push(i);
        }
        i += 1;
    }
    (left, right)
}

/// `n` zeros.
pub open spec fn zeros(n: nat) -> Seq<Measure> {
    Seq::new(n, |i: int| Measure { bits: 0 })
}

/// An isolation forest.
#[derive(Debug)]
pub struct IsolationForest {
    n_trees: usize,
    sample_size: usize,
    seed: u64,
    trees: Vec<IsolationTree>,
    feature_names: Vec<String>,
}

impl IsolationForest {
    /// The number of trees to fit.
    pub closed spec fn spec_n_trees(&self) -> usize {
        self.n_trees
    }

    /// The size of the sample of each tree.
    pub closed spec fn spec_sample_size(&self) -> usize {
        self.sample_size
    }

    /// The seed of the generator.
    pub closed spec fn spec_seed(&self) -> u64 {
        self.seed
    }

    /// The fitted trees.
    pub closed spec fn fitted(&self) -> Seq<IsolationTree> {
        self.trees@
    }

    /// The names of the features.
    pub closed spec fn names(&self) -> Seq<String> {
        self.feature_names@
    }

    /// A forest that is not fitted yet.
    pub fn new(n_trees: usize, sample_size: usize, seed: u64) -> (forest: Self)
        ensures
            forest.spec_n_trees() == n_trees,
            forest.spec_sample_size() == sample_size,
            forest.spec_seed() == seed,
            forest.fitted().len() == 0,
            forest.names().len() == 0,
    {
        IsolationForest { n_trees, sample_size, seed, trees: Vec::new(), feature_names: Vec::new() }
    }

    /// A forest of 100 trees over samples of 256 points, with seed 42.
    pub fn default_forest() -> (forest: Self)
        ensures
            forest.spec_n_trees() == 100,
            forest.spec_sample_size() == 256,
            forest.spec_seed() == 42,
            forest.fitted().len() == 0,
            forest.names().len() == 0,
    {
        IsolationForest::new(100, 256, 42)
    }

    /// The forest with its features named.
    pub fn with_feature_names(self, names: Vec<String>) -> (forest: Self)
        ensures
            forest.names() == names@,
            forest.spec_n_trees() == self.spec_n_trees(),
            forest.spec_sample_size() == self.spec_sample_size(),
            forest.spec_seed() == self.spec_seed(),
            forest.fitted() == self.fitted(),
    {
        let mut forest = self;
        forest.feature_names = names;
        forest
    }

    /// The number of trees to fit.
    pub fn n_trees(&self) -> (n: usize)
        ensures
            n == self.spec_n_trees(),
    {
        self.n_trees
    }

    /// The size of the sample of each tree.
    pub fn sample_size(&self) -> (n: usize)
        ensures
            n == self.spec_sample_size(),
    {
        self.sample_size
    }

    /// The seed of the generator.
    pub fn seed(&self) -> (seed: u64)
        ensures
            seed == self.spec_seed(),
    {
        self.seed
    }

    /// The fitted trees.
    pub fn trees(&self) -> (trees: &Vec<IsolationTree>)
        ensures
            trees@ == self.fitted(),
    {
        &self.trees
    }

    /// The names of the features.
    pub fn feature_names(&self) -> (names: &Vec<String>)
        ensures
            names@ == self.names(),
    {
        &self.feature_names
    }

    /// The generator with which fitting starts: seeded from the forest's
    /// seed and from nothing else.
    pub fn start_rng(&self) -> (rng: SimpleRng)
        ensures
            rng.state == self.spec_seed() ^ crate::rng::SEED_MASK,
    {
        SimpleRng::seed_from_u64(self.seed)
    }

    /// Replaces the fitted trees.
    pub fn set_trees(&mut self, trees: Vec<IsolationTree>)
        ensures
            final(self).fitted() == trees@,
            final(self).names() == old(self).names(),
            final(self).spec_n_trees() == old(self).spec_n_trees(),
            final(self).spec_sample_size() == old(self).spec_sample_size(),
            final(self).spec_seed() == old(self).spec_seed(),
    {
        self.trees = trees;
    }

    /// The scores of `points` points where nothing needs computing: a forest
    /// without trees, or no points, scores every point zero. `None` where
    /// the points have to be scored tree by tree.
    pub fn trivial_scores(&self, points: usize) -> (scores: Option<Vec<Measure>>)
        ensures
            (self.fitted().len() == 0 || points == 0) ==> scores is Some && scores->0@ == zeros(points as nat),
            (self.fitted().len() > 0 && points > 0) ==> scores is None,
    {
        if self.trees.len() == 0 || points == 0 {
            let mut scores: Vec<Measure> = Vec::new();
            let mut i: usize = 0;
            while i < points
                invariant
                    i <= points,
                    scores@.len() == i,
                    forall|j: int| 0 <= j < i ==> (#[trigger] scores@[j]).bits == 0,
                decreases points - i,
            {
                scores.push(Measure::zero());
                i += 1;
            }
            assert(scores@ =~= zeros(points as nat));
            Some(scores)
        } else {
            None
        }
    }

    /// Reports the components of the engine whose score is above
    /// `threshold`, most anomalous first. `observations[i]` is what this
    /// forest observed of the `i`-th component.
    pub fn detect_anomalies(
        &self,
        diagnostics: &StackDiagnostics,
        observations: &Vec<Observation>,
        threshold: Measure,
    ) -> (anomalies: Vec<Anomaly>)
        requires
            observations@.len() == diagnostics.nodes().len(),
            forall|i: int| 0 <= i < observations@.len() ==> (#[trigger] observations@[i]).complete(),
        ensures
            is_detection(anomalies@, diagnostics.nodes(), observations@, threshold),
    {
        detect_anomalies(diagnostics.components(), observations, threshold)
    }

    /// Which points are anomalies: those whose score is above `threshold`.
    /// `scores[i]` is the score of point `i`.
    pub fn predict(&self, scores: &Vec<Measure>, threshold: Measure) -> (flags: Vec<bool>)
        ensures
            flags@.len() == scores@.len(),
            forall|i: int| 0 <= i < scores@.len() ==> #[trigger] flags@[i] == scores@[i].spec_gt(threshold),
    {
        flag_above(scores, threshold)
    }
}

/// A point of an unfitted forest, or no point at all, is never flagged at a
/// threshold that is not negative: zero is above no such threshold.
pub proof fn lemma_zero_scores_flag_nothing(threshold: Measure, n: nat, i: int)
    requires
        0 <= i < n,
        !threshold.is_negative() || threshold.is_nan() || threshold.magnitude() == 0,
    ensures
        !zeros(n)[i].spec_gt(threshold),
{
}

} // verus!
