//! Anomalies found in component metrics: what one records, and the rules
//! that classify it and recommend a remedy.

use vstd::prelude::*;
use vstd::string::*;
use crate::measure::Measure;
use crate::ranking::{all_numbers, is_arrangement, is_descending, order_descending};
use crate::registry::ComponentNode;
use crate::text::texts;

verus! {

/// Encoding of 0.8, the score above which an anomaly is critical.
pub const CRITICAL_SCORE_BITS: u64 = 0x3FE9_9999_9999_999A;

/// Encoding of 70.0, the demo score below which quality has regressed.
pub const LOW_DEMO_SCORE_BITS: u64 = 0x4051_8000_0000_0000;

/// Encoding of 50.0, the coverage below which coverage has dropped.
pub const LOW_COVERAGE_BITS: u64 = 0x4049_0000_0000_0000;

/// Encoding of 15.0, the average complexity above which complexity has grown.
pub const HIGH_COMPLEXITY_BITS: u64 = 0x402E_0000_0000_0000;

/// Encoding of 10.0, the dead-code percentage above which a component is a
/// dependency risk.
pub const HIGH_DEAD_CODE_BITS: u64 = 0x4024_0000_0000_0000;

/// Encoding of 80.0, the coverage that a regressed component should reach.
pub const TARGET_COVERAGE_BITS: u64 = 0x4054_0000_0000_0000;

/// Number of features in the vector of one component.
pub const FEATURE_COUNT: usize = 6;

/// Kind of anomaly.
#[derive(Debug, Clone, Copy, PartialEq, Eq, Hash, Structural)]
pub enum AnomalyCategory {
    QualityRegression,
    CoverageDrop,
    BuildTimeSpike,
    DependencyRisk,
    ComplexityIncrease,
    Other,
}

impl AnomalyCategory {
    /// The name of a category, as a sequence of characters.
    pub open spec fn label_text(self) -> Seq<char> {
        match self {
            AnomalyCategory::QualityRegression => "Quality Regression"@,
            AnomalyCategory::CoverageDrop => "Coverage Drop"@,
            AnomalyCategory::BuildTimeSpike => "Build Time Spike"@,
            AnomalyCategory::DependencyRisk => "Dependency Risk"@,
            AnomalyCategory::ComplexityIncrease => "Complexity Increase"@,
            AnomalyCategory::Other => "Other"@,
        }
    }

    /// Name of the category for display.
    pub fn label(&self) -> (text: &'static str)
        ensures
            text@ == self.label_text(),
    {
        match self {
            AnomalyCategory::QualityRegression => "Quality Regression",
            AnomalyCategory::CoverageDrop => "Coverage Drop",
            AnomalyCategory::BuildTimeSpike => "Build Time Spike",
            AnomalyCategory::DependencyRisk => "Dependency Risk",
            AnomalyCategory::ComplexityIncrease => "Complexity Increase",
            AnomalyCategory::Other => "Other",
        }
    }
}

/// One detected anomaly.
#[derive(Debug, Clone)]
pub struct Anomaly {
    /// Name of the component.
    pub component: String,
    /// Score between 0 and 1; higher is more anomalous.
    pub score: Measure,
    /// Kind of anomaly.
    pub category: AnomalyCategory,
    /// Description for a reader.
    pub description: String,
    /// Evidence, in the order it was attached.
    pub evidence: Vec<String>,
    /// Suggested remedy.
    pub recommendation: Option<String>,
}

impl Anomaly {
    /// The recommendation as text, if there is one.
    pub open spec fn recommendation_text(self) -> Option<Seq<char>> {
        match self.recommendation {
            Some(r) => Some(r@),
            None => None,
        }
    }

    /// Whether the score is above 0.8.
    pub open spec fn spec_is_critical(self) -> bool {
        self.score.spec_gt(Measure { bits: CRITICAL_SCORE_BITS })
    }

    /// A new anomaly without evidence or recommendation.
    pub fn new(component: &str, score: Measure, category: AnomalyCategory, description: &str) -> (anomaly:
        Self)
        ensures
            anomaly.component@ == component@,
            anomaly.score == score,
            anomaly.category == category,
            anomaly.description@ == description@,
            anomaly.evidence@.len() == 0,
            anomaly.recommendation is None,
    {
        Anomaly {
            component: String::from_str(component),
            score,
            category,
            description: String::from_str(description),
            evidence: Vec::new(),
            recommendation: None,
        }
    }

    /// The anomaly with one more piece of evidence at the end.
    pub fn with_evidence(self, evidence: &str) -> (anomaly: Self)
        ensures
            texts(anomaly.evidence@) == texts(self.evidence@).push(evidence@),
            anomaly.component == self.component,
            anomaly.score == self.score,
            anomaly.category == self.category,
            anomaly.description == self.description,
            anomaly.recommendation == self.recommendation,
    {
        let mut anomaly = self;
        anomaly.evidence.push(String::from_str(evidence));
        assert(texts(anomaly.evidence@) =~= texts(self.evidence@).push(evidence@));
        anomaly
    }

    /// The anomaly with its recommendation set, replacing an earlier one.
    pub fn with_recommendation(self, recommendation: &str) -> (anomaly: Self)
        ensures
            anomaly.recommendation_text() == Some(recommendation@),
            anomaly.component == self.component,
            anomaly.score == self.score,
            anomaly.category == self.category,
            anomaly.description == self.description,
            anomaly.evidence == self.evidence,
    {
        let mut anomaly = self;
        anomaly.recommendation = Some(String::from_str(recommendation));
        anomaly
    }

    /// Whether the anomaly is critical: its score is above 0.8.
    pub fn is_critical(&self) -> (critical: bool)
        ensures
            critical == self.spec_is_critical(),
    {
        let limit = Measure::from_bits(CRITICAL_SCORE_BITS);
        self.score.gt(&limit)
    }
}

/// The category of a feature vector `[demo score, coverage, mutation score,
/// average complexity, debt count, dead code]`, by the first rule that
/// applies: demo score below 70, coverage below 50, complexity above 15, dead
/// code above 10. A vector with fewer than six features is `Other`.
pub open spec fn category_of(features: Seq<Measure>) -> AnomalyCategory {
    if features.len() < FEATURE_COUNT {
        AnomalyCategory::Other
    } else if features[0].spec_lt(Measure { bits: LOW_DEMO_SCORE_BITS }) {
        AnomalyCategory::QualityRegression
    } else if features[1].spec_lt(Measure { bits: LOW_COVERAGE_BITS }) {
        AnomalyCategory::CoverageDrop
    } else if features[3].spec_gt(Measure { bits: HIGH_COMPLEXITY_BITS }) {
        AnomalyCategory::ComplexityIncrease
    } else if features[5].spec_gt(Measure { bits: HIGH_DEAD_CODE_BITS }) {
        AnomalyCategory::DependencyRisk
    } else {
        AnomalyCategory::Other
    }
}

/// Classifies a feature vector.
pub fn categorize_anomaly(features: &Vec<Measure>) -> (category: AnomalyCategory)
    ensures
        category == category_of(features@),
{
    if features.len() < FEATURE_COUNT {
        return AnomalyCategory::Other;
    }
    let low_demo = Measure::from_bits(LOW_DEMO_SCORE_BITS);
    let low_coverage = Measure::from_bits(LOW_COVERAGE_BITS);
    let high_complexity = Measure::from_bits(HIGH_COMPLEXITY_BITS);
    let high_dead_code = Measure::from_bits(HIGH_DEAD_CODE_BITS);
    if features[0].lt(&low_demo) {
        AnomalyCategory::QualityRegression
    } else if features[1].lt(&low_coverage) {
        AnomalyCategory::CoverageDrop
    } else if features[3].gt(&high_complexity) {
        AnomalyCategory::ComplexityIncrease
    } else if features[5].gt(&high_dead_code) {
        AnomalyCategory::DependencyRisk
    } else {
        AnomalyCategory::Other
    }
}

/// The remedy for a category. For a quality regression it depends on whether
/// coverage is below 80.
pub open spec fn recommendation_of(category: AnomalyCategory, coverage: Measure) -> Seq<char> {
    match category {
        AnomalyCategory::QualityRegression => if coverage.spec_lt(
            Measure { bits: TARGET_COVERAGE_BITS },
        ) {
            "Add tests to improve coverage above 80%"@
        } else {
            "Review recent changes for quality regressions"@
        },
        AnomalyCategory::CoverageDrop => "Run `cargo tarpaulin` and add tests for uncovered paths"@,
        AnomalyCategory::ComplexityIncrease => "Consider refactoring complex functions (>10 cyclomatic complexity)"@,
        AnomalyCategory::DependencyRisk => "Run `cargo udeps` to identify and remove dead code"@,
        _ => "Review component metrics for unusual patterns"@,
    }
}

/// Recommends an action for an anomaly of `category` in a component with the
/// given feature vector.
pub fn recommend_action(category: AnomalyCategory, features: &Vec<Measure>) -> (text: &'static str)
    requires
        category == AnomalyCategory::QualityRegression ==> features@.len() >= 2,
    ensures
        text@ == recommendation_of(category, features@[1]),
{
    match category {
        AnomalyCategory::QualityRegression => {
            let target = Measure::from_bits(TARGET_COVERAGE_BITS);
            if features[1].lt(&target) {
                "Add tests to improve coverage above 80%"
            } else {
                "Review recent changes for quality regressions"
            }
        },
        AnomalyCategory::CoverageDrop => "Run `cargo tarpaulin` and add tests for uncovered paths",
        AnomalyCategory::ComplexityIncrease => "Consider refactoring complex functions (>10 cyclomatic complexity)",
        AnomalyCategory::DependencyRisk => "Run `cargo udeps` to identify and remove dead code",
        _ => "Review component metrics for unusual patterns",
    }
}

/// The feature whose value a description of `category` quotes, if any.
pub open spec fn quoted_feature(category: AnomalyCategory) -> Option<int> {
    match category {
        AnomalyCategory::QualityRegression => Some(0),
        AnomalyCategory::CoverageDrop => Some(1),
        AnomalyCategory::ComplexityIncrease => Some(3),
        AnomalyCategory::DependencyRisk => Some(5),
        _ => None,
    }
}

/// The description of an anomaly of `category`, around the numeral `value`
/// of the quoted feature.
pub open spec fn description_of(category: AnomalyCategory, value: Seq<char>) -> Seq<char> {
    match category {
        AnomalyCategory::QualityRegression => "Quality score "@ + value
            + " is significantly below healthy threshold"@,
        AnomalyCategory::CoverageDrop => "Test coverage "@ + value + "% is dangerously low"@,
        AnomalyCategory::ComplexityIncrease => "Average complexity "@ + value
            + " indicates maintainability risk"@,
        AnomalyCategory::DependencyRisk => "Dead code "@ + value
            + "% suggests technical debt accumulation"@,
        _ => "Unusual metric combination detected"@,
    }
}

/// Describes an anomaly of `category`. `value` is the numeral, with one
/// decimal place, of the feature that [`quoted_feature`] names; it is not
/// read for a category that quotes none.
pub fn describe_anomaly(category: AnomalyCategory, value: &str) -> (text: String)
    ensures
        text@ == description_of(category, value@),
{
    match category {
        AnomalyCategory::QualityRegression => {
            let mut text = String::from_str("Quality score ");
            text.append(value);
            text.append(" is significantly below healthy threshold");
            text
        },
        AnomalyCategory::CoverageDrop => {
            let mut text = String::from_str("Test coverage ");
            text.append(value);
            text.append("% is dangerously low");
            text
        },
        AnomalyCategory::ComplexityIncrease => {
            let mut text = String::from_str("Average complexity ");
            text.append(value);
            text.append(" indicates maintainability risk");
            text
        },
        AnomalyCategory::DependencyRisk => {
            let mut text = String::from_str("Dead code ");
            text.append(value);
            text.append("% suggests technical debt accumulation");
            text
        },
        _ => String::from_str("Unusual metric combination detected"),
    }
}

/// The rules are tried in order, so a low demo score decides the category
/// whatever the other features hold.
pub proof fn lemma_low_demo_score_wins(features: Seq<Measure>)
    requires
        features.len() >= FEATURE_COUNT,
        features[0].spec_lt(Measure { bits: LOW_DEMO_SCORE_BITS }),
    ensures
        category_of(features) == AnomalyCategory::QualityRegression,
{
}

/// Classification never yields a build-time spike: no rule produces it.
pub proof fn lemma_never_build_time_spike(features: Seq<Measure>)
    ensures
        category_of(features) != AnomalyCategory::BuildTimeSpike,
{
}

/// What was observed of one component: its feature vector, the score that
/// an anomaly detector gave it, and the numerals that reports quote.
#[derive(Debug, Clone)]
pub struct Observation {
    /// `[demo score, coverage, mutation score, average complexity, debt
    /// count, dead code]`.
    pub features: Vec<Measure>,
    /// Each feature as a numeral with one decimal place.
    pub feature_texts: Vec<String>,
    /// Anomaly score between 0 and 1.
    pub score: Measure,
    /// The score as a numeral with three decimal places.
    pub score_text: String,
}

impl Observation {
    /// Whether the observation holds six features and a numeral for each.
    pub open spec fn complete(self) -> bool {
        self.features@.len() == FEATURE_COUNT && self.feature_texts@.len() == FEATURE_COUNT
    }

    /// The evidence attached to an anomaly: the score, the demo score and
    /// the coverage.
    pub open spec fn evidence_texts(self) -> Seq<Seq<char>> {
        seq![
            "Isolation score: "@ + self.score_text@,
            "Demo score: "@ + self.feature_texts@[0]@,
            "Coverage: "@ + self.feature_texts@[1]@ + "%"@,
        ]
    }

    /// The description of the anomaly that the observation shows.
    pub open spec fn description_text(self) -> Seq<char> {
        let category = category_of(self.features@);
        match quoted_feature(category) {
            Some(k) => description_of(category, self.feature_texts@[k]@),
            None => description_of(category, Seq::empty()),
        }
    }
}

/// Whether `anomaly` reports the observation `seen` of component `node`:
/// name and score, the category by the classification rules, the
/// description, three pieces of evidence and the recommendation.
pub open spec fn reports(anomaly: Anomaly, node: ComponentNode, seen: Observation) -> bool {
    &&& anomaly.component@ == node.name@
    &&& anomaly.score == seen.score
    &&& anomaly.category == category_of(seen.features@)
    &&& anomaly.description@ == seen.description_text()
    &&& texts(anomaly.evidence@) == seen.evidence_texts()
    &&& anomaly.recommendation_text() == Some(
        recommendation_of(category_of(seen.features@), seen.features@[1]),
    )
}

/// The positions below `upto` whose score is above `threshold`, in rising
/// order.
pub open spec fn flagged_below(observations: Seq<Observation>, threshold: Measure, upto: int) -> Seq<usize>
    decreases upto,
{
    if upto <= 0 {
        Seq::empty()
    } else {
        let front = flagged_below(observations, threshold, upto - 1);
        if observations[upto - 1].score.spec_gt(threshold) {
            front.push((upto - 1) as usize)
        } else {
            front
        }
    }
}

/// The scores of the observations at `positions`.
pub open spec fn scores_at(observations: Seq<Observation>, positions: Seq<usize>) -> Seq<Measure> {
    Seq::new(positions.len(), |k: int| observations[positions[k] as int].score)
}

/// Builds the anomaly that reports one observation.
pub fn report(node: &ComponentNode, seen: &Observation) -> (anomaly: Anomaly)
    requires
        seen.complete(),
    ensures
        reports(anomaly, *node, *seen),
{
    let category = categorize_anomaly(&seen.features);
    let description = match category {
        AnomalyCategory::QualityRegression => describe_anomaly(category, seen.feature_texts[0].as_str()),
        AnomalyCategory::CoverageDrop => describe_anomaly(category, seen.feature_texts[1].as_str()),
        AnomalyCategory::ComplexityIncrease => describe_anomaly(category, seen.feature_texts[3].as_str()),
        AnomalyCategory::DependencyRisk => describe_anomaly(category, seen.feature_texts[5].as_str()),
        _ => describe_anomaly(category, ""),
    };
    let mut score_line = String::from_str("Isolation score: ");
    score_line.append(seen.score_text.as_str());
    let mut demo_line = String::from_str("Demo score: ");
    demo_line.append(seen.feature_texts[0].as_str());
    let mut coverage_line = String::from_str("Coverage: ");
    coverage_line.append(seen.feature_texts[1].as_str());
    coverage_line.append("%");
    let anomaly = Anomaly::new(node.name.as_str(), seen.score, category, description.as_str());
    let anomaly = anomaly.with_evidence(score_line.as_str());
    let anomaly = anomaly.with_evidence(demo_line.as_str());
    let anomaly = anomaly.with_evidence(coverage_line.as_str());
    let anomaly = anomaly.with_recommendation(recommend_action(category, &seen.features));
    proof {
        assert(texts(anomaly.evidence@) =~= seen.evidence_texts());
        reveal_strlit("");
        assert(""@ =~= Seq::<char>::empty());
    }
    anomaly
}

/// Whether `anomalies` is what detection owes for the given components and
/// observations: one anomaly for each observation whose score is above
/// `threshold`, from the highest score down, observations of equal score in
/// registry order.
pub open spec fn is_detection(
    anomalies: Seq<Anomaly>,
    components: Seq<ComponentNode>,
    observations: Seq<Observation>,
    threshold: Measure,
) -> bool {
    let flagged = flagged_below(observations, threshold, observations.len() as int);
    exists|order: Seq<usize>|
        {
            &&& is_arrangement(order, flagged.len())
            &&& is_descending(scores_at(observations, flagged), order)
            &&& anomalies.len() == flagged.len()
            &&& forall|k: int|
                0 <= k < anomalies.len() ==> reports(
                    #[trigger] anomalies[k],
                    components[flagged[order[k] as int] as int],
                    observations[flagged[order[k] as int] as int],
                )
        }
}

/// Every flagged position is a position of an observation above the
/// threshold, so none of the flagged scores is a NaN.
pub proof fn lemma_flagged(observations: Seq<Observation>, threshold: Measure, upto: int)
    requires
        0 <= upto <= observations.len(),
        observations.len() <= usize::MAX,
    ensures
        forall|k: int|
            0 <= k < flagged_below(observations, threshold, upto).len() ==> (#[trigger] flagged_below(
                observations,
                threshold,
                upto,
            )[k]) < upto && observations[flagged_below(observations, threshold, upto)[k] as int].score.spec_gt(
                threshold,
            ),
    decreases upto,
{
    if upto > 0 {
        lemma_flagged(observations, threshold, upto - 1);
        let all = flagged_below(observations, threshold, upto);
        let front = flagged_below(observations, threshold, upto - 1);
        assert forall|k: int| 0 <= k < all.len() implies (#[trigger] all[k]) < upto && observations[all[k] as int].score.spec_gt(
            threshold,
        ) by {
            if k < front.len() {
                assert(all[k] == front[k]);
            }
        }
    }
}

/// Reports the components whose anomaly score is above `threshold`, most
/// anomalous first. `observations[i]` is what was observed of
/// `components[i]`.
pub fn detect_anomalies(components: &Vec<ComponentNode>, observations: &Vec<Observation>, threshold: Measure) -> (anomalies:
    Vec<Anomaly>)
    requires
        observations@.len() == components@.len(),
        forall|i: int| 0 <= i < observations@.len() ==> (#[trigger] observations@[i]).complete(),
    ensures
        is_detection(anomalies@, components@, observations@, threshold),
{
    let n: usize = observations.len();
    let mut flagged: Vec<usize> = Vec::new();
    let mut scores: Vec<Measure> = Vec::new();
    let mut i: usize = 0;
    while i < n
        invariant
            i <= n,
            n == observations@.len(),
            flagged@ == flagged_below(observations@, threshold, i as int),
            scores@.len() == flagged@.len(),
            forall|k: int| 0 <= k < scores@.len() ==> #[trigger] scores@[k] == observations@[flagged@[k] as int].score,
        decreases n - i,
    {
        if observations[i].score.gt(&threshold) {
            flagged.push(i);
            scores.push(observations[i].score);
        }
        i += 1;
    }
    proof {
        lemma_flagged(observations@, threshold, n as int);
        assert(scores@ =~= scores_at(observations@, flagged@));
        assert(all_numbers(scores@));
    }
    let order = order_descending(&scores);
    let mut anomalies: Vec<Anomaly> = Vec::new();
    let mut k: usize = 0;
    while k < order.len()
        invariant
            k <= order@.len(),
            n == observations@.len(),
            n == components@.len(),
            is_arrangement(order@, flagged@.len()),
            forall|j: int| 0 <= j < flagged@.len() ==> (#[trigger] flagged@[j]) < n,
            forall|i: int| 0 <= i < observations@.len() ==> (#[trigger] observations@[i]).complete(),
            anomalies@.len() == k,
            forall|j: int|
                0 <= j < k ==> reports(
                    #[trigger] anomalies@[j],
                    components@[flagged@[order@[j] as int] as int],
                    observations@[flagged@[order@[j] as int] as int],
                ),
        decreases order@.len() - k,
    {
        let at: usize = flagged[order[k]];
        anomalies.push(report(&components[at], &observations[at]));
        k += 1;
    }
    proof {
        assert(is_descending(scores_at(observations@, flagged@), order@));
    }
    anomalies
}

} // verus!
