//! Exponential smoothing of a stream of observations: the state of the
//! forecaster and every decision that needs no arithmetic.
//!
//! The level after an observation `v` is `alpha * v + (1 - alpha) * level`.
//! That product is formed by the caller and handed in; the forecaster
//! decides when it counts, keeps the history and answers forecasts.

use vstd::prelude::*;
use crate::measure::{Measure, INFINITY_BITS};

verus! {

/// Encoding of 1.0.
pub const ONE_BITS: u64 = 0x3FF0_0000_0000_0000;

/// Encoding of 0.3, the default smoothing parameter.
pub const DEFAULT_ALPHA_BITS: u64 = 0x3FD3_3333_3333_3333;

/// Encoding of the machine epsilon of binary64.
pub const EPSILON_BITS: u64 = 0x3CB0_0000_0000_0000;

/// Accuracy of one-step-ahead forecasts over a history.
#[derive(Debug, Clone, Copy)]
pub struct ForecastMetrics {
    /// Mean absolute error.
    pub mae: Measure,
    /// Mean squared error.
    pub mse: Measure,
    /// Root of the mean squared error.
    pub rmse: Measure,
    /// Mean absolute percentage error; a NaN where an observation is too
    /// close to zero to divide by.
    pub mape: Measure,
}

impl Default for ForecastMetrics {
    /// All four metrics zero.
    fn default() -> (metrics: Self)
        ensures
            metrics.mae.bits == 0,
            metrics.mse.bits == 0,
            metrics.rmse.bits == 0,
            metrics.mape.bits == 0,
    {
        ForecastMetrics {
            mae: Measure { bits: 0 },
            mse: Measure { bits: 0 },
            rmse: Measure { bits: 0 },
            mape: Measure { bits: 0 },
        }
    }
}

/// Whether the absolute value of `value` is above the machine epsilon. A
/// NaN is not.
pub open spec fn clear_of_zero(value: Measure) -> bool {
    !value.is_nan() && value.magnitude() > EPSILON_BITS
}

/// Whether every observation after the first is clear of zero, so that a
/// percentage error can be formed for each.
pub open spec fn all_clear_of_zero(history: Seq<Measure>) -> bool {
    forall|i: int| 1 <= i < history.len() ==> clear_of_zero(#[trigger] history[i])
}

/// Forecaster by simple exponential smoothing.
#[derive(Debug, Clone)]
pub struct ErrorForecaster {
    alpha: Measure,
    history: Vec<Measure>,
    level: Measure,
}

impl ErrorForecaster {
    /// The smoothing parameter.
    pub closed spec fn spec_alpha(&self) -> Measure {
        self.alpha
    }

    /// The observations so far, oldest first.
    pub closed spec fn observed(&self) -> Seq<Measure> {
        self.history@
    }

    /// The current level.
    pub closed spec fn spec_level(&self) -> Measure {
        self.level
    }

    /// A forecaster whose smoothing parameter is `alpha` limited to the
    /// interval from 0 to 1. It has seen nothing and its level is zero.
    pub fn new(alpha: Measure) -> (forecaster: Self)
        ensures
            forecaster.spec_alpha() == alpha.spec_clamp(Measure { bits: 0 }, Measure { bits: ONE_BITS }),
            !alpha.is_nan() ==> (Measure { bits: 0 }).spec_le(forecaster.spec_alpha()) && forecaster.spec_alpha().spec_le(
                Measure { bits: ONE_BITS },
            ),
            forecaster.observed().len() == 0,
            forecaster.spec_level().bits == 0,
    {
        let low = Measure::zero();
        let high = Measure::from_bits(ONE_BITS);
        ErrorForecaster { alpha: alpha.clamp(&low, &high), history: Vec::new(), level: Measure::zero() }
    }

    /// A forecaster with smoothing parameter 0.3.
    pub fn default_forecaster() -> (forecaster: Self)
        ensures
            forecaster.spec_alpha().bits == DEFAULT_ALPHA_BITS,
            forecaster.observed().len() == 0,
            forecaster.spec_level().bits == 0,
    {
        ErrorForecaster::new(Measure::from_bits(DEFAULT_ALPHA_BITS))
    }

    /// The smoothing parameter.
    pub fn alpha(&self) -> (alpha: Measure)
        ensures
            alpha == self.spec_alpha(),
    {
        self.alpha
    }

    /// Takes in the observation `value`. The first observation becomes the
    /// level; every later one moves the level to `smoothed`, which the
    /// caller formed from `value`, the parameter and the level before. The
    /// observation is appended to the history either way.
    pub fn observe(&mut self, value: Measure, smoothed: Measure)
        ensures
            final(self).observed() == old(self).observed().push(value),
            final(self).spec_level() == if old(self).observed().len() == 0 {
                value
            } else {
                smoothed
            },
            final(self).spec_alpha() == old(self).spec_alpha(),
    {
        if self.history.len() == 0 {
            self.level = value;
        } else {
            self.level = smoothed;
        }
        self.history.push(value);
    }

    /// The forecast of the next `n` values: the current level, `n` times.
    pub fn forecast(&self, n: usize) -> (values: Vec<Measure>)
        ensures
            values@.len() == n,
            forall|i: int| 0 <= i < n ==> #[trigger] values@[i] == self.spec_level(),
    {
        let mut values: Vec<Measure> = Vec::new();
        let mut i: usize = 0;
        while i < n
            invariant
                i <= n,
                values@.len() == i,
                forall|j: int| 0 <= j < i ==> #[trigger] values@[j] == self.spec_level(),
            decreases n - i,
        {
            values.push(self.level);
            i += 1;
        }
        values
    }

    /// The observations so far, oldest first.
    pub fn history(&self) -> (history: &Vec<Measure>)
        ensures
            history@ == self.observed(),
    {
        &self.history
    }

    /// The current level.
    pub fn current_level(&self) -> (level: Measure)
        ensures
            level == self.spec_level(),
    {
        self.level
    }

    /// The error metrics where nothing needs computing: with fewer than two
    /// observations every metric is zero. `None` where the history has to be
    /// replayed.
    pub fn trivial_metrics(&self) -> (metrics: Option<ForecastMetrics>)
        ensures
            self.observed().len() < 2 ==> metrics is Some && metrics->0.mae.bits == 0 && metrics->0.mse.bits == 0
                && metrics->0.rmse.bits == 0 && metrics->0.mape.bits == 0,
            self.observed().len() >= 2 ==> metrics is None,
    {
        if self.history.len() < 2 {
            Some(ForecastMetrics::default())
        } else {
            None
        }
    }

    /// Whether a percentage error can be formed: every observation after the
    /// first is clear of zero. Where it cannot, the percentage error is
    /// reported as a NaN.
    pub fn percentage_defined(&self) -> (defined: bool)
        ensures
            defined == all_clear_of_zero(self.observed()),
    {
        let mut i: usize = 1;
        while i < self.history.len()
            invariant
                1 <= i,
                forall|j: int| 1 <= j < i && j < self.history@.len() ==> clear_of_zero(#[trigger] self.history@[j]),
            decreases self.history@.len() - i,
        {
            let value = self.history[i];
            let magnitude: u64 = if value.bits >= crate::measure::SIGN_BIT {
                value.bits - crate::measure::SIGN_BIT
            } else {
                value.bits
            };
            if magnitude > INFINITY_BITS || magnitude <= EPSILON_BITS {
                return false;
            }
            i += 1;
        }
        true
    }
}

/// The history only grows: after an observation, everything seen before is
/// still there, in place.
pub proof fn lemma_history_grows(before: Seq<Measure>, value: Measure, i: int)
    requires
        0 <= i < before.len(),
    ensures
        before.push(value)[i] == before[i],
        before.push(value).len() == before.len() + 1,
        before.push(value).last() == value,
{
}

/// A smoothing parameter below 0 becomes 0, one above 1 becomes 1, and one
/// in between is kept.
pub proof fn lemma_alpha_is_limited(alpha: Measure)
    requires
        !alpha.is_nan(),
    ensures
        ({
            let zero = Measure { bits: 0 };
            let one = Measure { bits: ONE_BITS };
            let limited = alpha.spec_clamp(zero, one);
            &&& alpha.spec_lt(zero) ==> limited == zero
            &&& alpha.spec_gt(one) ==> limited == one
            &&& (zero.spec_le(alpha) && alpha.spec_le(one)) ==> limited == alpha
            &&& zero.spec_le(limited) && limited.spec_le(one)
        }),
{
}

} // verus!
