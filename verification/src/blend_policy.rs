//! Reliability-floor policy for the blend direction correction.
//!
//! This module is a dependency leaf: it holds the activation mode, the
//! threshold ratio and the correlated preference margin, so threshold scans can
//! build genuinely different geometries instead of re-classifying corners of
//! one shared topology.
use vstd::prelude::*;

use crate::fixed_point::Q16;

verus! {

/// Weighted-length ratio below which a blend direction is unreliable
/// (Q16 units: `1_024` == `1/64`).
pub const MIN_RELIABLE_DIRECTION_RATIO_Q16: i64 = 1_024;

/// Reference tie-break band as a ratio of the larger weighted length
/// (Q16 units: `8_192` == `1/8`).
pub const CORRELATED_PREFERENCE_MARGIN_Q16: i64 = 8_192;

/// Which measurement decides that a corner is below the reliability floor.
#[derive(Debug, Clone, Copy, PartialEq, Eq, Structural)]
pub enum BlendActivation {
    /// Compare the raw weighted length to the floor.
    WeightedLength,
    /// Compare the raw projection onto the reference to the floor.
    ReferenceProjection,
}

/// Deterministic reliability-floor law for one generation run.
#[derive(Debug, Clone, Copy, PartialEq, Eq, Structural)]
pub struct BlendReliabilityPolicy {
    minimum_direction_ratio_q16: i64,
    correlated_preference_margin_q16: i64,
    activation: BlendActivation,
}

impl BlendReliabilityPolicy {
    /// The floor ratio (Q16).
    pub closed spec fn ratio(self) -> i64 {
        self.minimum_direction_ratio_q16
    }

    /// The correlated preference margin (Q16).
    pub closed spec fn margin(self) -> i64 {
        self.correlated_preference_margin_q16
    }

    /// The activation mode.
    pub closed spec fn mode(self) -> BlendActivation {
        self.activation
    }

    /// A range of policies under which the blend of any in-range components
    /// is overflow-free: a non-negative floor of at most 16 (Q16) and a
    /// margin of magnitude at most one (Q16). The blend itself asks only
    /// that the policy fit the components at hand.
    pub open spec fn well_formed(self) -> bool {
        &&& 0 <= self.ratio() <= 16 * Q16
        &&& -Q16 <= self.margin() <= Q16
    }

    /// Whether a corner with these measurements is below the floor: the exact
    /// cross-multiplied predicate, which a non-positive target never meets.
    pub open spec fn below_floor(self, weighted_length: int, projection: int, target: int) -> bool {
        &&& target > 0
        &&& match self.mode() {
            BlendActivation::WeightedLength => weighted_length * Q16 < target * self.ratio(),
            BlendActivation::ReferenceProjection => projection * Q16 < target * self.ratio(),
        }
    }

    pub fn new(
        minimum_direction_ratio_q16: i64,
        correlated_preference_margin_q16: i64,
        activation: BlendActivation,
    ) -> (policy: Self)
        ensures
            policy.ratio() == minimum_direction_ratio_q16,
            policy.margin() == correlated_preference_margin_q16,
            policy.mode() == activation,
    {
        Self { minimum_direction_ratio_q16, correlated_preference_margin_q16, activation }
    }

    pub fn minimum_direction_ratio_q16(self) -> (ratio: i64)
        ensures
            ratio == self.ratio(),
    {
        self.minimum_direction_ratio_q16
    }

    pub fn correlated_preference_margin_q16(self) -> (margin: i64)
        ensures
            margin == self.margin(),
    {
        self.correlated_preference_margin_q16
    }

    pub fn activation(self) -> (activation: BlendActivation)
        ensures
            activation == self.mode(),
    {
        self.activation
    }

    /// Whether this blended corner must be corrected.
    ///
    /// Compared with cross multiplication in `i128` so the boundary is never
    /// rounded by an intermediate integer division: the exact predicate is
    /// `weighted / target < floor` (or the projection variant). A zero target
    /// cannot exceed any non-negative floor, so it never triggers.
    pub fn is_below_floor(
        self,
        weighted_length_q16: i64,
        raw_projection_q16: i64,
        target_q16: i64,
    ) -> (below: bool)
        ensures
            below == self.below_floor(
                weighted_length_q16 as int,
                raw_projection_q16 as int,
                target_q16 as int,
            ),
            target_q16 <= 0 ==> !below,
    {
        if target_q16 <= 0 {
            return false;
        }
        let target = target_q16 as i128;
        let floor = self.minimum_direction_ratio_q16 as i128;
        assert(-0x8000_0000_0000_0000 * 0x8000_0000_0000_0000 <= target * floor
            <= 0x8000_0000_0000_0000 * 0x8000_0000_0000_0000) by (nonlinear_arith)
            requires
                -0x8000_0000_0000_0000 <= target <= 0x8000_0000_0000_0000,
                -0x8000_0000_0000_0000 <= floor <= 0x8000_0000_0000_0000,
        ;
        match self.activation {
            BlendActivation::WeightedLength => {
                (weighted_length_q16 as i128) * (Q16 as i128) < target * floor
            },
            BlendActivation::ReferenceProjection => {
                (raw_projection_q16 as i128) * (Q16 as i128) < target * floor
            },
        }
    }
}

/// The production law as a value.
pub closed spec fn production_policy() -> BlendReliabilityPolicy {
    BlendReliabilityPolicy {
        minimum_direction_ratio_q16: MIN_RELIABLE_DIRECTION_RATIO_Q16,
        correlated_preference_margin_q16: CORRELATED_PREFERENCE_MARGIN_Q16,
        activation: BlendActivation::WeightedLength,
    }
}

/// The disabled law as a value.
pub closed spec fn disabled_policy() -> BlendReliabilityPolicy {
    BlendReliabilityPolicy {
        minimum_direction_ratio_q16: 0,
        correlated_preference_margin_q16: CORRELATED_PREFERENCE_MARGIN_Q16,
        activation: BlendActivation::WeightedLength,
    }
}

/// What the production and disabled laws hold.
pub proof fn lemma_named_policies()
    ensures
        production_policy().ratio() == MIN_RELIABLE_DIRECTION_RATIO_Q16,
        production_policy().margin() == CORRELATED_PREFERENCE_MARGIN_Q16,
        production_policy().mode() == BlendActivation::WeightedLength,
        production_policy().well_formed(),
        disabled_policy().ratio() == 0,
        disabled_policy().margin() == CORRELATED_PREFERENCE_MARGIN_Q16,
        disabled_policy().mode() == BlendActivation::WeightedLength,
        disabled_policy().well_formed(),
{
}

/// The law the production blend uses: 1/64 length threshold, 1/8 correlated
/// preference.
pub fn production_blend_reliability_policy() -> (policy: BlendReliabilityPolicy)
    ensures
        policy == production_policy(),
        policy.ratio() == MIN_RELIABLE_DIRECTION_RATIO_Q16,
        policy.margin() == CORRELATED_PREFERENCE_MARGIN_Q16,
        policy.mode() == BlendActivation::WeightedLength,
        policy.well_formed(),
{
    BlendReliabilityPolicy::new(
        MIN_RELIABLE_DIRECTION_RATIO_Q16,
        CORRELATED_PREFERENCE_MARGIN_Q16,
        BlendActivation::WeightedLength,
    )
}

/// The raw legacy law: a zero floor never triggers correction, so every corner
/// keeps the pre-floor normalization exactly.
pub fn disabled_blend_reliability_policy() -> (policy: BlendReliabilityPolicy)
    ensures
        policy == disabled_policy(),
        policy.ratio() == 0,
        policy.margin() == CORRELATED_PREFERENCE_MARGIN_Q16,
        policy.mode() == BlendActivation::WeightedLength,
        policy.well_formed(),
{
    BlendReliabilityPolicy::new(0, CORRELATED_PREFERENCE_MARGIN_Q16, BlendActivation::WeightedLength)
}

/// Builds a scanning candidate from an explicit ratio and activation mode.
pub fn candidate_policy(
    minimum_direction_ratio_q16: i64,
    activation: BlendActivation,
) -> (policy: BlendReliabilityPolicy)
    ensures
        policy.ratio() == minimum_direction_ratio_q16,
        policy.margin() == CORRELATED_PREFERENCE_MARGIN_Q16,
        policy.mode() == activation,
        minimum_direction_ratio_q16 == MIN_RELIABLE_DIRECTION_RATIO_Q16 && activation
            == BlendActivation::WeightedLength ==> policy == production_policy(),
{
    BlendReliabilityPolicy::new(
        minimum_direction_ratio_q16,
        CORRELATED_PREFERENCE_MARGIN_Q16,
        activation,
    )
}

/// A policy is its floor ratio, margin and activation mode: two policies that
/// agree on all three are the same policy. So a candidate equals the policy
/// that `new` builds from its ratio, the correlated preference margin and its
/// mode.
pub proof fn law_policy_determined_by_its_fields(a: BlendReliabilityPolicy, b: BlendReliabilityPolicy)
    requires
        a.ratio() == b.ratio(),
        a.margin() == b.margin(),
        a.mode() == b.mode(),
    ensures
        a == b,
{
}

/// A zero floor under the length activation never triggers a correction, for
/// any measured corner: the disabled law keeps every corner raw.
pub proof fn law_zero_length_floor_never_triggers(
    policy: BlendReliabilityPolicy,
    weighted_length: int,
    projection: int,
    target: int,
)
    requires
        policy.ratio() == 0,
        policy.mode() == BlendActivation::WeightedLength,
        weighted_length >= 0,
    ensures
        !policy.below_floor(weighted_length, projection, target),
{
}

} // verus!
