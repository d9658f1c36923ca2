//! Identities of the measured profile-acceptance metrics.
use vstd::prelude::*;

verus! {

/// Identity of a single measured metric, used by typed acceptance issues.
#[derive(Debug, Clone, Copy, PartialEq, Eq, Structural)]
pub enum ProfileMetric {
    AverageDisplacementRatio,
    MaximumDisplacementRatio,
    MinimumEdgeLengthRatio,
    MaximumEdgeLengthRatio,
    MinimumInteriorAngleDegrees,
    MaximumInteriorAngleDegrees,
    MinimumAspectQuality,
    ReducedVertexRatio,
    RegularFallbackRatio,
}

/// The human-readable name of each metric.
pub open spec fn metric_name(metric: ProfileMetric) -> Seq<char> {
    match metric {
        ProfileMetric::AverageDisplacementRatio => "average displacement"@,
        ProfileMetric::MaximumDisplacementRatio => "maximum displacement"@,
        ProfileMetric::MinimumEdgeLengthRatio => "minimum edge"@,
        ProfileMetric::MaximumEdgeLengthRatio => "maximum edge"@,
        ProfileMetric::MinimumInteriorAngleDegrees => "minimum interior angle"@,
        ProfileMetric::MaximumInteriorAngleDegrees => "maximum interior angle"@,
        ProfileMetric::MinimumAspectQuality => "minimum aspect quality"@,
        ProfileMetric::ReducedVertexRatio => "reduced vertex ratio"@,
        ProfileMetric::RegularFallbackRatio => "regular fallback ratio"@,
    }
}

impl ProfileMetric {
    pub fn name(self) -> (name: &'static str)
        ensures
            name@ == metric_name(self),
    {
        match self {
            Self::AverageDisplacementRatio => "average displacement",
            Self::MaximumDisplacementRatio => "maximum displacement",
            Self::MinimumEdgeLengthRatio => "minimum edge",
            Self::MaximumEdgeLengthRatio => "maximum edge",
            Self::MinimumInteriorAngleDegrees => "minimum interior angle",
            Self::MaximumInteriorAngleDegrees => "maximum interior angle",
            Self::MinimumAspectQuality => "minimum aspect quality",
            Self::ReducedVertexRatio => "reduced vertex ratio",
            Self::RegularFallbackRatio => "regular fallback ratio",
        }
    }
}

} // verus!
