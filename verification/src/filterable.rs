//! The arithmetic and comparison that the filters ask of a voxel value type.
use vstd::prelude::*;

verus! {

/// Values that the filters can smooth and shift.
///
/// The filters gather the samples around each voxel, decide which voxels
/// change, and sort each median neighbourhood; adding, averaging and
/// comparing two values belong to the value type. An
/// implementation answers each call as a function of its arguments: the
/// spec functions below name those answers, and the filters' contracts are
/// stated over them. What is proved of the filters therefore holds of every
/// implementation that keeps these `ensures`; nothing here checks an
/// implementation written outside verification, such as one on floats.
///
/// The spec functions carry bodies because compiled code keeps a bodiless
/// spec function of a trait as a method that every implementation, verified
/// or not, would then have to define. Verus does not unfold these bodies for
/// a generic value type, so the filters' proofs treat the three answers as
/// unknown; a verified implementation overrides them with its own.
pub trait Filterable: Copy + Sized {
    /// The value that `add_value` returns.
    open spec fn spec_add_value(self, other: Self) -> Self {
        vstd::pervasive::arbitrary()
    }

    /// The value that `mean_value` returns.
    open spec fn spec_mean_value(samples: Seq<Self>, kernel_size: int) -> Self {
        vstd::pervasive::arbitrary()
    }

    /// Whether `self` comes strictly before `other` in the order by which
    /// the median filter sorts its samples.
    open spec fn spec_precedes(self, other: Self) -> bool {
        vstd::pervasive::arbitrary()
    }

    /// `self + other`.
    fn add_value(self, other: Self) -> (r: Self)
        ensures
            r == self.spec_add_value(other),
    ;

    /// The box-filter value of a non-empty run of samples: their sum
    /// weighted by `1 / kernel_size`.
    fn mean_value(samples: &Vec<Self>, kernel_size: i32) -> (r: Self)
        requires
            samples@.len() > 0,
            kernel_size >= 1,
        ensures
            r == Self::spec_mean_value(samples@, kernel_size as int),
    ;

    /// Whether `self` comes strictly before `other`; the median filter
    /// sorts its samples by this comparison.
    fn precedes(&self, other: &Self) -> (r: bool)
        ensures
            r == self.spec_precedes(*other),
    ;
}

} // verus!
