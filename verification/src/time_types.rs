use vstd::prelude::*;

verus! {

/// A signed time scalar with one-millisecond granularity.  Both points on
/// the timeline and differences between points use this type.
pub type TimeDelta = i64;

/// A point on the timeline (an instant, in milliseconds).
pub type TimePoint = i64;

} // verus!
