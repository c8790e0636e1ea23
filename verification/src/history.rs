//! The integer half of the body-history lookup.
//!
//! The simulation stores an ordered sequence of body snapshots. A time is
//! mapped to a snapshot by scaling it to a raw step number and clamping that
//! step into the stored range, with no interpolation between snapshots. The
//! scaling is floating-point work and stays with the tracer; the clamping is
//! exact and lives here.

use vstd::prelude::*;

verus! {

/// The snapshot index a raw step number selects: the step itself while it is
/// in range, else the last index.
pub open spec fn spec_snapshot_index(step: int, len: int) -> int {
    if step < len {
        step
    } else {
        len - 1
    }
}

/// Clamps a raw step number into the range of a non-empty snapshot sequence.
pub fn snapshot_index(step: usize, len: usize) -> (i: usize)
    requires
        len > 0,
    ensures
        i == spec_snapshot_index(step as int, len as int),
        i < len,
{
    if step < len {
        step
    } else {
        len - 1
    }
}

/// The snapshot lookup never runs backward: a later raw step selects the
/// same snapshot or a later one.
pub proof fn lemma_snapshot_index_monotonic(a: int, b: int, len: int)
    requires
        0 <= a <= b,
        len > 0,
    ensures
        spec_snapshot_index(a, len) <= spec_snapshot_index(b, len),
{
}

} // verus!
