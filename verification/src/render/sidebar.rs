//! The selection panel's duration field: whether the selected frames have
//! different durations, and the value the field starts from.
use vstd::prelude::*;

verus! {

/// Value of the duration field when the selected durations differ.
pub const DEFAULT_DURATION_MS: u32 = 100;

/// More than one duration and not all equal to the first.
pub open spec fn mixed_durations(d: Seq<u32>) -> bool {
    d.len() > 1 && exists|i: int| 0 <= i < d.len() && #[trigger] d[i] != d[0]
}

/// The field's starting value: the common duration, or the default when the
/// durations differ or there are none.
pub open spec fn field_start(d: Seq<u32>) -> u32 {
    if mixed_durations(d) || d.len() == 0 {
        DEFAULT_DURATION_MS
    } else {
        d[0]
    }
}

/// For the durations of the selected frames: whether they differ, and the
/// duration field's starting value.
pub fn duration_field(durations: &[u32]) -> (r: (bool, u32))
    ensures
        r.0 == mixed_durations(durations@),
        r.1 == field_start(durations@),
{
    if durations.len() == 0 {
        return (false, DEFAULT_DURATION_MS);
    }
    let first = durations[0];
    let mut i: usize = 1;
    while i < durations.len()
        invariant
            1 <= i <= durations@.len(),
            first == durations@[0],
            forall|j: int| 0 <= j < i ==> durations@[j] == first,
        decreases durations@.len() - i,
    {
        if durations[i] != first {
            proof {
                assert(durations@[i as int] != durations@[0]);
            }
            return (true, DEFAULT_DURATION_MS);
        }
        i = i + 1;
    }
    (false, first)
}

} // verus!
