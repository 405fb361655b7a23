//! The decisions of the export and resize dialogs: when a size estimate is
//! requested (a 300 ms debounce on parameter changes), which estimate line
//! is shown, and how a locked aspect ratio carries one side to the other.
use crate::errors::AppError;
use crate::model::{Action, ExportFormat};
use vstd::prelude::*;

verus! {

/// Quiet time after the last parameter change before an estimate is sent.
pub const ESTIMATE_DEBOUNCE_MS: u64 = 300;

/// Largest side the resize dialog accepts.
pub const MAX_RESIZE_SIDE: u32 = 10000;

/// What the export dialog does about the size estimate this frame.
#[derive(Debug, Clone, Copy, PartialEq, Eq, Structural)]
pub enum EstimateStep {
    /// Request an estimate for the current parameters now.
    Send,
    /// A change is waiting out the debounce; look again after this long.
    Wait { remaining_ms: u64 },
    /// Nothing to do.
    Idle,
}

/// The step together with whether a change mark stays set afterwards
/// (started now when there was none).
#[derive(Debug, Clone, Copy, PartialEq, Eq, Structural)]
pub struct Debounced {
    pub step: EstimateStep,
    pub keep_mark: bool,
}

/// Whether the current parameters differ from those last sent (nothing
/// sent counts as differing).
pub open spec fn differs_from(sent: Option<ExportFormat>, current: ExportFormat) -> bool {
    match sent {
        Some(f) => f != current,
        None => true,
    }
}

/// The debounce rule. A pending change is one not yet sent; its mark starts
/// when it is first seen. An estimate is sent when the parameters changed,
/// or when nothing changed but the model dropped its result, provided the
/// last change is at least `ESTIMATE_DEBOUNCE_MS` old and no estimate is
/// running; a change still inside the debounce waits out the rest.
pub open spec fn debounce(
    sent: Option<ExportFormat>,
    current: ExportFormat,
    pending_ms: Option<u64>,
    result_missing: bool,
    in_flight: bool,
) -> Debounced {
    let differs = differs_from(sent, current);
    let age: u64 = match pending_ms {
        Some(t) => t,
        None => 0,
    };
    let due = !differs || age >= ESTIMATE_DEBOUNCE_MS;
    let refresh = !differs && result_missing && !in_flight;
    if (differs || refresh) && due && !in_flight {
        Debounced { step: EstimateStep::Send, keep_mark: false }
    } else if differs && !due {
        Debounced {
            step: EstimateStep::Wait { remaining_ms: (ESTIMATE_DEBOUNCE_MS - age) as u64 },
            keep_mark: true,
        }
    } else {
        Debounced { step: EstimateStep::Idle, keep_mark: differs }
    }
}

/// The export dialog's estimate decision for this frame. `pending_ms` is the
/// age in milliseconds of the change mark, `None` when none is set.
pub fn estimate_step(
    sent: Option<&ExportFormat>,
    current: &ExportFormat,
    pending_ms: Option<u64>,
    result_missing: bool,
    in_flight: bool,
) -> (r: Debounced)
    ensures
        r == debounce(
            match sent {
                Some(f) => Some(*f),
                None => None,
            },
            *current,
            pending_ms,
            result_missing,
            in_flight,
        ),
{
    let differs = match sent {
        Some(f) => *f != *current,
        None => true,
    };
    let age: u64 = match pending_ms {
        Some(t) => t,
        None => 0,
    };
    let due = !differs || age >= ESTIMATE_DEBOUNCE_MS;
    let refresh = !differs && result_missing && !in_flight;
    if (differs || refresh) && due && !in_flight {
        Debounced { step: EstimateStep::Send, keep_mark: false }
    } else if differs && !due {
        Debounced {
            step: EstimateStep::Wait { remaining_ms: ESTIMATE_DEBOUNCE_MS - age },
            keep_mark: true,
        }
    } else {
        Debounced { step: EstimateStep::Idle, keep_mark: differs }
    }
}

/// The estimate line of the export dialog.
#[derive(Debug, Clone, Copy, PartialEq, Eq, Structural)]
pub enum EstimateLine {
    /// The parameters changed since the last estimate was sent.
    Modified,
    /// No result yet.
    Pending,
    /// The estimated size in bytes.
    Size(u64),
    /// The trial encode failed.
    Failed,
}

/// Which estimate line shows: "modified" while the parameters differ from
/// the ones sent, else the model's result.
pub open spec fn line_for(
    sent: Option<ExportFormat>,
    current: ExportFormat,
    result: Option<Result<u64, AppError>>,
) -> EstimateLine {
    if sent is Some && sent->0 != current {
        EstimateLine::Modified
    } else {
        match result {
            None => EstimateLine::Pending,
            Some(Ok(b)) => EstimateLine::Size(b),
            Some(Err(_)) => EstimateLine::Failed,
        }
    }
}

/// The estimate line for the current parameters and the model's result.
pub fn estimate_line(
    sent: Option<&ExportFormat>,
    current: &ExportFormat,
    result: &Option<Result<u64, AppError>>,
) -> (r: EstimateLine)
    ensures
        r == line_for(
            match sent {
                Some(f) => Some(*f),
                None => None,
            },
            *current,
            *result,
        ),
{
    let changed = match sent {
        Some(f) => *f != *current,
        None => false,
    };
    if changed {
        EstimateLine::Modified
    } else {
        match result {
            None => EstimateLine::Pending,
            Some(Ok(b)) => EstimateLine::Size(*b),
            Some(Err(_)) => EstimateLine::Failed,
        }
    }
}

/// `n / d` rounded to the nearest integer, halves up.
pub open spec fn round_div(n: int, d: int) -> int {
    (2 * n + d) / (2 * d)
}

/// `v` kept within `1..=MAX_RESIZE_SIDE`.
pub open spec fn side_in_range(v: int) -> u32 {
    if v < 1 {
        1
    } else if v > MAX_RESIZE_SIDE {
        MAX_RESIZE_SIDE
    } else {
        v as u32
    }
}

/// With the aspect ratio locked, the other side after one side changed
/// from `old_a` to `new_a`: `new_a * old_b / old_a` rounded to the nearest
/// integer (halves up), kept within `1..=MAX_RESIZE_SIDE`.
pub fn locked_side(new_a: u32, old_a: u32, old_b: u32) -> (r: u32)
    requires
        old_a > 0,
    ensures
        r == side_in_range(round_div(new_a * old_b, old_a as int)),
        1 <= r <= MAX_RESIZE_SIDE,
{
    let a: u128 = new_a as u128;
    let b: u128 = old_b as u128;
    assert(a * b <= 0xffff_ffff_u128 * 0xffff_ffff_u128) by (nonlinear_arith)
        requires
            a <= 0xffff_ffff,
            b <= 0xffff_ffff,
    ;
    let n: u128 = a * b;
    let d: u128 = old_a as u128;
    let q: u128 = (2 * n + d) / (2 * d);
    if q < 1 {
        1
    } else if q > MAX_RESIZE_SIDE as u128 {
        MAX_RESIZE_SIDE
    } else {
        q as u32
    }
}

/// The generation that follows `last` (after `u64::MAX` the count starts
/// over at 0).
pub open spec fn next_generation(last: u64) -> u64 {
    if last == u64::MAX {
        0
    } else {
        (last + 1) as u64
    }
}

/// The estimate request the export dialog sends: the next generation after
/// the last one it sent, and the request for `format` under it (the model
/// keeps only the answer to the latest generation).
pub fn estimate_request(last_generation: u64, format: ExportFormat) -> (r: (u64, Action))
    ensures
        r.0 == next_generation(last_generation),
        r.1 == (Action::EstimateRequested { generation: r.0, format }),
{
    let generation = last_generation.wrapping_add(1);
    (generation, Action::EstimateRequested { generation, format })
}

} // verus!
