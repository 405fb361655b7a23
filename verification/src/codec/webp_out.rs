//! The frame checks and timing of animated WebP export.
//!
//! The encoder itself is driven by the application layer, because its
//! configuration carries a floating-point quality. What it is fed is
//! decided here: the canvas is the first frame's size and every frame must
//! have it (the encoder reads each buffer at canvas size), and frame `i`
//! starts at the sum of the durations before it (the first at 0), capped
//! at `i32::MAX` milliseconds.
use crate::errors::AppError;
use crate::model::frame::Frame;
use std::sync::Arc;
use vstd::prelude::*;
use vstd::string::StringExecFns;

verus! {

/// All frames have the first frame's size.
pub open spec fn same_size(frames: Seq<Arc<Frame>>) -> bool {
    forall|i: int| #![trigger frames[i]]
        0 <= i < frames.len() ==> frames[i]@.width == frames[0]@.width && frames[i]@.height == frames[0]@.height
}

/// The canvas for an animated WebP: the first frame's size. An empty list
/// and a frame of another size are encode errors.
pub fn webp_canvas(frames: &[Arc<Frame>]) -> (r: Result<(u32, u32), AppError>)
    ensures
        frames@.len() == 0 ==> (r matches Err(AppError::Encode(m)) && m@ == "no frames"@),
        frames@.len() > 0 && !same_size(frames@) ==> (r matches Err(AppError::Encode(m)) && m@
            == "frame size mismatch with canvas"@),
        frames@.len() > 0 && same_size(frames@) ==> r == Ok::<(u32, u32), AppError>(
            (frames@[0]@.width, frames@[0]@.height),
        ),
{
    proof {
        reveal_strlit("no frames");
        reveal_strlit("frame size mismatch with canvas");
    }
    if frames.len() == 0 {
        return Err(AppError::Encode(String::from_str("no frames")));
    }
    let w = frames[0].width();
    let h = frames[0].height();
    let mut i: usize = 0;
    while i < frames.len()
        invariant
            0 <= i <= frames@.len(),
            frames@.len() > 0,
            w == frames@[0]@.width,
            h == frames@[0]@.height,
            forall|j: int| #![trigger frames@[j]]
                0 <= j < i ==> frames@[j]@.width == w && frames@[j]@.height == h,
        decreases frames@.len() - i,
    {
        if frames[i].width() != w || frames[i].height() != h {
            return Err(AppError::Encode(String::from_str("frame size mismatch with canvas")));
        }
        i = i + 1;
    }
    Ok((w, h))
}

/// Sum of the durations of the first `n` frames, in milliseconds.
pub open spec fn elapsed_ms(frames: Seq<Arc<Frame>>, n: int) -> int
    decreases n,
{
    if n <= 0 {
        0
    } else {
        elapsed_ms(frames, n - 1) + frames[n - 1]@.duration_ms
    }
}

/// Start time of frame `i`: the durations before it, capped at `i32::MAX`.
pub open spec fn start_ms(frames: Seq<Arc<Frame>>, i: int) -> i32 {
    if elapsed_ms(frames, i) > i32::MAX {
        i32::MAX
    } else {
        elapsed_ms(frames, i) as i32
    }
}

/// The start time of every frame (see `start_ms`).
pub fn webp_timestamps(frames: &[Arc<Frame>]) -> (r: Vec<i32>)
    ensures
        r@.len() == frames@.len(),
        forall|i: int| #![trigger r@[i]] 0 <= i < r@.len() ==> r@[i] == start_ms(frames@, i),
{
    let mut r: Vec<i32> = Vec::new();
    let mut acc: u64 = 0;
    let mut i: usize = 0;
    while i < frames.len()
        invariant
            0 <= i <= frames@.len(),
            r@.len() == i,
            acc == (if elapsed_ms(frames@, i as int) > i32::MAX {
                i32::MAX as int
            } else {
                elapsed_ms(frames@, i as int)
            }),
            forall|j: int| #![trigger r@[j]] 0 <= j < i ==> r@[j] == start_ms(frames@, j),
        decreases frames@.len() - i,
    {
        let ghost before = r@;
        r.push(acc as i32);
        proof {
            assert forall|j: int| #![trigger r@[j]] 0 <= j < i + 1 implies r@[j] == start_ms(frames@, j) by {
                if j < i {
                    assert(r@[j] == before[j]);
                }
            }
        }
        let next = acc + frames[i].duration_ms() as u64;
        acc = if next > i32::MAX as u64 {
            i32::MAX as u64
        } else {
            next
        };
        i = i + 1;
    }
    r
}

} // verus!
