//! Immutable frames and their stable identities.
use crate::platform::arc_clone;
use std::sync::Arc;
use vstd::prelude::*;

verus! {

/// Stable identity of a frame. It stays the same across reorder, delete and
/// undo; selection and texture caches are keyed by it.
#[derive(Debug, Clone, Copy, PartialEq, Eq, Hash, PartialOrd, Ord, Structural)]
pub struct FrameId(pub u64);

/// Immutable frame: flat RGBA8 bytes shared through an `Arc`, so that
/// snapshot-based undo never copies pixels.
#[derive(Debug)]
pub struct Frame {
    data: Arc<Vec<u8>>,
    width: u32,
    height: u32,
    duration_ms: u32,
}

/// Mathematical content of a frame.
pub struct FrameView {
    pub width: u32,
    pub height: u32,
    /// Display time of the frame in milliseconds.
    pub duration_ms: u32,
    /// Row-major RGBA8 bytes.
    pub pixels: Seq<u8>,
}

/// Byte length of an RGBA8 buffer of the given dimensions.
pub open spec fn rgba_len(width: u32, height: u32) -> int {
    width * height * 4
}

impl View for Frame {
    type V = FrameView;

    closed spec fn view(&self) -> FrameView {
        FrameView {
            width: self.width,
            height: self.height,
            duration_ms: self.duration_ms,
            pixels: self.data@,
        }
    }
}

impl Frame {
    /// Every frame holds exactly `width * height` RGBA pixels: the two ways
    /// to make one keep the buffer and the dimensions in step.
    #[verifier::type_invariant]
    spec fn sized(self) -> bool {
        self.data@.len() == rgba_len(self.width, self.height)
    }

    /// The buffer holds exactly `width * height` RGBA pixels.
    pub open spec fn wf(&self) -> bool {
        self@.pixels.len() == rgba_len(self@.width, self@.height)
    }

    /// Builds a frame after checking the buffer size against the dimensions.
    pub fn from_rgba(data: Vec<u8>, width: u32, height: u32, duration_ms: u32) -> (r: Option<Self>)
        ensures
            r is Some <==> data@.len() == rgba_len(width, height),
            r matches Some(f) ==> {
                &&& f@.pixels == data@
                &&& f@.width == width
                &&& f@.height == height
                &&& f@.duration_ms == duration_ms
                &&& f.wf()
            },
    {
        let w: u128 = width as u128;
        let h: u128 = height as u128;
        assert(w * h <= 0xffff_ffff_ffff_ffff_ffff_ffffu128 && w * h * 4 <= 0xffff_ffff_ffff_ffff_ffff_ffff_ffffu128) by (nonlinear_arith)
            requires
                w <= 0xffff_ffffu128,
                h <= 0xffff_ffffu128,
        {
        }
        let expected: u128 = w * h * 4;
        if data.len() as u128 != expected {
            return None;
        }
        Some(Frame { data: Arc::new(data), width, height, duration_ms })
    }

    /// Width in pixels.
    pub fn width(&self) -> (r: u32)
        ensures
            r == self@.width,
    {
        self.width
    }

    /// Height in pixels.
    pub fn height(&self) -> (r: u32)
        ensures
            r == self@.height,
    {
        self.height
    }

    /// Display time in milliseconds.
    pub fn duration_ms(&self) -> (r: u32)
        ensures
            r == self@.duration_ms,
    {
        self.duration_ms
    }

    /// The RGBA8 bytes; there are always `width * height * 4` of them.
    pub fn as_rgba(&self) -> (r: &[u8])
        ensures
            r@ == self@.pixels,
            self.wf(),
    {
        proof {
            use_type_invariant(self);
        }
        self.data.as_slice()
    }

    /// A new shared handle on the pixel buffer (no copy).
    pub fn arc_data(&self) -> (r: Arc<Vec<u8>>)
        ensures
            r@ == self@.pixels,
    {
        arc_clone(&self.data)
    }

    /// Bytes held by the pixel buffer.
    pub fn memory_size(&self) -> (r: usize)
        ensures
            r == self@.pixels.len(),
    {
        self.data.len()
    }

    /// The same pixels with another duration; the buffer is shared, not copied.
    pub fn with_duration(&self, duration_ms: u32) -> (r: Self)
        ensures
            r@.pixels == self@.pixels,
            r@.width == self@.width,
            r@.height == self@.height,
            r@.duration_ms == duration_ms,
    {
        proof {
            use_type_invariant(self);
        }
        Frame { data: arc_clone(&self.data), width: self.width, height: self.height, duration_ms }
    }
}

} // verus!
