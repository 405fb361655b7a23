//! GIF encoding with the `gif` crate.
//!
//! Every frame carries its own palette (NeuQuant quantisation at the
//! preset's speed), so the global palette is empty. The NETSCAPE2.0 block
//! says how often to loop (0 = forever). `Frame::from_rgba_speed` rewrites
//! the buffer it is given, so each frame's pixels are copied first; stored
//! frames are never touched.
use super::gif_in::GifRepeat;
use super::{gif_speed_for, speed_of};
use crate::errors::AppError;
use crate::model::frame::Frame;
use crate::model::GifQuality;
use crate::text::{decimal, push_decimal};
use gif::Frame as GifFrame;
use std::sync::Arc;
use vstd::prelude::*;
use vstd::string::StringExecFns;

verus! {

/// The `gif` crate's encoding error.
#[verifier::external_type_specification]
#[verifier::external_body]
pub struct ExEncodingError(gif::EncodingError);

/// A GIF encoder writing into memory. The `gif` crate's `Encoder<W>` cannot
/// be declared as an outside type here (its writer parameter is bounded
/// by `std::io::Write`), so this holder is opaque; the functions below are
/// its only operations.
#[verifier::external_body]
pub struct GifWriter {
    enc: gif::Encoder<Vec<u8>>,
}

/// What is written to a GIF stream after its header.
pub enum GifEvent {
    /// The NETSCAPE2.0 repeat block.
    Repeat(GifRepeat),
    /// A frame quantised from RGBA pixels at a NeuQuant speed, with its
    /// delay in hundredths of a second.
    Frame { width: u16, height: u16, rgba: Seq<u8>, speed: i32, delay: u16 },
}

/// The logical screen size a writer was made with.
pub uninterp spec fn gif_screen(w: GifWriter) -> (u16, u16);

/// What has been written to a writer after the header, in order.
pub uninterp spec fn gif_written(w: GifWriter) -> Seq<GifEvent>;

/// The bytes of a GIF with this logical screen and an empty global palette,
/// these events, and the trailer, as the `gif` crate writes them.
pub uninterp spec fn gif_file_of(screen: (u16, u16), events: Seq<GifEvent>) -> Seq<u8>;

/// The `gif` crate's encoding error as the editor's error: I/O errors stay
/// I/O errors, format errors become encode errors with their message.
#[verifier::external_body]
fn map_enc_err(e: gif::EncodingError) -> AppError {
    match e {
        gif::EncodingError::Io(io) => AppError::Io(io),
        gif::EncodingError::Format(f) => AppError::Encode(f.to_string()),
    }
}

/// Calls `gif::Encoder::new` over an empty `Vec` with the logical screen
/// size and an empty global palette (which writes the header); nothing is
/// written after the header yet. It succeeds: writes to a `Vec` do not
/// fail, and an empty palette is within the 256-colour limit.
#[verifier::external_body]
fn gif_writer_new(width: u16, height: u16) -> (r: Result<GifWriter, AppError>)
    ensures
        r is Ok,
        r matches Ok(w) ==> gif_screen(w) == (width, height) && gif_written(w) == Seq::<GifEvent>::empty(),
{
    gif::Encoder::new(Vec::new(), width, height, &[]).map(|enc| GifWriter { enc }).map_err(map_enc_err)
}

/// Calls `Encoder::set_repeat`, which writes the NETSCAPE2.0 block; it
/// succeeds, since writes to a `Vec` do not fail.
#[verifier::external_body]
fn gif_set_repeat(w: &mut GifWriter, repeat: GifRepeat) -> (r: Result<(), AppError>)
    ensures
        r is Ok,
        gif_screen(*final(w)) == gif_screen(*old(w)) && gif_written(*final(w)) == gif_written(
            *old(w),
        ).push(GifEvent::Repeat(repeat)),
{
    let r = match repeat {
        GifRepeat::Infinite => gif::Repeat::Infinite,
        GifRepeat::Finite(n) => gif::Repeat::Finite(n),
    };
    w.enc.set_repeat(r).map_err(map_enc_err)
}

/// Quantises the pixels with `gif::Frame::from_rgba_speed`, sets the
/// frame's delay (hundredths of a second) and writes it with
/// `Encoder::write_frame`. The crate asserts that the buffer holds exactly
/// `width * height` RGBA pixels and that the speed lies in 1..=30. The
/// quantised frame always carries a palette of at most 256 colours and an
/// index buffer of `width * height`, and writes to a `Vec` do not fail, so
/// the one failure left is the encoder's `try_reserve` of its compression
/// buffer being refused by the allocator, reported as an I/O error.
#[verifier::external_body]
fn gif_write_rgba(w: &mut GifWriter, width: u16, height: u16, rgba: Vec<u8>, speed: i32, delay: u16) -> (r: Result<
    (),
    AppError,
>)
    requires
        rgba@.len() == width * height * 4,
        1 <= speed <= 30,
    ensures
        r is Ok || r matches Err(AppError::Io(_)),
        r is Ok ==> gif_screen(*final(w)) == gif_screen(*old(w)) && gif_written(*final(w)) == gif_written(
            *old(w),
        ).push(GifEvent::Frame { width, height, rgba: rgba@, speed, delay }),
{
    let mut rgba = rgba;
    let mut frame = GifFrame::from_rgba_speed(width, height, &mut rgba, speed);
    frame.delay = delay;
    w.enc.write_frame(&frame).map_err(map_enc_err)
}

/// Calls `Encoder::into_inner`, which writes the trailer and hands back the
/// written bytes; it succeeds (writes to a `Vec` do not fail), and the
/// bytes hold at least the 13-byte screen descriptor and the trailer.
#[verifier::external_body]
fn gif_writer_finish(w: GifWriter) -> (r: Result<Vec<u8>, AppError>)
    ensures
        r is Ok,
        r matches Ok(b) ==> b@ == gif_file_of(gif_screen(w), gif_written(w)) && b@.len() >= 14,
{
    w.enc.into_inner().map_err(AppError::Io)
}

/// A frame duration in milliseconds as a GIF delay in hundredths of a
/// second: rounded (halves up), capped at `u16::MAX`; 0 stays 0.
pub open spec fn centis(duration_ms: u32) -> u16 {
    if (duration_ms + 5) / 10 > 0xffff {
        0xffff
    } else {
        ((duration_ms + 5) / 10) as u16
    }
}

/// Frame duration in milliseconds to a GIF delay (see `centis`).
pub fn delay_centis(duration_ms: u32) -> (r: u16)
    ensures
        r == centis(duration_ms),
{
    let c: u64 = (duration_ms as u64 + 5) / 10;
    if c > 0xffff {
        0xffff
    } else {
        c as u16
    }
}

/// The error for a dimension that does not fit GIF's 16-bit fields.
pub open spec fn dim_error(what: Seq<char>, v: u32) -> Seq<char> {
    what + " "@ + decimal(v as nat) + " exceeds GIF u16 limit"@
}

/// A canvas or frame dimension as GIF's 16-bit field; larger values cannot
/// be encoded.
pub fn to_u16_dim(v: u32, what: &str) -> (r: Result<u16, AppError>)
    ensures
        v <= 0xffff ==> r == Ok::<u16, AppError>(v as u16),
        v > 0xffff ==> (r matches Err(AppError::Encode(m)) && m@ == dim_error(what@, v)),
{
    if v <= 0xffff {
        Ok(v as u16)
    } else {
        let mut m = String::from_str(what);
        m.append(" ");
        push_decimal(&mut m, v as u128);
        m.append(" exceeds GIF u16 limit");
        proof {
            reveal_strlit(" ");
            reveal_strlit(" exceeds GIF u16 limit");
        }
        Err(AppError::Encode(m))
    }
}

/// The repeat setting for a loop count (0 = forever).
pub open spec fn repeat_for(loop_count: u16) -> GifRepeat {
    if loop_count == 0 {
        GifRepeat::Infinite
    } else {
        GifRepeat::Finite(loop_count)
    }
}

/// The frame event of a document frame: its pixels at the given speed, its
/// duration as a delay.
pub open spec fn frame_event(f: crate::model::frame::FrameView, speed: i32) -> GifEvent {
    GifEvent::Frame {
        width: f.width as u16,
        height: f.height as u16,
        rgba: f.pixels,
        speed,
        delay: centis(f.duration_ms),
    }
}

/// What the encoder is fed for the first `n` frames of a document: the
/// repeat block for the loop count, then each frame in order.
pub open spec fn gif_events(frames: Seq<Arc<Frame>>, n: int, loop_count: u16, speed: i32) -> Seq<GifEvent> {
    seq![GifEvent::Repeat(repeat_for(loop_count))] + Seq::new(
        n as nat,
        |i: int| frame_event(frames[i]@, speed),
    )
}

/// Encodes the frames as a GIF appended to `out` and returns the number of
/// bytes written. The logical screen is the first frame's size (all frames
/// of a document share it); the loop count is written as the NETSCAPE2.0
/// repeat (0 = forever); each frame is quantised with its own palette at
/// the preset's speed and keeps its duration as a delay. An empty list and
/// sizes beyond GIF's 16-bit fields are encode errors; otherwise it
/// succeeds unless the allocator refuses the encoder's buffer (an I/O
/// error). On any error `out` is left as it was.
pub fn encode_gif(frames: &[Arc<Frame>], loop_count: u16, quality: GifQuality, out: &mut Vec<u8>) -> (r: Result<
    u64,
    AppError,
>)
    requires
        forall|i: int| #![trigger frames@[i]] 0 <= i < frames@.len() ==> frames@[i].wf(),
    ensures
        frames@.len() == 0 ==> (r matches Err(AppError::Encode(m)) && m@ == "no frames"@),
        frames@.len() > 0 && frames@[0]@.width > 0xffff ==> (r matches Err(AppError::Encode(m)) && m@ == dim_error(
            "canvas width"@,
            frames@[0]@.width,
        )),
        frames@.len() > 0 && frames@[0]@.width <= 0xffff && frames@[0]@.height > 0xffff ==> (r matches Err(
            AppError::Encode(m),
        ) && m@ == dim_error("canvas height"@, frames@[0]@.height)),
        r is Ok ==> forall|i: int| #![trigger frames@[i]]
            0 <= i < frames@.len() ==> frames@[i]@.width <= 0xffff && frames@[i]@.height <= 0xffff,
        frames@.len() > 0 && (forall|i: int| #![trigger frames@[i]]
            0 <= i < frames@.len() ==> frames@[i]@.width <= 0xffff && frames@[i]@.height <= 0xffff) ==> (r is Ok
            || r matches Err(AppError::Io(_))),
        r matches Ok(n) ==> n >= 14,
        r matches Ok(n) ==> {
            &&& final(out)@ == old(out)@ + gif_file_of(
                (frames@[0]@.width as u16, frames@[0]@.height as u16),
                gif_events(frames@, frames@.len() as int, loop_count, speed_of(quality)),
            )
            &&& final(out)@.len() == old(out)@.len() + n
        },
        r is Err ==> final(out)@ == old(out)@,
{
    proof {
        reveal_strlit("no frames");
        reveal_strlit("canvas width");
        reveal_strlit("canvas height");
    }
    if frames.len() == 0 {
        return Err(AppError::Encode(String::from_str("no frames")));
    }
    let canvas_w = to_u16_dim(frames[0].width(), "canvas width")?;
    let canvas_h = to_u16_dim(frames[0].height(), "canvas height")?;
    let mut writer = gif_writer_new(canvas_w, canvas_h)?;
    let repeat = if loop_count == 0 {
        GifRepeat::Infinite
    } else {
        GifRepeat::Finite(loop_count)
    };
    gif_set_repeat(&mut writer, repeat)?;
    let speed = gif_speed_for(quality);
    let n = frames.len();
    proof {
        assert(gif_written(writer) =~= gif_events(frames@, 0, loop_count, speed));
    }
    let mut i: usize = 0;
    while i < n
        invariant
            n == frames@.len(),
            0 <= i <= n,
            speed == speed_of(quality),
            1 <= speed <= 30,
            n > 0,
            frames@[0]@.width == canvas_w,
            frames@[0]@.height == canvas_h,
            forall|j: int| #![trigger frames@[j]] 0 <= j < frames@.len() ==> frames@[j].wf(),
            forall|j: int| #![trigger frames@[j]]
                0 <= j < i ==> frames@[j]@.width <= 0xffff && frames@[j]@.height <= 0xffff,
            gif_screen(writer) == (canvas_w, canvas_h),
            gif_written(writer) == gif_events(frames@, i as int, loop_count, speed),
        decreases n - i,
    {
        let frame = &frames[i];
        let rgba = vstd::slice::slice_to_vec(frame.as_rgba());
        let fw = to_u16_dim(frame.width(), "frame width")?;
        let fh = to_u16_dim(frame.height(), "frame height")?;
        proof {
            assert(frames@[i as int].wf());
        }
        gif_write_rgba(&mut writer, fw, fh, rgba, speed, delay_centis(frame.duration_ms()))?;
        proof {
            assert(gif_written(writer) =~= gif_events(frames@, i + 1, loop_count, speed));
        }
        i = i + 1;
    }
    let bytes = gif_writer_finish(writer)?;
    let count = bytes.len() as u64;
    let mut bytes = bytes;
    out.append(&mut bytes);
    Ok(count)
}

/// The loop count survives a GIF written by `encode_gif` and read back:
/// the repeat setting that opens what the encoder is fed is "forever"
/// exactly for 0, and the reader's rule (`read_loop_count`) turns it back
/// into the very loop count it was written for, 1 (play once more)
/// included.
pub proof fn law_gif_loop_count_roundtrip(frames: Seq<Arc<Frame>>, n: int, loop_count: u16, speed: i32)
    requires
        0 <= n <= frames.len(),
    ensures
        gif_events(frames, n, loop_count, speed)[0] matches GifEvent::Repeat(rep) && (rep is Infinite <==> loop_count
            == 0) && super::gif_in::loop_count_of(Some(rep)) == loop_count,
{
}

} // verus!
