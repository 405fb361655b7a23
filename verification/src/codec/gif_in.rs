//! GIF decoding.
//!
//! The `image` crate's GIF decoder yields frames one by one, already
//! composed onto the full canvas (deltas and disposal handled). The memory
//! guard sums the RGBA bytes frame by frame and stops as soon as the budget
//! is exceeded, so an oversized file is never decoded in full. The decoder
//! itself is also told not to allocate beyond the budget.
//!
//! Durations come as a fraction of milliseconds and are rounded to whole
//! milliseconds; 0 stays 0 (playback applies its own floor).
//!
//! The loop count is read apart from the frames: the `image` crate's
//! `AnimationDecoder::loop_count` only tells "forever" from a finite count
//! as its own `LoopCount`, while the `gif` crate's header decoder parses the
//! NETSCAPE2.0 block and hands back the stored repeat count itself, so a
//! second, header-only decoder reads it. Anything that fails there counts
//! as 0 (loop forever).
use super::{decoded_bytes, DecodedAnimation, DecodedFrame, DecodedFrameView};
use crate::errors::AppError;
use crate::model::MEMORY_BUDGET_BYTES;
use std::io::Cursor;
use vstd::prelude::*;
use vstd::string::StringExecFns;

use image::AnimationDecoder;
use image::Frame as AnimationFrame;
use image::ImageDecoder;

verus! {

/// The `image` crate's lazy iterator over animation frames.
#[verifier::external_type_specification]
#[verifier::external_body]
pub struct ExFrames<'a>(image::Frames<'a>);

/// The `image` crate's decoding error (the item type of `Frames` names it).
#[verifier::external_type_specification]
#[verifier::external_body]
pub struct ExImageError(image::ImageError);

/// One frame of the `image` crate's animation iterator.
#[verifier::external_type_specification]
#[verifier::external_body]
pub struct ExAnimationFrame(AnimationFrame);

/// The NETSCAPE2.0 repeat setting of a GIF header.
#[derive(Debug, Clone, Copy, PartialEq, Eq, Structural)]
pub enum GifRepeat {
    Infinite,
    Finite(u16),
}

/// The repeat setting that `gif::Decoder` reads from the header of
/// `bytes`, or `None` when the header does not parse.
pub uninterp spec fn gif_header_repeat(bytes: Seq<u8>) -> Option<GifRepeat>;

/// Opens `bytes` with `gif::Decoder::new` (which parses the header) and
/// reads `Decoder::repeat`; `None` when the header does not parse. The
/// result depends on the bytes alone.
#[verifier::external_body]
fn gif_repeat_of(bytes: &[u8]) -> (r: Option<GifRepeat>)
    ensures
        r == gif_header_repeat(bytes@),
{
    match gif::Decoder::new(Cursor::new(bytes)) {
        Ok(d) => Some(
            match d.repeat() {
                gif::Repeat::Infinite => GifRepeat::Infinite,
                gif::Repeat::Finite(n) => GifRepeat::Finite(n),
            },
        ),
        Err(_) => None,
    }
}

/// Loop count (0 = forever) of a header's repeat setting: a missing or
/// unreadable setting and an explicit infinite repeat are 0, a finite
/// repeat keeps its count.
pub open spec fn loop_count_of(r: Option<GifRepeat>) -> u16 {
    match r {
        Some(GifRepeat::Finite(n)) => n,
        _ => 0,
    }
}

/// Loop count (0 = forever) of a header's repeat setting.
pub fn loop_count_from(r: Option<GifRepeat>) -> (n: u16)
    ensures
        n == loop_count_of(r),
{
    match r {
        Some(GifRepeat::Finite(n)) => n,
        _ => 0,
    }
}

/// The NETSCAPE2.0 loop count of a GIF file (0 = forever, also when the
/// header cannot be read).
pub fn read_loop_count(bytes: &[u8]) -> (n: u16)
    ensures
        n == loop_count_of(gif_header_repeat(bytes@)),
{
    loop_count_from(gif_repeat_of(bytes))
}

/// A GIF frame as the decoder hands it out: RGBA8 bytes of the canvas and
/// the delay as a fraction of milliseconds.
pub struct GifRawFrame {
    pub rgba: Vec<u8>,
    pub delay_num: u32,
    pub delay_den: u32,
}

/// Mathematical content of a decoder frame.
pub struct GifRawView {
    pub rgba: Seq<u8>,
    pub delay_num: u32,
    pub delay_den: u32,
}

impl View for GifRawFrame {
    type V = GifRawView;

    open spec fn view(&self) -> GifRawView {
        GifRawView { rgba: self.rgba@, delay_num: self.delay_num, delay_den: self.delay_den }
    }
}

/// What the `image` crate makes of `bytes` opened for frame-by-frame
/// decoding with allocations capped at `max_alloc`: the logical screen
/// size and the frames its iterator yields, up to and including the first
/// failure (as its message); or the message of a failure to open.
pub uninterp spec fn gif_opened(bytes: Seq<u8>, max_alloc: u64) -> Result<
    ((u32, u32), Seq<Result<GifRawView, Seq<char>>>),
    Seq<char>,
>;

/// The frames a frame iterator still yields, up to and including the first
/// failure (as its message).
pub uninterp spec fn frames_ahead(it: image::Frames<'static>) -> Seq<Result<GifRawView, Seq<char>>>;

/// Opens the bytes with `GifDecoder::new`, reads the logical screen size
/// (`ImageDecoder::dimensions`), caps the decoder's allocations at
/// `max_alloc` (`ImageDecoder::set_limits` on default limits) and turns it
/// into its frame iterator (`AnimationDecoder::into_frames`). A failure of
/// the first or the third step comes back as its message. The outcome
/// depends on the arguments alone.
#[verifier::external_body]
fn gif_open_frames(bytes: Vec<u8>, max_alloc: u64) -> (r: Result<((u32, u32), image::Frames<'static>), String>)
    ensures
        match r {
            Ok((size, it)) => gif_opened(bytes@, max_alloc) == Ok::<
                ((u32, u32), Seq<Result<GifRawView, Seq<char>>>),
                Seq<char>,
            >((size, frames_ahead(it))),
            Err(m) => gif_opened(bytes@, max_alloc) == Err::<
                ((u32, u32), Seq<Result<GifRawView, Seq<char>>>),
                Seq<char>,
            >(m@),
        },
{
    let mut d = image::codecs::gif::GifDecoder::new(Cursor::new(bytes)).map_err(|e| e.to_string())?;
    let size = d.dimensions();
    let mut limits = image::Limits::default();
    limits.max_alloc = Some(max_alloc);
    d.set_limits(limits).map_err(|e| e.to_string())?;
    Ok((size, d.into_frames()))
}

/// Calls `Iterator::next` on the frames and takes the frame apart into its
/// RGBA bytes (`into_buffer`, `into_raw`) and its delay
/// (`delay().numer_denom_ms()`); an error comes back as its message. It
/// hands out the first of the frames ahead, which are then the rest; at the
/// end it gives `None`.
#[verifier::external_body]
fn next_gif_frame(frames: &mut image::Frames<'static>) -> (r: Option<Result<GifRawFrame, String>>)
    ensures
        frames_ahead(*old(frames)).len() == 0 ==> r is None,
        frames_ahead(*old(frames)).len() > 0 ==> match frames_ahead(*old(frames))[0] {
            Ok(v) => r matches Some(Ok(raw)) && raw@ == v && frames_ahead(*final(frames)) == frames_ahead(
                *old(frames),
            ).drop_first(),
            Err(m) => r matches Some(Err(t)) && t@ == m,
        },
{
    frames.next().map(
        |r|
            r.map(
                |f| {
                    let (num, den) = f.delay().numer_denom_ms();
                    GifRawFrame { rgba: f.into_buffer().into_raw(), delay_num: num, delay_den: den }
                },
            ).map_err(|e| e.to_string()),
    )
}

/// Calls `std::io::Error`'s `Display`.
#[verifier::external_body]
pub(crate) fn io_error_text(e: &std::io::Error) -> String {
    e.to_string()
}

/// A delay of `num / den` milliseconds rounded to the nearest whole
/// millisecond (halves away from zero); 0 when `den` is 0.
pub open spec fn gif_duration(num: u32, den: u32) -> u32 {
    if den == 0 {
        0
    } else {
        ((2 * num + den) / (2 * den)) as u32
    }
}

/// A decode error: `Decode("<name>: <detail>")`.
pub open spec fn decode_error_of(name: Seq<char>, detail: Seq<char>, e: AppError) -> bool {
    e matches AppError::Decode(m) && m@ == name + ": "@ + detail
}

/// A decode error naming the file.
pub fn decode_err(name: &str, detail: &str) -> (e: AppError)
    ensures
        decode_error_of(name@, detail@, e),
{
    let mut m = String::from_str(name);
    m.append(": ");
    m.append(detail);
    proof {
        reveal_strlit(": ");
    }
    AppError::Decode(m)
}

/// Takes a decoded frame into the animation under the memory budget: the
/// running total of RGBA bytes grows by the frame's size; over the budget
/// the frame is refused with the total it would reach (saturated), else it
/// is appended with its delay rounded to whole milliseconds.
pub fn accept_gif_frame(frames: &mut Vec<DecodedFrame>, total: &mut u64, raw: GifRawFrame) -> (r: Result<
    (),
    AppError,
>)
    requires
        *old(total) == decoded_bytes(old(frames)@),
        *old(total) <= MEMORY_BUDGET_BYTES,
    ensures
        old(total) + raw.rgba@.len() > MEMORY_BUDGET_BYTES ==> {
            &&& r matches Err(AppError::TooLarge { needed, budget })
            &&& budget == MEMORY_BUDGET_BYTES
            &&& needed == crate::model::editing::saturate(old(total) + raw.rgba@.len())
            &&& final(frames)@ == old(frames)@
        },
        old(total) + raw.rgba@.len() <= MEMORY_BUDGET_BYTES ==> {
            &&& r is Ok
            &&& final(frames)@ == old(frames)@.push(
                DecodedFrame { rgba: raw.rgba, duration_ms: gif_duration(raw.delay_num, raw.delay_den) },
            )
            &&& *final(total) == old(total) + raw.rgba@.len()
        },
        *final(total) == decoded_bytes(final(frames)@),
        *final(total) <= MEMORY_BUDGET_BYTES,
{
    let len = raw.rgba.len() as u64;
    if len > MEMORY_BUDGET_BYTES - *total {
        let needed = total.saturating_add(len);
        return Err(AppError::TooLarge { needed, budget: MEMORY_BUDGET_BYTES });
    }
    let duration_ms: u32 = if raw.delay_den == 0 {
        0
    } else {
        let num = raw.delay_num as u64;
        let den = raw.delay_den as u64;
        let q = (2 * num + den) / (2 * den);
        assert(q <= 0xffff_ffff) by (nonlinear_arith)
            requires
                q == (2 * num + den) / (2 * den),
                num <= 0xffff_ffff,
                den >= 1,
        ;
        q as u32
    };
    *total = *total + len;
    let ghost before = frames@;
    frames.push(DecodedFrame { rgba: raw.rgba, duration_ms });
    proof {
        assert(frames@.drop_last() =~= before);
    }
    Ok(())
}

/// How frame-by-frame decoding ends.
pub enum GifScan {
    /// Every frame taken.
    Done,
    /// The decoder failed with this message.
    Failed(Seq<char>),
    /// A frame would bring the decoded total to this many bytes, over the
    /// budget.
    OverBudget(int),
}

/// Scans the yielded frames from index `i` with `total` bytes taken so
/// far: a failure ends the scan, so does a frame that would take the total
/// over the memory budget; else every frame is taken.
pub open spec fn gif_scan(items: Seq<Result<GifRawView, Seq<char>>>, i: int, total: int) -> GifScan
    decreases items.len() - i,
{
    if i < 0 || i >= items.len() {
        GifScan::Done
    } else {
        match items[i] {
            Err(m) => GifScan::Failed(m),
            Ok(v) => if total + v.rgba.len() > MEMORY_BUDGET_BYTES {
                GifScan::OverBudget(total + v.rgba.len())
            } else {
                gif_scan(items, i + 1, total + v.rgba.len())
            },
        }
    }
}

/// A decoder frame as an animation frame: its pixels, and its delay
/// rounded to whole milliseconds.
pub open spec fn as_decoded(v: GifRawView) -> DecodedFrameView {
    DecodedFrameView { rgba: v.rgba, duration_ms: gif_duration(v.delay_num, v.delay_den) }
}

/// The frames are the yielded frames, each taken as an animation frame.
pub open spec fn frames_taken(items: Seq<Result<GifRawView, Seq<char>>>, frames: Seq<DecodedFrame>) -> bool {
    &&& frames.len() == items.len()
    &&& forall|j: int| #![trigger items[j]]
        0 <= j < items.len() ==> items[j] is Ok && frames[j]@ == as_decoded(items[j]->Ok_0)
}

/// What `load_gif` returns. A failed read is a decode error naming the
/// file. Otherwise the bytes are opened with allocations capped at the
/// memory budget: a failure to open, and a failing frame, are decode errors
/// naming the file with the decoder's message; a frame that takes the
/// decoded total over the budget refuses the file with that total
/// (saturated); a file without frames is a decode error; else the
/// animation has the screen size, the header's loop count and every frame.
pub open spec fn load_gif_post(name: Seq<char>, read: Result<Vec<u8>, std::io::Error>, r: Result<
    DecodedAnimation,
    AppError,
>) -> bool {
    match read {
        Err(_) => r matches Err(e) && exists|t: Seq<char>| decode_error_of(name, t, e),
        Ok(bytes) => match gif_opened(bytes@, MEMORY_BUDGET_BYTES) {
            Err(m) => r matches Err(e) && decode_error_of(name, m, e),
            Ok((size, items)) => match gif_scan(items, 0, 0) {
                GifScan::Failed(m) => r matches Err(e) && decode_error_of(name, m, e),
                GifScan::OverBudget(n) => r matches Err(AppError::TooLarge { needed, budget }) && needed
                    == crate::model::editing::saturate(n) && budget == MEMORY_BUDGET_BYTES,
                GifScan::Done => if items.len() == 0 {
                    r matches Err(e) && decode_error_of(name, "gif: no frames"@, e)
                } else {
                    &&& r matches Ok(a)
                    &&& a.width == size.0
                    &&& a.height == size.1
                    &&& a.loop_count == loop_count_of(gif_header_repeat(bytes@))
                    &&& frames_taken(items, a.frames@)
                },
            },
        },
    }
}

/// Decodes a GIF file from its bytes (`read` is the outcome of reading it,
/// `name` names it in messages), frame by frame under the memory budget.
pub fn load_gif(name: &str, read: Result<Vec<u8>, std::io::Error>) -> (r: Result<DecodedAnimation, AppError>)
    ensures
        load_gif_post(name@, read, r),
{
    let bytes = match read {
        Ok(b) => b,
        Err(e) => {
            let t = io_error_text(&e);
            return Err(decode_err(name, t.as_str()));
        },
    };
    let ghost source = bytes@;
    let loop_count = read_loop_count(bytes.as_slice());
    let ((width, height), mut it) = match gif_open_frames(bytes, MEMORY_BUDGET_BYTES) {
        Ok(v) => v,
        Err(m) => {
            return Err(decode_err(name, m.as_str()));
        },
    };
    let ghost items = frames_ahead(it);
    let mut frames: Vec<DecodedFrame> = Vec::new();
    let mut total: u64 = 0;
    loop
        invariant_except_break
            frames_ahead(it) == items.skip(frames@.len() as int),
        invariant
            read matches Ok(b) && b@ == source,
            gif_opened(source, MEMORY_BUDGET_BYTES) == Ok::<
                ((u32, u32), Seq<Result<GifRawView, Seq<char>>>),
                Seq<char>,
            >(((width, height), items)),
            loop_count == loop_count_of(gif_header_repeat(source)),
            frames@.len() <= items.len(),
            frames_taken(items.take(frames@.len() as int), frames@),
            total == decoded_bytes(frames@),
            total <= MEMORY_BUDGET_BYTES,
            gif_scan(items, 0, 0) == gif_scan(items, frames@.len() as int, total as int),
        ensures
            frames@.len() == items.len(),
        decreases items.len() - frames@.len(),
    {
        let ghost k = frames@.len() as int;
        let ghost ahead = frames_ahead(it);
        proof {
            assert(ahead.len() == items.len() - k);
        }
        match next_gif_frame(&mut it) {
            None => {
                break;
            },
            Some(Err(m)) => {
                proof {
                    assert(ahead[0] == items[k]);
                }
                return Err(decode_err(name, m.as_str()));
            },
            Some(Ok(raw)) => {
                let ghost v = raw@;
                proof {
                    assert(ahead[0] == items[k]);
                    assert(items[k] == Ok::<GifRawView, Seq<char>>(v));
                }
                let ghost t0 = total;
                let ghost f0 = frames@;
                match accept_gif_frame(&mut frames, &mut total, raw) {
                    Ok(()) => {
                        proof {
                            assert(frames_ahead(it) =~= items.skip(frames@.len() as int));
                            assert forall|j: int| #![trigger items.take(k + 1)[j]]
                                0 <= j < k + 1 implies items.take(k + 1)[j] is Ok && frames@[j]@ == as_decoded(
                                items.take(k + 1)[j]->Ok_0,
                            ) by {
                                if j < k {
                                    assert(items.take(k)[j] == items.take(k + 1)[j]);
                                    assert(frames@[j] == f0[j]);
                                }
                            }
                        }
                    },
                    Err(e) => {
                        return Err(e);
                    },
                }
            },
        }
    }
    proof {
        assert(items.take(frames@.len() as int) =~= items);
    }
    if frames.len() == 0 {
        proof {
            reveal_strlit("gif: no frames");
        }
        return Err(decode_err(name, "gif: no frames"));
    }
    Ok(DecodedAnimation { width, height, loop_count, frames })
}

} // verus!
