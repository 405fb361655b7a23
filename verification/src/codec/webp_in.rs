//! WebP decoding: the animation decoder first, the still-image decoder as
//! fallback.
//!
//! The `webp` crate's animation decoder always asks libwebp for RGBA output
//! and materialises every frame at canvas size; each frame carries the time
//! at which it ends (`timestamp = previous + duration`, starting at 0), so
//! frame `i` lasts `t[i] - t[i-1]` (`t[0]` for the first). Non-positive
//! gaps fall back to 100 ms. The source loop count is kept (saturated to
//! `u16`).
//!
//! Because the animation decoder materialises all frames at once, the RIFF
//! chunk structure (VP8X canvas size and the number of ANMF chunks) is
//! checked against the memory budget before decoding.
//!
//! Loading takes two steps around the animation decoder, which the caller
//! runs: `begin_webp` reads and checks the container, `load_webp` takes
//! the decoder's outcome. That decoder does not always return: on an
//! animation with a frame that libwebp fails to decode, the `webp` crate's
//! loop asks for that same frame again and again (`WebPAnimDecoderGetNext`
//! does not advance on failure). Everything else is decided here, for every
//! outcome the decoder may give.
use super::{decoded_bytes, DecodedAnimation, DecodedFrame, DecodedFrameView};
use crate::errors::AppError;
use crate::model::editing::saturate;
use crate::model::MEMORY_BUDGET_BYTES;
use crate::text::{decimal, push_decimal};
use vstd::prelude::*;
use vstd::string::StringExecFns;

verus! {

/// Frame time used for still images, single frames and non-positive gaps.
pub const FALLBACK_DURATION_MS: u32 = 100;

/// Byte layout of decoded pixels.
#[derive(Debug, Clone, Copy, PartialEq, Eq, Structural)]
pub enum PixelLayout {
    Rgb,
    Rgba,
}

/// One frame of a decoded WebP animation, as plain values.
pub struct WebpFrame {
    pub width: u32,
    pub height: u32,
    pub layout: PixelLayout,
    pub data: Vec<u8>,
    /// The time at which the frame ends, in milliseconds.
    pub time_ms: i32,
}

/// Mathematical content of a WebP animation frame.
pub struct WebpFrameView {
    pub width: u32,
    pub height: u32,
    pub layout: PixelLayout,
    pub data: Seq<u8>,
    pub time_ms: i32,
}

impl View for WebpFrame {
    type V = WebpFrameView;

    open spec fn view(&self) -> WebpFrameView {
        WebpFrameView {
            width: self.width,
            height: self.height,
            layout: self.layout,
            data: self.data@,
            time_ms: self.time_ms,
        }
    }
}

/// A decoded WebP animation, as plain values.
pub struct WebpAnimation {
    pub loop_count: u32,
    pub frames: Vec<WebpFrame>,
}

/// Mathematical content of a WebP animation.
pub struct WebpAnimationView {
    pub loop_count: u32,
    pub frames: Seq<WebpFrameView>,
}

impl View for WebpAnimation {
    type V = WebpAnimationView;

    open spec fn view(&self) -> WebpAnimationView {
        WebpAnimationView { loop_count: self.loop_count, frames: self.frames@.map_values(|f: WebpFrame| f@) }
    }
}

/// A decoded still WebP image, as plain values.
pub struct WebpStill {
    pub width: u32,
    pub height: u32,
    pub has_alpha: bool,
    pub data: Vec<u8>,
}

/// Mathematical content of a still WebP image.
pub struct WebpStillView {
    pub width: u32,
    pub height: u32,
    pub has_alpha: bool,
    pub data: Seq<u8>,
}

impl View for WebpStill {
    type V = WebpStillView;

    open spec fn view(&self) -> WebpStillView {
        WebpStillView { width: self.width, height: self.height, has_alpha: self.has_alpha, data: self.data@ }
    }
}

/// What `webp::Decoder` makes of `bytes` as a still image, if anything.
pub uninterp spec fn webp_still_of(bytes: Seq<u8>) -> Option<WebpStillView>;

/// Calls `webp::Decoder::new(bytes).decode()` and hands out the image's
/// size, whether it has alpha, and its pixel bytes. The result depends on
/// the bytes alone: libwebp decodes in integer arithmetic, and its plain
/// and SIMD (SSE2/NEON) paths are written to give the same bits; like every `Vec`, the buffer holds at most `isize::MAX`
/// bytes. The crate multiplies width and height in `u32`, then by 3 or 4
/// as `usize`; `requires` leaves out an opening VP8X canvas whose four-byte
/// buffer would not fit 32 bits (libwebp reads the size from that chunk,
/// else at most 16384 x 16384 from a VP8/VP8L header).
#[verifier::external_body]
fn webp_decode_still(bytes: &[u8]) -> (r: Option<WebpStill>)
    requires
        head_canvas_fits(bytes@),
    ensures
        match r {
            Some(s) => webp_still_of(bytes@) == Some(s@),
            None => webp_still_of(bytes@) is None,
        },
        r matches Some(s) ==> s.data@.len() <= isize::MAX,
{
    webp::Decoder::new(bytes).decode().map(
        |img| WebpStill { width: img.width(), height: img.height(), has_alpha: img.is_alpha(), data: img.to_vec() },
    )
}

// ─── budget pre-check of the RIFF structure ───

/// Little-endian 32-bit value at `i`.
pub open spec fn le_u32(b: Seq<u8>, i: int) -> int {
    b[i] + 256 * b[i + 1] + 65536 * b[i + 2] + 16777216 * b[i + 3]
}

/// Little-endian 24-bit value at `i`.
pub open spec fn le_u24(b: Seq<u8>, i: int) -> int {
    b[i] + 256 * b[i + 1] + 65536 * b[i + 2]
}

/// The four bytes at `i` are `t0 t1 t2 t3`.
pub open spec fn tag_at(b: Seq<u8>, i: int, t0: u8, t1: u8, t2: u8, t3: u8) -> bool {
    b[i] == t0 && b[i + 1] == t1 && b[i + 2] == t2 && b[i + 3] == t3
}

/// `RIFF` .... `WEBP` container header.
pub open spec fn riff_webp(b: Seq<u8>) -> bool {
    b.len() >= 12 && tag_at(b, 0, 0x52, 0x49, 0x46, 0x46) && tag_at(b, 8, 0x57, 0x45, 0x42, 0x50)
}

/// Bytes left from `off`.
pub open spec fn bytes_left(b: Seq<u8>, off: int) -> nat {
    if 0 <= off <= b.len() {
        (b.len() - off) as nat
    } else {
        0
    }
}

/// Walks the chunks from `off` (each an 8-byte header, tag then little-
/// endian size, and its data padded to even length) while a whole header
/// fits; returns the canvas of the last complete VP8X chunk (its 24-bit
/// width-1 and height-1 fields plus one) and the number of ANMF chunks.
pub open spec fn riff_scan(b: Seq<u8>, off: int, canvas: Option<(int, int)>, frames: int) -> (Option<(int, int)>, int)
    decreases bytes_left(b, off),
{
    if off < 0 || off + 8 > b.len() {
        (canvas, frames)
    } else {
        let size = le_u32(b, off + 4);
        let data = off + 8;
        let canvas2 = if tag_at(b, off, 0x56, 0x50, 0x38, 0x58) && size >= 10 && data + 10 <= b.len() {
            Some((1 + le_u24(b, data + 4), 1 + le_u24(b, data + 7)))
        } else {
            canvas
        };
        let frames2 = if tag_at(b, off, 0x41, 0x4e, 0x4d, 0x46) {
            frames + 1
        } else {
            frames
        };
        riff_scan(b, data + size + size % 2, canvas2, frames2)
    }
}

/// Bytes the animation would need when the container announces more than
/// the budget: canvas area times 4 times the number of frames (at least 1).
pub open spec fn precheck_needed(b: Seq<u8>) -> Option<int> {
    if !riff_webp(b) {
        None
    } else {
        let (canvas, frames) = riff_scan(b, 12, None, 0);
        match canvas {
            None => None,
            Some((w, h)) => {
                let n = if frames < 1 {
                    1
                } else {
                    frames
                };
                if w * h * 4 * n > MEMORY_BUDGET_BYTES {
                    Some(w * h * 4 * n)
                } else {
                    None
                }
            },
        }
    }
}

/// The canvas of the VP8X chunk that opens an extended file (right after
/// the RIFF header), when the file starts that way: its 24-bit width-1 and
/// height-1 fields plus one.
pub open spec fn head_canvas(b: Seq<u8>) -> Option<(int, int)> {
    if riff_webp(b) && b.len() >= 30 && tag_at(b, 12, 0x56, 0x50, 0x38, 0x58) {
        Some((1 + le_u24(b, 24), 1 + le_u24(b, 27)))
    } else {
        None
    }
}

/// The opening canvas, if any, has a four-byte-per-pixel buffer that fits
/// in 32 bits.
pub open spec fn head_canvas_fits(b: Seq<u8>) -> bool {
    match head_canvas(b) {
        Some((w, h)) => 4 * w * h <= u32::MAX,
        None => true,
    }
}

/// The bytes at `i..i+4` as a little-endian number.
fn read_le_u32(b: &[u8], i: usize) -> (r: u64)
    requires
        i + 4 <= b@.len(),
    ensures
        r == le_u32(b@, i as int),
{
    b[i] as u64 + 256 * b[i + 1] as u64 + 65536 * b[i + 2] as u64 + 16777216 * b[i + 3] as u64
}

/// The bytes at `i..i+3` as a little-endian number.
fn read_le_u24(b: &[u8], i: usize) -> (r: u64)
    requires
        i + 3 <= b@.len(),
    ensures
        r == le_u24(b@, i as int),
{
    b[i] as u64 + 256 * b[i + 1] as u64 + 65536 * b[i + 2] as u64
}

/// Whether the bytes at `i` are the tag `t0 t1 t2 t3`.
fn has_tag(b: &[u8], i: usize, t0: u8, t1: u8, t2: u8, t3: u8) -> (r: bool)
    requires
        i + 4 <= b@.len(),
    ensures
        r == tag_at(b@, i as int, t0, t1, t2, t3),
{
    b[i] == t0 && b[i + 1] == t1 && b[i + 2] == t2 && b[i + 3] == t3
}

/// Bytes of one RGBA frame of the opening canvas, when the file opens with
/// a VP8X chunk.
pub fn head_canvas_bytes(bytes: &[u8]) -> (r: Option<u64>)
    ensures
        match head_canvas(bytes@) {
            Some((w, h)) => r matches Some(n) && n == 4 * w * h,
            None => r is None,
        },
{
    if bytes.len() < 30 || !has_tag(bytes, 0, 0x52, 0x49, 0x46, 0x46) || !has_tag(bytes, 8, 0x57, 0x45, 0x42, 0x50)
        || !has_tag(bytes, 12, 0x56, 0x50, 0x38, 0x58) {
        return None;
    }
    let w = 1 + read_le_u24(bytes, 24);
    let h = 1 + read_le_u24(bytes, 27);
    assert(w * h <= 0x100_0000 * 0x100_0000 && 4 * (w * h) == 4 * w * h) by (nonlinear_arith)
        requires
            1 <= w <= 0x100_0000,
            1 <= h <= 0x100_0000,
    ;
    let n: u64 = 4 * (w * h);
    assert(n == 4 * w * h);
    Some(n)
}

/// Budget pre-check from the RIFF structure: a container whose VP8X canvas
/// times its number of ANMF frames (at least one) exceeds the budget is
/// refused with that size (saturated); anything unreadable passes (the
/// decoder reports it, and the load is checked again afterwards).
pub fn precheck_budget(bytes: &[u8]) -> (r: Result<(), AppError>)
    ensures
        match precheck_needed(bytes@) {
            None => r is Ok,
            Some(p) => r matches Err(AppError::TooLarge { needed, budget }) && needed == saturate(p) && budget
                == MEMORY_BUDGET_BYTES,
        },
{
    let len = bytes.len();
    if len < 12 || !has_tag(bytes, 0, 0x52, 0x49, 0x46, 0x46) || !has_tag(bytes, 8, 0x57, 0x45, 0x42, 0x50) {
        return Ok(());
    }
    let mut off: usize = 12;
    let mut canvas: Option<(u64, u64)> = None;
    let mut frames: u64 = 0;
    let ghost b = bytes@;
    while off <= len - 8
        invariant
            len == b.len(),
            len >= 12,
            b == bytes@,
            off <= len,
            frames <= off,
            riff_scan(b, off as int, match canvas {
                Some((w, h)) => Some((w as int, h as int)),
                None => None,
            }, frames as int) == riff_scan(b, 12, None, 0),
            canvas matches Some((w, h)) ==> 1 <= w <= 0x100_0000 && 1 <= h <= 0x100_0000,
        decreases len - off,
    {
        let size = read_le_u32(bytes, off + 4);
        let data = off + 8;
        if has_tag(bytes, off, 0x56, 0x50, 0x38, 0x58) && size >= 10 && len - data >= 10 {
            let w = read_le_u24(bytes, data + 4);
            let h = read_le_u24(bytes, data + 7);
            canvas = Some((1 + w, 1 + h));
        } else if has_tag(bytes, off, 0x41, 0x4e, 0x4d, 0x46) {
            frames = frames + 1;
        }
        let next: u128 = data as u128 + size as u128 + (size % 2) as u128;
        if next > len as u128 {
            proof {
                assert(riff_scan(b, next as int, match canvas {
                    Some((w, h)) => Some((w as int, h as int)),
                    None => None,
                }, frames as int) == (match canvas {
                    Some((w, h)) => Some((w as int, h as int)),
                    None => None,
                }, frames as int));
            }
            off = len;
        } else {
            off = next as usize;
        }
    }
    proof {
        assert(riff_scan(b, off as int, match canvas {
            Some((w, h)) => Some((w as int, h as int)),
            None => None,
        }, frames as int) == (match canvas {
            Some((w, h)) => Some((w as int, h as int)),
            None => None,
        }, frames as int));
    }
    match canvas {
        None => Ok(()),
        Some((w, h)) => {
            let n: u128 = if frames < 1 {
                1
            } else {
                frames as u128
            };
            let wide: u128 = w as u128;
            let high: u128 = h as u128;
            assert(wide * high <= 0x1_0000_0000_0000u128) by (nonlinear_arith)
                requires
                    1 <= wide <= 0x100_0000,
                    1 <= high <= 0x100_0000,
            ;
            let area: u128 = wide * high * 4;
            assert(area * n <= 0x4_0000_0000_0000u128 * 0xffff_ffff_ffff_ffffu128) by (nonlinear_arith)
                requires
                    area <= 0x4_0000_0000_0000u128,
                    1 <= n <= 0xffff_ffff_ffff_ffffu128,
            ;
            let projected: u128 = area * n;
            if projected > MEMORY_BUDGET_BYTES as u128 {
                let needed: u64 = if projected > 0xffff_ffff_ffff_ffffu128 {
                    u64::MAX
                } else {
                    projected as u64
                };
                Err(AppError::TooLarge { needed, budget: MEMORY_BUDGET_BYTES })
            } else {
                Ok(())
            }
        },
    }
}

// ─── animation path ───

/// Duration of a frame from its end time and the previous frame's end time;
/// a non-positive gap falls back to 100 ms, a gap beyond `i32::MAX` is
/// saturated.
pub open spec fn interval(prev: i32, cur: i32) -> u32 {
    let d = cur - prev;
    if d <= 0 {
        FALLBACK_DURATION_MS
    } else if d > i32::MAX {
        i32::MAX as u32
    } else {
        d as u32
    }
}

/// Duration of frame `i` of an animation.
pub open spec fn frame_duration(frames: Seq<WebpFrameView>, i: int) -> u32 {
    interval(
        if i == 0 {
            0i32
        } else {
            frames[i - 1].time_ms
        },
        frames[i].time_ms,
    )
}

/// Duration from two consecutive end times (see `interval`).
pub fn frame_interval(prev: i32, cur: i32) -> (r: u32)
    ensures
        r == interval(prev, cur),
{
    let d: i64 = cur as i64 - prev as i64;
    if d <= 0 {
        FALLBACK_DURATION_MS
    } else if d > i32::MAX as i64 {
        i32::MAX as u32
    } else {
        d as u32
    }
}

/// Bytes per pixel of a layout.
pub open spec fn bpp(l: PixelLayout) -> int {
    match l {
        PixelLayout::Rgb => 3,
        PixelLayout::Rgba => 4,
    }
}

/// Bytes a frame's pixels take.
pub open spec fn frame_len(f: WebpFrameView) -> int {
    f.width * f.height * bpp(f.layout)
}

/// Why a frame cannot be placed on the canvas, if it cannot: its buffer is
/// shorter than its size says, or it is larger than the canvas.
pub open spec fn frame_error(f: WebpFrameView, cw: u32, ch: u32) -> Option<Seq<char>> {
    if f.data.len() < frame_len(f) {
        Some(
            "webp: frame buffer "@ + decimal(f.data.len()) + " bytes < expected "@ + decimal(frame_len(f) as nat)
                + " bytes"@,
        )
    } else if f.width > cw || f.height > ch {
        Some(
            "webp: frame "@ + decimal(f.width as nat) + "x"@ + decimal(f.height as nat) + " larger than canvas "@
                + decimal(cw as nat) + "x"@ + decimal(ch as nat),
        )
    } else {
        None
    }
}

/// Byte `i` of a frame placed at the top-left of a `cw`-wide transparent
/// canvas: RGB frames get an opaque alpha over the whole canvas.
pub open spec fn canvas_byte(f: WebpFrameView, cw: int, i: int) -> u8 {
    let p = i / 4;
    let c = i % 4;
    let x = p % cw;
    let y = p / cw;
    if x < f.width && y < f.height {
        match f.layout {
            PixelLayout::Rgba => f.data[(y * f.width + x) * 4 + c],
            PixelLayout::Rgb => if c < 3 {
                f.data[(y * f.width + x) * 3 + c]
            } else {
                255u8
            },
        }
    } else {
        match f.layout {
            PixelLayout::Rgba => 0u8,
            PixelLayout::Rgb => if c < 3 {
                0u8
            } else {
                255u8
            },
        }
    }
}

/// The RGBA canvas of a frame.
pub open spec fn canvas_of(f: WebpFrameView, cw: u32, ch: u32) -> Seq<u8> {
    Seq::new((cw * ch * 4) as nat, |i: int| canvas_byte(f, cw as int, i))
}

/// Position facts of the byte `(y * w + x) * 4 + c` of a row-major RGBA image.
proof fn lemma_canvas_index(w: int, x: int, y: int, c: int)
    requires
        0 <= x < w,
        0 <= y,
        0 <= c < 4,
    ensures
        ((y * w + x) * 4 + c) / 4 == y * w + x,
        ((y * w + x) * 4 + c) % 4 == c,
        (y * w + x) % w == x,
        (y * w + x) / w == y,
{
    vstd::arithmetic::div_mod::lemma_fundamental_div_mod_converse((y * w + x) * 4 + c, 4, y * w + x, c);
    vstd::arithmetic::div_mod::lemma_fundamental_div_mod_converse(y * w + x, w, y, x);
}

/// Offsets within a `w` x `h` image of `k` bytes per pixel are in bounds.
proof fn lemma_pixel_offset(w: int, h: int, k: int, x: int, y: int, c: int)
    requires
        0 <= x < w,
        0 <= y < h,
        0 <= c < k,
    ensures
        0 <= y * w + x < w * h,
        0 <= y * w,
        w * h <= w * h * k,
        0 <= (y * w + x) * k + c < w * h * k,
{
    assert(0 <= y * w + x < w * h && 0 <= y * w && w * h <= w * h * k && 0 <= (y * w + x) * k + c < w * h * k)
        by (nonlinear_arith)
        requires
            0 <= x < w,
            0 <= y < h,
            0 <= c < k,
    ;
}

/// Places a frame at the top-left of an RGBA canvas of `canvas_w` x
/// `canvas_h`: outside the frame the canvas is transparent, and RGB frames
/// get an opaque alpha everywhere. A buffer shorter than the frame's size,
/// or a frame larger than the canvas, is a decode error.
pub fn frame_to_rgba(f: &WebpFrame, canvas_w: u32, canvas_h: u32) -> (r: Result<Vec<u8>, AppError>)
    requires
        f.data@.len() <= isize::MAX,
        canvas_w * canvas_h * 4 <= usize::MAX || (f.width == canvas_w && f.height == canvas_h),
    ensures
        match frame_error(f@, canvas_w, canvas_h) {
            Some(m) => r matches Err(AppError::Decode(e)) && e@ == m,
            None => r matches Ok(v) && v@ == canvas_of(f@, canvas_w, canvas_h),
        },
{
    let fw = f.width;
    let fh = f.height;
    let k: u128 = match f.layout {
        PixelLayout::Rgba => 4,
        PixelLayout::Rgb => 3,
    };
    assert(fw as u128 * fh as u128 <= 0xffff_ffff_ffff_ffffu128 && fw as u128 * fh as u128 * k
        <= 0x3_ffff_ffff_ffff_fffcu128) by (nonlinear_arith)
        requires
            fw <= 0xffff_ffff,
            fh <= 0xffff_ffff,
            k <= 4,
    ;
    let expected: u128 = fw as u128 * fh as u128 * k;
    if (f.data.len() as u128) < expected {
        let mut m = String::from_str("webp: frame buffer ");
        push_decimal(&mut m, f.data.len() as u128);
        m.append(" bytes < expected ");
        push_decimal(&mut m, expected);
        m.append(" bytes");
        proof {
            reveal_strlit("webp: frame buffer ");
            reveal_strlit(" bytes < expected ");
            reveal_strlit(" bytes");
            assert(m@ =~= frame_error(f@, canvas_w, canvas_h).unwrap());
        }
        return Err(AppError::Decode(m));
    }
    if fw > canvas_w || fh > canvas_h {
        let mut m = String::from_str("webp: frame ");
        push_decimal(&mut m, fw as u128);
        m.append("x");
        push_decimal(&mut m, fh as u128);
        m.append(" larger than canvas ");
        push_decimal(&mut m, canvas_w as u128);
        m.append("x");
        push_decimal(&mut m, canvas_h as u128);
        proof {
            reveal_strlit("webp: frame ");
            reveal_strlit("x");
            reveal_strlit(" larger than canvas ");
            assert(m@ =~= frame_error(f@, canvas_w, canvas_h).unwrap());
        }
        return Err(AppError::Decode(m));
    }
    proof {
        if !(canvas_w * canvas_h * 4 <= usize::MAX) {
            let p = canvas_w * canvas_h;
            assert(p * 3 <= f.data@.len()) by (nonlinear_arith)
                requires
                    p == fw * fh,
                    fw * fh * k <= f.data@.len(),
                    k >= 3,
                    fw >= 0,
                    fh >= 0,
            ;
            assert(p * 4 <= usize::MAX);
        }
        assert(fw * fh * 4 <= canvas_w * canvas_h * 4) by (nonlinear_arith)
            requires
                fw <= canvas_w,
                fh <= canvas_h,
        ;
    }
    let cw = canvas_w as usize;
    let ch = canvas_h as usize;
    let fwu = fw as usize;
    let fhu = fh as usize;
    let rgba = f.layout == PixelLayout::Rgba;
    let ghost fv = f@;
    let mut out: Vec<u8> = Vec::new();
    let mut y: usize = 0;
    while y < ch
        invariant
            fv == f@,
            cw == canvas_w,
            ch == canvas_h,
            fwu == fw,
            fhu == fh,
            fw == f@.width,
            fh == f@.height,
            fw <= canvas_w,
            fh <= canvas_h,
            rgba == (f@.layout == PixelLayout::Rgba),
            f@.data.len() >= frame_len(f@),
            f@.data.len() <= isize::MAX,
            canvas_w * canvas_h * 4 <= usize::MAX,
            y <= ch,
            out@.len() == y * cw * 4,
            forall|j: int| 0 <= j < out@.len() ==> #[trigger] out@[j] == canvas_byte(fv, cw as int, j),
        decreases ch - y,
    {
        let mut x: usize = 0;
        while x < cw
            invariant
                fv == f@,
                cw == canvas_w,
                ch == canvas_h,
                fwu == fw,
                fhu == fh,
                fw == f@.width,
                fh == f@.height,
                fw <= canvas_w,
                fh <= canvas_h,
                rgba == (f@.layout == PixelLayout::Rgba),
                f@.data.len() >= frame_len(f@),
                f@.data.len() <= isize::MAX,
            f@.data.len() <= isize::MAX,
                canvas_w * canvas_h * 4 <= usize::MAX,
                y < ch,
                x <= cw,
                out@.len() == (y * cw + x) * 4,
                forall|j: int| 0 <= j < out@.len() ==> #[trigger] out@[j] == canvas_byte(fv, cw as int, j),
            decreases cw - x,
        {
            proof {
                lemma_pixel_offset(cw as int, ch as int, 4, x as int, y as int, 3);
            }
            let inside = x < fwu && y < fhu;
            let mut c: usize = 0;
            while c < 4
                invariant
                    fv == f@,
                    cw == canvas_w,
                    ch == canvas_h,
                    fwu == fw,
                    fhu == fh,
                    fw == f@.width,
                    fh == f@.height,
                    fw <= canvas_w,
                    fh <= canvas_h,
                    rgba == (f@.layout == PixelLayout::Rgba),
                    f@.data.len() >= frame_len(f@),
                    f@.data.len() <= isize::MAX,
                f@.data.len() <= isize::MAX,
            f@.data.len() <= isize::MAX,
                    canvas_w * canvas_h * 4 <= usize::MAX,
                    y < ch,
                    x < cw,
                    inside == (x < fw && y < fh),
                    c <= 4,
                    out@.len() == (y * cw + x) * 4 + c,
                    (y * cw + x) * 4 + 3 < cw * ch * 4,
                    forall|j: int| 0 <= j < out@.len() ==> #[trigger] out@[j] == canvas_byte(fv, cw as int, j),
                decreases 4 - c,
            {
                proof {
                    lemma_canvas_index(cw as int, x as int, y as int, c as int);
                }
                let byte: u8 = if inside {
                    proof {
                        lemma_pixel_offset(fw as int, fh as int, bpp(fv.layout), x as int, y as int, if c < 3 {
                            c as int
                        } else {
                            0
                        });
                    }
                    assert(y * fwu + x < fw * fh);
                    assert(fw * fh <= fw * fh * bpp(fv.layout));
                    assert(fw * fh * bpp(fv.layout) <= f@.data.len());
                    let p = y * fwu + x;
                    if rgba {
                        f.data[p * 4 + c]
                    } else if c < 3 {
                        f.data[p * 3 + c]
                    } else {
                        255
                    }
                } else if rgba {
                    0
                } else if c < 3 {
                    0
                } else {
                    255
                };
                let ghost before = out@;
                out.push(byte);
                proof {
                    assert forall|j: int| 0 <= j < out@.len() implies #[trigger] out@[j] == canvas_byte(
                        fv,
                        cw as int,
                        j,
                    ) by {
                        if j < before.len() {
                            assert(out@[j] == before[j]);
                        }
                    }
                }
                c = c + 1;
            }
            x = x + 1;
        }
        proof {
            assert((y * cw + cw) * 4 == (y + 1) * cw * 4) by (nonlinear_arith);
        }
        y = y + 1;
    }
    proof {
        assert(ch * cw * 4 == canvas_w * canvas_h * 4) by (nonlinear_arith)
            requires
                cw == canvas_w,
                ch == canvas_h,
        ;
        assert(out@ =~= canvas_of(f@, canvas_w, canvas_h));
    }
    Ok(out)
}

/// Adds the file name to a decode message (`"<message>: <name>"`); other
/// errors pass unchanged.
pub open spec fn with_name(name: Seq<char>, e: AppError, r: AppError) -> bool {
    match e {
        AppError::Decode(m) => r matches AppError::Decode(m2) && m2@ == m@ + ": "@ + name,
        _ => r == e,
    }
}

/// Adds the file name to a decode message; other errors pass unchanged.
pub fn ctx(name: &str, e: AppError) -> (r: AppError)
    ensures
        with_name(name@, e, r),
{
    match e {
        AppError::Decode(m) => {
            let mut m2 = m;
            m2.append(": ");
            m2.append(name);
            proof {
                reveal_strlit(": ");
            }
            AppError::Decode(m2)
        },
        other => other,
    }
}

/// What `finish` does: frames beyond the budget are refused with their total
/// (saturated), otherwise they become the animation.
pub open spec fn finish_post(
    frames: Seq<DecodedFrame>,
    width: u32,
    height: u32,
    loop_count: u16,
    r: Result<DecodedAnimation, AppError>,
) -> bool {
    if decoded_bytes(frames) > MEMORY_BUDGET_BYTES {
        r matches Err(AppError::TooLarge { needed, budget }) && needed == saturate(decoded_bytes(frames))
            && budget == MEMORY_BUDGET_BYTES
    } else {
        r matches Ok(a) && a.width == width && a.height == height && a.loop_count == loop_count && a.frames@
            == frames
    }
}

/// Checks the decoded total against the memory budget (the animation
/// decoder materialises all frames at once, so this runs right after it).
pub fn finish(frames: Vec<DecodedFrame>, width: u32, height: u32, loop_count: u16) -> (r: Result<
    DecodedAnimation,
    AppError,
>)
    ensures
        finish_post(frames@, width, height, loop_count, r),
{
    let n = frames.len();
    let mut total: u128 = 0;
    let mut i: usize = 0;
    while i < n
        invariant
            n == frames@.len(),
            0 <= i <= n,
            total == decoded_bytes(frames@.take(i as int)),
            total <= i * 0xffff_ffff_ffff_ffffu128,
        decreases n - i,
    {
        proof {
            assert(frames@.take(i + 1).drop_last() =~= frames@.take(i as int));
        }
        total = total + frames[i].rgba.len() as u128;
        i = i + 1;
    }
    proof {
        assert(frames@.take(n as int) =~= frames@);
    }
    if total > MEMORY_BUDGET_BYTES as u128 {
        let needed: u64 = if total > 0xffff_ffff_ffff_ffffu128 {
            u64::MAX
        } else {
            total as u64
        };
        return Err(AppError::TooLarge { needed, budget: MEMORY_BUDGET_BYTES });
    }
    Ok(DecodedAnimation { width, height, loop_count, frames })
}


/// A canvas whose frame is of canvas size and whose buffer fits a `Vec`
/// has an RGBA size that fits `usize`.
proof fn lemma_canvas_fits(f: WebpFrameView)
    requires
        f.data.len() >= frame_len(f),
        f.data.len() <= isize::MAX,
    ensures
        f.width * f.height * 4 <= usize::MAX,
{
    let p = f.width * f.height;
    assert(p * 3 <= f.data.len()) by (nonlinear_arith)
        requires
            p == f.width * f.height,
            f.width * f.height * bpp(f.layout) <= f.data.len(),
            bpp(f.layout) >= 3,
            f.width >= 0,
            f.height >= 0,
    ;
}

/// Frames that all hold `len` bytes hold `n * len` together.
proof fn lemma_uniform_bytes(frames: Seq<DecodedFrame>, len: int)
    requires
        forall|i: int| #![trigger frames[i]] 0 <= i < frames.len() ==> frames[i].rgba@.len() == len,
    ensures
        decoded_bytes(frames) == frames.len() * len,
    decreases frames.len(),
{
    if frames.len() > 0 {
        lemma_uniform_bytes(frames.drop_last(), len);
        assert(frames.last() == frames[frames.len() - 1]);
        assert((frames.len() - 1) * len + len == frames.len() * len) by (nonlinear_arith);
    }
}

/// The frames of an animation placed on the first frame's canvas, with
/// their durations.
pub open spec fn anim_frames(fs: Seq<WebpFrameView>) -> Seq<DecodedFrameView> {
    Seq::new(
        fs.len(),
        |i: int| DecodedFrameView { rgba: canvas_of(fs[i], fs[0].width, fs[0].height), duration_ms: frame_duration(fs, i) },
    )
}

/// The first frame that cannot be placed on the canvas is frame `k`.
pub open spec fn first_bad_frame(fs: Seq<WebpFrameView>, cw: u32, ch: u32, k: int) -> bool {
    &&& 0 <= k < fs.len()
    &&& frame_error(fs[k], cw, ch) is Some
    &&& forall|j: int| #![trigger fs[j]] 0 <= j < k ==> frame_error(fs[j], cw, ch) is None
}

/// A loop count saturated to `u16`.
pub open spec fn loop_u16(n: u32) -> u16 {
    if n > 0xffff {
        0xffff
    } else {
        n as u16
    }
}

/// What `decode_anim` makes of a decoded animation: the canvas is the first
/// frame's size (an empty animation or an empty canvas is an error); each
/// frame is placed on it with its duration (the first frame that does not
/// fit is reported); then the budget is checked.
pub open spec fn decode_anim_post(name: Seq<char>, a: WebpAnimationView, r: Result<DecodedAnimation, AppError>) -> bool {
    let fs = a.frames;
    if fs.len() == 0 {
        r matches Err(AppError::Decode(m)) && m@ == "webp: no frames decoded"@ + ": "@ + name
    } else {
        let cw = fs[0].width;
        let ch = fs[0].height;
        if cw == 0 || ch == 0 {
            r matches Err(AppError::Decode(m)) && m@ == "webp: invalid canvas "@ + decimal(cw as nat) + "x"@
                + decimal(ch as nat) + ": "@ + name
        } else if exists|k: int| first_bad_frame(fs, cw, ch, k) {
            exists|k: int|
                first_bad_frame(fs, cw, ch, k) && (r matches Err(AppError::Decode(m)) && m@ == frame_error(
                    fs[k],
                    cw,
                    ch,
                ).unwrap() + ": "@ + name)
        } else if fs.len() * (cw * ch * 4) > MEMORY_BUDGET_BYTES {
            r matches Err(AppError::TooLarge { needed, budget }) && needed == saturate(fs.len() * (cw * ch * 4))
                && budget == MEMORY_BUDGET_BYTES
        } else {
            r matches Ok(d) && d.width == cw && d.height == ch && d.loop_count == loop_u16(a.loop_count)
                && d.frames@.map_values(|f: DecodedFrame| f@) == anim_frames(fs)
        }
    }
}

/// Decoded animation frames to the editor's animation (see
/// `decode_anim_post`).
pub fn decode_anim(name: &str, anim: WebpAnimation) -> (r: Result<DecodedAnimation, AppError>)
    requires
        forall|i: int| #![trigger anim.frames@[i]]
            0 <= i < anim.frames@.len() ==> anim.frames@[i].data@.len() <= isize::MAX,
    ensures
        decode_anim_post(name@, anim@, r),
{
    let ghost fs = anim@.frames;
    let n = anim.frames.len();
    if n == 0 {
        proof {
            reveal_strlit("webp: no frames decoded");
        }
        return Err(ctx(name, AppError::Decode(String::from_str("webp: no frames decoded"))));
    }
    let width = anim.frames[0].width;
    let height = anim.frames[0].height;
    if width == 0 || height == 0 {
        let mut m = String::from_str("webp: invalid canvas ");
        push_decimal(&mut m, width as u128);
        m.append("x");
        push_decimal(&mut m, height as u128);
        proof {
            reveal_strlit("webp: invalid canvas ");
            reveal_strlit("x");
        }
        return Err(ctx(name, AppError::Decode(m)));
    }
    let mut out: Vec<DecodedFrame> = Vec::new();
    let mut prev: i32 = 0;
    let mut i: usize = 0;
    while i < n
        invariant
            n == anim.frames@.len(),
            fs == anim@.frames,
            fs.len() == n,
            n > 0,
            width == fs[0].width,
            height == fs[0].height,
            width > 0,
            height > 0,
            0 <= i <= n,
            forall|j: int| #![trigger anim.frames@[j]]
                0 <= j < anim.frames@.len() ==> anim.frames@[j].data@.len() <= isize::MAX,
            i > 0 ==> width * height * 4 <= usize::MAX,
            forall|j: int| #![trigger fs[j]] 0 <= j < i ==> frame_error(fs[j], width, height) is None,
            out@.len() == i,
            forall|j: int| #![trigger out@[j]] 0 <= j < i ==> out@[j]@ == anim_frames(fs)[j],
            prev == if i == 0 {
                0i32
            } else {
                fs[i - 1].time_ms
            },
        decreases n - i,
    {
        let f = &anim.frames[i];
        proof {
            assert(f@ == fs[i as int]);
        }
        let d = frame_interval(prev, f.time_ms);
        prev = f.time_ms;
        let rgba = match frame_to_rgba(f, width, height) {
            Ok(v) => v,
            Err(e) => {
                let r = ctx(name, e);
                proof {
                    assert(first_bad_frame(fs, width, height, i as int));
                    let res: Result<DecodedAnimation, AppError> = Err(r);
                    assert(first_bad_frame(fs, width, height, i as int) && (res matches Err(AppError::Decode(m))
                        && m@ == frame_error(fs[i as int], width, height).unwrap() + ": "@ + name@));
                }
                return Err(r);
            },
        };
        proof {
            if i == 0 {
                lemma_canvas_fits(fs[0]);
            }
        }
        let ghost before = out@;
        out.push(DecodedFrame { rgba, duration_ms: d });
        proof {
            assert forall|j: int| #![trigger out@[j]] 0 <= j < i + 1 implies out@[j]@ == anim_frames(fs)[j] by {
                if j < i {
                    assert(out@[j] == before[j]);
                }
            }
        }
        i = i + 1;
    }
    let loop_count: u16 = if anim.loop_count > 0xffff {
        0xffff
    } else {
        anim.loop_count as u16
    };
    proof {
        assert(!exists|k: int| first_bad_frame(fs, width, height, k));
        assert forall|j: int| #![trigger out@[j]] 0 <= j < out@.len() implies out@[j].rgba@.len() == width * height
            * 4 by {
            assert(out@[j]@ == anim_frames(fs)[j]);
        }
        lemma_uniform_bytes(out@, width * height * 4);
        assert(out@.map_values(|f: DecodedFrame| f@) =~= anim_frames(fs));
    }
    finish(out, width, height, loop_count)
}

/// The RGBA pixels of a still image: the first `w * h * 4` bytes of an RGBA
/// buffer, or an RGB buffer widened with an opaque alpha.
pub open spec fn still_rgba(s: WebpStillView) -> Seq<u8> {
    if s.has_alpha {
        s.data.take(s.width * s.height * 4)
    } else {
        Seq::new(
            (s.width * s.height * 4) as nat,
            |i: int|
                if i % 4 < 3 {
                    s.data[(i / 4) * 3 + i % 4]
                } else {
                    255u8
                },
        )
    }
}

/// Bytes a still image's pixels take.
pub open spec fn still_len(s: WebpStillView) -> int {
    s.width * s.height * (if s.has_alpha {
        4int
    } else {
        3int
    })
}

/// What a still WebP decoding gives: a single 100 ms frame that does not
/// loop, or an error for a failed decode (mentioning why the animation
/// decoder failed), an empty size or a short buffer; then the budget check.
pub open spec fn still_post(name: Seq<char>, anim_err: Seq<char>, still: Option<WebpStillView>, r: Result<
    DecodedAnimation,
    AppError,
>) -> bool {
    match still {
        None => r matches Err(AppError::Decode(m)) && m@ == "webp decode failed (anim: "@ + anim_err + "): "@
            + name,
        Some(s) => if s.width == 0 || s.height == 0 {
            r matches Err(AppError::Decode(m)) && m@ == "webp: invalid size "@ + decimal(s.width as nat) + "x"@
                + decimal(s.height as nat) + ": "@ + name
        } else if s.data.len() < still_len(s) {
            r matches Err(AppError::Decode(m)) && m@ == "webp: static buffer "@ + decimal(s.data.len())
                + " < expected "@ + decimal(still_len(s) as nat) + " bytes: "@ + name
        } else if s.width * s.height * 4 > MEMORY_BUDGET_BYTES {
            r matches Err(AppError::TooLarge { needed, budget }) && needed == saturate(s.width * s.height * 4)
                && budget == MEMORY_BUDGET_BYTES
        } else {
            r matches Ok(d) && d.width == s.width && d.height == s.height && d.loop_count == 0
                && d.frames@.len() == 1 && d.frames@[0].rgba@ == still_rgba(s) && d.frames@[0].duration_ms
                == FALLBACK_DURATION_MS
        },
    }
}

/// A still WebP decoding result to the editor's single-frame animation (see
/// `still_post`).
pub fn still_to_animation(name: &str, still: Option<WebpStill>, anim_err: &str) -> (r: Result<
    DecodedAnimation,
    AppError,
>)
    requires
        still matches Some(s) ==> s.data@.len() <= isize::MAX,
    ensures
        still_post(
            name@,
            anim_err@,
            match still {
                Some(s) => Some(s@),
                None => None,
            },
            r,
        ),
{
    let img = match still {
        Some(s) => s,
        None => {
            let mut m = String::from_str("webp decode failed (anim: ");
            m.append(anim_err);
            m.append("): ");
            m.append(name);
            proof {
                reveal_strlit("webp decode failed (anim: ");
                reveal_strlit("): ");
            }
            return Err(AppError::Decode(m));
        },
    };
    let width = img.width;
    let height = img.height;
    if width == 0 || height == 0 {
        let mut m = String::from_str("webp: invalid size ");
        push_decimal(&mut m, width as u128);
        m.append("x");
        push_decimal(&mut m, height as u128);
        m.append(": ");
        m.append(name);
        proof {
            reveal_strlit("webp: invalid size ");
            reveal_strlit("x");
            reveal_strlit(": ");
        }
        return Err(AppError::Decode(m));
    }
    let k: u128 = if img.has_alpha {
        4
    } else {
        3
    };
    assert(width as u128 * height as u128 <= 0xffff_ffff_ffff_ffffu128 && width as u128 * height as u128 * k
        <= 0x3_ffff_ffff_ffff_fffcu128) by (nonlinear_arith)
        requires
            width <= 0xffff_ffff,
            height <= 0xffff_ffff,
            k <= 4,
    ;
    let expected: u128 = width as u128 * height as u128 * k;
    if (img.data.len() as u128) < expected {
        let mut m = String::from_str("webp: static buffer ");
        push_decimal(&mut m, img.data.len() as u128);
        m.append(" < expected ");
        push_decimal(&mut m, expected);
        m.append(" bytes: ");
        m.append(name);
        proof {
            reveal_strlit("webp: static buffer ");
            reveal_strlit(" < expected ");
            reveal_strlit(" bytes: ");
        }
        return Err(AppError::Decode(m));
    }
    let ghost sv = img@;
    proof {
        let p = width * height;
        assert(p * 3 <= img.data@.len()) by (nonlinear_arith)
            requires
                p == width * height,
                width * height * k <= img.data@.len(),
                k >= 3,
        ;
    }
    let count: usize = (width as usize) * (height as usize);
    let rgba: Vec<u8> = if img.has_alpha {
        let mut v: Vec<u8> = Vec::new();
        let total = count * 4;
        let mut j: usize = 0;
        while j < total
            invariant
                total == width * height * 4,
                total <= img.data@.len(),
                j <= total,
                v@ == img.data@.take(j as int),
            decreases total - j,
        {
            v.push(img.data[j]);
            j = j + 1;
            proof {
                assert(v@ =~= img.data@.take(j as int));
            }
        }
        v
    } else {
        let mut v: Vec<u8> = Vec::new();
        let mut p: usize = 0;
        while p < count
            invariant
                sv == img@,
                !sv.has_alpha,
                count == width * height,
                count * 3 <= img.data@.len(),
                count * 4 <= usize::MAX,
                p <= count,
                v@.len() == p * 4,
                forall|i: int| #![trigger v@[i]]
                    0 <= i < v@.len() ==> v@[i] == (if i % 4 < 3 {
                        sv.data[(i / 4) * 3 + i % 4]
                    } else {
                        255u8
                    }),
            decreases count - p,
        {
            let ghost before = v@;
            v.push(img.data[p * 3]);
            v.push(img.data[p * 3 + 1]);
            v.push(img.data[p * 3 + 2]);
            v.push(255);
            proof {
                assert forall|i: int| #![trigger v@[i]] 0 <= i < v@.len() implies v@[i] == (if i % 4 < 3 {
                    sv.data[(i / 4) * 3 + i % 4]
                } else {
                    255u8
                }) by {
                    if i < before.len() {
                        assert(v@[i] == before[i]);
                    } else {
                        let c = i - p * 4;
                        vstd::arithmetic::div_mod::lemma_fundamental_div_mod_converse(i, 4, p as int, c);
                    }
                }
            }
            p = p + 1;
        }
        v
    };
    proof {
        assert(rgba@ =~= still_rgba(sv));
        assert(rgba@.len() == width * height * 4);
    }
    let mut frames: Vec<DecodedFrame> = Vec::new();
    frames.push(DecodedFrame { rgba, duration_ms: FALLBACK_DURATION_MS });
    proof {
        assert(frames@.drop_last() =~= Seq::<DecodedFrame>::empty());
        assert(decoded_bytes(Seq::<DecodedFrame>::empty()) == 0);
        assert(frames@.last().rgba@.len() == width * height * 4);
        assert(decoded_bytes(frames@) == width * height * 4);
    }
    finish(frames, width, height, 0)
}

/// Decodes a still WebP image from `bytes` (see `still_post`; `anim_err`
/// says why the animation decoder gave up).
pub fn decode_static(name: &str, bytes: &[u8], anim_err: &str) -> (r: Result<DecodedAnimation, AppError>)
    requires
        head_canvas_fits(bytes@),
    ensures
        still_post(name@, anim_err@, webp_still_of(bytes@), r),
{
    let still = webp_decode_still(bytes);
    still_to_animation(name, still, anim_err)
}

/// The container check passes: the announced frames fit the budget and the
/// opening canvas fits a 32-bit buffer, so the decoders may run.
pub open spec fn admitted(bytes: Seq<u8>) -> bool {
    precheck_needed(bytes) is None && head_canvas_fits(bytes)
}

/// The refusal of the container check: the announced size when the frames
/// exceed the budget, else the opening canvas's buffer size.
pub open spec fn refusal_of(bytes: Seq<u8>, e: AppError) -> bool {
    match precheck_needed(bytes) {
        Some(p) => e matches AppError::TooLarge { needed, budget } && needed == saturate(p) && budget
            == MEMORY_BUDGET_BYTES,
        None => {
            let c = head_canvas(bytes)->Some_0;
            e matches AppError::TooLarge { needed, budget } && needed == 4 * c.0 * c.1 && budget
                == MEMORY_BUDGET_BYTES
        },
    }
}

/// The container check on the bytes of a WebP file, before any decoder runs
/// (see `admitted` and `refusal_of`).
pub fn check_container(name: &str, bytes: &[u8]) -> (r: Result<(), AppError>)
    ensures
        r is Ok <==> admitted(bytes@),
        r matches Err(e) ==> refusal_of(bytes@, e),
{
    match precheck_budget(bytes) {
        Ok(()) => {},
        Err(e) => {
            return Err(ctx(name, e));
        },
    }
    match head_canvas_bytes(bytes) {
        Some(n) => {
            if n > 0xffff_ffff {
                return Err(AppError::TooLarge { needed: n, budget: MEMORY_BUDGET_BYTES });
            }
        },
        None => {},
    }
    Ok(())
}

/// What the first step of loading a WebP file gives: a failed read is an
/// I/O error, a refused container its refusal, and admitted bytes are
/// handed back for the animation decoder.
pub open spec fn begin_webp_post(read: Result<Vec<u8>, std::io::Error>, r: Result<Vec<u8>, AppError>) -> bool {
    match read {
        Err(e) => r == Err::<Vec<u8>, AppError>(AppError::Io(e)),
        Ok(bytes) => if admitted(bytes@) {
            r matches Ok(b) && b@ == bytes@
        } else {
            r matches Err(e) && refusal_of(bytes@, e)
        },
    }
}

/// First step of loading a WebP file (`read` is the outcome of reading it,
/// `name` names it in messages): the read error or the container check's
/// refusal, or the bytes on which the animation decoder is to run.
pub fn begin_webp(name: &str, read: Result<Vec<u8>, std::io::Error>) -> (r: Result<Vec<u8>, AppError>)
    ensures
        begin_webp_post(read, r),
{
    let bytes = match read {
        Ok(b) => b,
        Err(e) => {
            return Err(AppError::Io(e));
        },
    };
    match check_container(name, bytes.as_slice()) {
        Ok(()) => Ok(bytes),
        Err(e) => Err(e),
    }
}

/// What `load_webp` makes of a file's bytes and the outcome of the
/// animation decoder on them: a refused container is refused; otherwise the
/// animation's frames are used when there are any, and the still-image
/// decoder otherwise (with the animation decoder's message, or `no frames`).
pub open spec fn load_webp_post(
    name: Seq<char>,
    bytes: Seq<u8>,
    anim: Result<WebpAnimationView, Seq<char>>,
    r: Result<DecodedAnimation, AppError>,
) -> bool {
    if !admitted(bytes) {
        r matches Err(e) && refusal_of(bytes, e)
    } else {
        match anim {
            Ok(a) => if a.frames.len() > 0 {
                decode_anim_post(name, a, r)
            } else {
                still_post(name, "no frames"@, webp_still_of(bytes), r)
            },
            Err(m) => still_post(name, m, webp_still_of(bytes), r),
        }
    }
}

/// Second step of loading a WebP file: `anim` is what the animation decoder
/// (`webp::AnimDecoder`) made of `bytes`, frames or its message. The
/// container is checked again, so any bytes may come (see
/// `load_webp_post`).
pub fn load_webp(name: &str, bytes: &[u8], anim: Result<WebpAnimation, String>) -> (r: Result<
    DecodedAnimation,
    AppError,
>)
    requires
        anim matches Ok(a) ==> forall|i: int| #![trigger a.frames@[i]]
            0 <= i < a.frames@.len() ==> a.frames@[i].data@.len() <= isize::MAX,
    ensures
        load_webp_post(
            name@,
            bytes@,
            match anim {
                Ok(a) => Ok(a@),
                Err(m) => Err(m@),
            },
            r,
        ),
{
    match check_container(name, bytes) {
        Ok(()) => {},
        Err(e) => {
            return Err(e);
        },
    }
    match anim {
        Ok(a) => {
            if a.frames.len() > 0 {
                decode_anim(name, a)
            } else {
                proof {
                    reveal_strlit("no frames");
                }
                decode_static(name, bytes, "no frames")
            }
        },
        Err(e) => decode_static(name, bytes, e.as_str()),
    }
}

} // verus!
