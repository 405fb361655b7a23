//! Pixel transforms. Every canvas transform applies to all frames at once
//! (one canvas for the whole document) and produces new frames; the caller
//! maps old ids to the new ones.
use super::frame::{Frame, FrameView};
use rayon::iter::{IntoParallelRefIterator, ParallelIterator};
use std::sync::Arc;
use vstd::prelude::*;

verus! {

/// Resampling filter (default Catmull-Rom; Nearest keeps pixel art crisp).
#[derive(Debug, Clone, Copy, PartialEq, Eq, Structural)]
pub enum ResizeFilter {
    Nearest,
    Triangle,
    CatmullRom,
    Lanczos3,
}

/// Rotation direction.
#[derive(Debug, Clone, Copy, PartialEq, Eq, Structural)]
pub enum RotDir {
    Left,
    Right,
}

/// Flip axis.
#[derive(Debug, Clone, Copy, PartialEq, Eq, Structural)]
pub enum FlipAxis {
    Horizontal,
    Vertical,
}

/// Byte `c` of pixel `(x, y)` of a row-major RGBA8 image of width `w`.
pub open spec fn px(s: Seq<u8>, w: int, x: int, y: int, c: int) -> u8 {
    s[(y * w + x) * 4 + c]
}

/// Builds a `nw` x `nh` RGBA8 image whose byte `c` of pixel `(x, y)` is `f(x, y, c)`.
pub open spec fn image_of(nw: int, nh: int, f: spec_fn(int, int, int) -> u8) -> Seq<u8> {
    Seq::new((nw * nh * 4) as nat, |i: int| f((i / 4) % nw, (i / 4) / nw, i % 4))
}

/// The `cw` x `ch` rectangle at `(x0, y0)` of a `w`-wide image.
pub open spec fn cropped(src: Seq<u8>, w: int, x0: int, y0: int, cw: int, ch: int) -> Seq<u8> {
    image_of(cw, ch, |x: int, y: int, c: int| px(src, w, x0 + x, y0 + y, c))
}

/// A `w` x `h` image turned 90 degrees clockwise (the result is `h` wide).
pub open spec fn rotated_right(src: Seq<u8>, w: int, h: int) -> Seq<u8> {
    image_of(h, w, |x: int, y: int, c: int| px(src, w, y, h - 1 - x, c))
}

/// A `w` x `h` image turned 90 degrees counter-clockwise (the result is `h` wide).
pub open spec fn rotated_left(src: Seq<u8>, w: int, h: int) -> Seq<u8> {
    image_of(h, w, |x: int, y: int, c: int| px(src, w, w - 1 - y, x, c))
}

/// A `w` x `h` image mirrored left to right.
pub open spec fn flipped_h(src: Seq<u8>, w: int, h: int) -> Seq<u8> {
    image_of(w, h, |x: int, y: int, c: int| px(src, w, w - 1 - x, y, c))
}

/// A `w` x `h` image mirrored top to bottom.
pub open spec fn flipped_v(src: Seq<u8>, w: int, h: int) -> Seq<u8> {
    image_of(w, h, |x: int, y: int, c: int| px(src, w, x, h - 1 - y, c))
}

/// Filters whose resampling uses only exactly rounded float operations
/// (a box or a triangle kernel: products, sums, `floor`, `ceil`, `round`),
/// so that the output depends on the input alone. Catmull-Rom evaluates its
/// kernel with `powi` and Lanczos3 with `sin`, whose precision the standard
/// library leaves open from one platform to another.
pub open spec fn exact_filter(filter: ResizeFilter) -> bool {
    filter is Nearest || filter is Triangle
}

/// Reach of each filter's kernel around a sample point, in source pixels
/// at scale 1 (the `support` of `image::imageops::resize`).
pub open spec fn filter_support(filter: ResizeFilter) -> int {
    match filter {
        ResizeFilter::Nearest => 0,
        ResizeFilter::Triangle => 1,
        ResizeFilter::CatmullRom => 2,
        ResizeFilter::Lanczos3 => 3,
    }
}

/// Twice `m` times the distance, in source pixels, within which a sample
/// of a side of `n` pixels brought to `m` pixels reads its input: the
/// kernel's reach stretched by the shrink factor, `s * max(1, n / m)`, plus
/// two pixels for the window's rounding to whole pixels.
pub open spec fn reach_bound(n: int, m: int, s: int) -> int {
    2 * s * (if n > m {
        n
    } else {
        m
    }) + 4 * m
}

/// Source pixel `i` of a side of `n` pixels lies within reach of output
/// pixel `o` of a side of `m` pixels: its distance to the output pixel's
/// centre mapped into the source, `(o + 1/2) * n / m`, is at most
/// `reach_bound / (2 * m)`.
pub open spec fn in_reach(i: int, o: int, n: int, m: int, s: int) -> bool {
    let d = 2 * i * m - (2 * o + 1) * n;
    -reach_bound(n, m, s) <= d <= reach_bound(n, m, s)
}

/// Channel `c` of every source pixel within reach of output pixel
/// `(x, y)` (a `w` x `h` source brought to `nw` x `nh`, reach `s`) is `v`.
pub open spec fn uniform_around(
    src: Seq<u8>,
    w: int,
    h: int,
    nw: int,
    nh: int,
    s: int,
    x: int,
    y: int,
    c: int,
    v: u8,
) -> bool {
    forall|sx: int, sy: int|
        0 <= sx < w && 0 <= sy < h && in_reach(sx, x, w, nw, s) && in_reach(sy, y, h, nh, s) ==> #[trigger] px(
            src,
            w,
            sx,
            sy,
            c,
        ) == v
}

/// `dst` (`nw` x `nh`) is resampled locally from `src` (`w` x `h`): each
/// channel of an output pixel whose source pixels within reach all agree
/// on that channel takes that value. Stated for a non-empty source shrunk
/// by at most 64 on each side, where the rounding errors of the float
/// weights stay far below half a unit.
pub open spec fn resampled_locally(
    src: Seq<u8>,
    w: u32,
    h: u32,
    dst: Seq<u8>,
    nw: u32,
    nh: u32,
    filter: ResizeFilter,
) -> bool {
    w > 0 && h > 0 && w <= 64 * nw && h <= 64 * nh ==> forall|x: int, y: int, c: int, v: u8|
        0 <= x < nw && 0 <= y < nh && 0 <= c < 4 && #[trigger] uniform_around(
            src,
            w as int,
            h as int,
            nw as int,
            nh as int,
            filter_support(filter),
            x,
            y,
            c,
            v,
        ) ==> px(dst, nw as int, x, y, c) == v
}

/// Resampled pixels of a `w` x `h` RGBA8 image brought to `nw` x `nh` with
/// a filter of `exact_filter`, as computed by `image::imageops::resize`.
pub uninterp spec fn resized_pixels(src: Seq<u8>, w: u32, h: u32, nw: u32, nh: u32, filter: ResizeFilter) -> Seq<u8>;

/// Clamps a crop rectangle to the canvas, keeping width and height at least 1.
pub open spec fn clamp_crop_spec(canvas: (u32, u32), x: u32, y: u32, w: u32, h: u32) -> (u32, u32, u32, u32) {
    let x2 = if x < canvas.0 - 1 { x } else { (canvas.0 - 1) as u32 };
    let y2 = if y < canvas.1 - 1 { y } else { (canvas.1 - 1) as u32 };
    let w2 = if w < 1 { 1 } else if w > canvas.0 - x2 { (canvas.0 - x2) as u32 } else { w };
    let h2 = if h < 1 { 1 } else if h > canvas.1 - y2 { (canvas.1 - y2) as u32 } else { h };
    (x2, y2, w2, h2)
}

/// Clamps a crop rectangle to a non-empty canvas; the result lies inside the
/// canvas and is at least 1 x 1.
pub fn clamp_crop(canvas: (u32, u32), x: u32, y: u32, w: u32, h: u32) -> (r: (u32, u32, u32, u32))
    requires
        canvas.0 > 0,
        canvas.1 > 0,
    ensures
        r == clamp_crop_spec(canvas, x, y, w, h),
        r.0 + r.2 <= canvas.0,
        r.1 + r.3 <= canvas.1,
        r.2 >= 1,
        r.3 >= 1,
{
    let x = if x < canvas.0 - 1 { x } else { canvas.0 - 1 };
    let y = if y < canvas.1 - 1 { y } else { canvas.1 - 1 };
    let w = if w < 1 { 1 } else if w > canvas.0 - x { canvas.0 - x } else { w };
    let h = if h < 1 { 1 } else if h > canvas.1 - y { canvas.1 - y } else { h };
    (x, y, w, h)
}

/// Calls `image::imageops::crop_imm` and copies the view out (`to_image`).
#[verifier::external_body]
fn image_crop(data: &[u8], w: u32, h: u32, x: u32, y: u32, cw: u32, ch: u32) -> (r: Vec<u8>)
    requires
        data@.len() == w * h * 4,
        x + cw <= w,
        y + ch <= h,
    ensures
        r@ == cropped(data@, w as int, x as int, y as int, cw as int, ch as int),
{
    let img = image::RgbaImage::from_raw(w, h, data.to_vec()).unwrap();
    image::imageops::crop_imm(&img, x, y, cw, ch).to_image().into_raw()
}

/// Calls `image::imageops::rotate90` (clockwise).
#[verifier::external_body]
fn image_rotate90(data: &[u8], w: u32, h: u32) -> (r: Vec<u8>)
    requires
        data@.len() == w * h * 4,
    ensures
        r@ == rotated_right(data@, w as int, h as int),
{
    let img = image::RgbaImage::from_raw(w, h, data.to_vec()).unwrap();
    image::imageops::rotate90(&img).into_raw()
}

/// Calls `image::imageops::rotate270` (counter-clockwise).
#[verifier::external_body]
fn image_rotate270(data: &[u8], w: u32, h: u32) -> (r: Vec<u8>)
    requires
        data@.len() == w * h * 4,
    ensures
        r@ == rotated_left(data@, w as int, h as int),
{
    let img = image::RgbaImage::from_raw(w, h, data.to_vec()).unwrap();
    image::imageops::rotate270(&img).into_raw()
}

/// Calls `image::imageops::flip_horizontal`.
#[verifier::external_body]
fn image_flip_horizontal(data: &[u8], w: u32, h: u32) -> (r: Vec<u8>)
    requires
        data@.len() == w * h * 4,
    ensures
        r@ == flipped_h(data@, w as int, h as int),
{
    let img = image::RgbaImage::from_raw(w, h, data.to_vec()).unwrap();
    image::imageops::flip_horizontal(&img).into_raw()
}

/// Calls `image::imageops::flip_vertical`.
#[verifier::external_body]
fn image_flip_vertical(data: &[u8], w: u32, h: u32) -> (r: Vec<u8>)
    requires
        data@.len() == w * h * 4,
    ensures
        r@ == flipped_v(data@, w as int, h as int),
{
    let img = image::RgbaImage::from_raw(w, h, data.to_vec()).unwrap();
    image::imageops::flip_vertical(&img).into_raw()
}

/// Calls `image::imageops::resize`, whose output always has the requested
/// dimensions. The resampled values are named by `resized_pixels` for the
/// filters of `exact_filter`. For every filter the output is local
/// (`resampled_locally`): `resize` samples columns then rows with weights
/// normalised to sum 1, each output pixel reading only source pixels
/// between `floor(c - r)` and `ceil(c + r)` (clamped into the image) around
/// its centre `c` mapped into the source, `r` being the filter's support
/// times the shrink factor; same-size images are copied. When all those
/// pixels agree on a channel, the weighted sums stay within a small
/// fraction of that value (at most a few hundred weights per pass for a
/// shrink of at most 64, each off by a float rounding), and the final
/// rounding gives it back exactly.
#[verifier::external_body]
fn image_resize(data: &[u8], w: u32, h: u32, nw: u32, nh: u32, filter: ResizeFilter) -> (r: Vec<u8>)
    requires
        data@.len() == w * h * 4,
        nw > 0,
        nh > 0,
    ensures
        exact_filter(filter) ==> r@ == resized_pixels(data@, w, h, nw, nh, filter),
        resampled_locally(data@, w, h, r@, nw, nh, filter),
        r@.len() == nw * nh * 4,
{
    let img = image::RgbaImage::from_raw(w, h, data.to_vec()).unwrap();
    let kind = match filter {
        ResizeFilter::Nearest => image::imageops::FilterType::Nearest,
        ResizeFilter::Triangle => image::imageops::FilterType::Triangle,
        ResizeFilter::CatmullRom => image::imageops::FilterType::CatmullRom,
        ResizeFilter::Lanczos3 => image::imageops::FilterType::Lanczos3,
    };
    image::imageops::resize(&img, nw, nh, kind).into_raw()
}

proof fn lemma_image_len(nw: int, nh: int)
    requires
        nw >= 0,
        nh >= 0,
    ensures
        nw * nh * 4 >= 0,
{
    assert(nw * nh >= 0) by (nonlinear_arith)
        requires
            nw >= 0,
            nh >= 0,
    ;
}

/// Crop of a single frame (the caller has clamped the rectangle).
pub fn crop_frame(frame: &Frame, x: u32, y: u32, w: u32, h: u32) -> (r: Frame)
    requires
        frame.wf(),
        x + w <= frame@.width,
        y + h <= frame@.height,
    ensures
        r.wf(),
        r@.width == w,
        r@.height == h,
        r@.duration_ms == frame@.duration_ms,
        r@.pixels == cropped(frame@.pixels, frame@.width as int, x as int, y as int, w as int, h as int),
{
    let data = image_crop(frame.as_rgba(), frame.width(), frame.height(), x, y, w, h);
    proof {
        lemma_image_len(w as int, h as int);
    }
    Frame::from_rgba(data, w, h, frame.duration_ms()).unwrap()
}

/// Resize of a single frame (its pixels are stated for the filters of
/// `exact_filter`).
pub fn resize_frame(frame: &Frame, width: u32, height: u32, filter: ResizeFilter) -> (r: Frame)
    requires
        frame.wf(),
        width > 0,
        height > 0,
    ensures
        r.wf(),
        r@.width == width,
        r@.height == height,
        r@.duration_ms == frame@.duration_ms,
        exact_filter(filter) ==> r@.pixels == resized_pixels(frame@.pixels, frame@.width, frame@.height, width, height, filter),
        resampled_locally(frame@.pixels, frame@.width, frame@.height, r@.pixels, width, height, filter),
{
    let data = image_resize(frame.as_rgba(), frame.width(), frame.height(), width, height, filter);
    Frame::from_rgba(data, width, height, frame.duration_ms()).unwrap()
}

/// The frame turned by 90 degrees in the given direction.
pub open spec fn rotated(v: FrameView, dir: RotDir) -> Seq<u8> {
    match dir {
        RotDir::Left => rotated_left(v.pixels, v.width as int, v.height as int),
        RotDir::Right => rotated_right(v.pixels, v.width as int, v.height as int),
    }
}

/// The frame mirrored along the given axis.
pub open spec fn flipped(v: FrameView, axis: FlipAxis) -> Seq<u8> {
    match axis {
        FlipAxis::Horizontal => flipped_h(v.pixels, v.width as int, v.height as int),
        FlipAxis::Vertical => flipped_v(v.pixels, v.width as int, v.height as int),
    }
}

/// Rotation of a single frame by 90 degrees (width and height swap).
pub fn rotate_frame(frame: &Frame, dir: RotDir) -> (r: Frame)
    requires
        frame.wf(),
    ensures
        r.wf(),
        r@.width == frame@.height,
        r@.height == frame@.width,
        r@.duration_ms == frame@.duration_ms,
        r@.pixels == rotated(frame@, dir),
{
    let data = match dir {
        RotDir::Left => image_rotate270(frame.as_rgba(), frame.width(), frame.height()),
        RotDir::Right => image_rotate90(frame.as_rgba(), frame.width(), frame.height()),
    };
    proof {
        lemma_image_len(frame@.height as int, frame@.width as int);
        assert(frame@.height * frame@.width == frame@.width * frame@.height) by (nonlinear_arith);
    }
    Frame::from_rgba(data, frame.height(), frame.width(), frame.duration_ms()).unwrap()
}

/// Mirror of a single frame.
pub fn flip_frame(frame: &Frame, axis: FlipAxis) -> (r: Frame)
    requires
        frame.wf(),
    ensures
        r.wf(),
        r@.width == frame@.width,
        r@.height == frame@.height,
        r@.duration_ms == frame@.duration_ms,
        r@.pixels == flipped(frame@, axis),
{
    let data = match axis {
        FlipAxis::Horizontal => image_flip_horizontal(frame.as_rgba(), frame.width(), frame.height()),
        FlipAxis::Vertical => image_flip_vertical(frame.as_rgba(), frame.width(), frame.height()),
    };
    Frame::from_rgba(data, frame.width(), frame.height(), frame.duration_ms()).unwrap()
}

/// Frames whose rectangle `(x, y, w, h)` lies inside every frame.
pub open spec fn all_contain(frames: Seq<Arc<Frame>>, x: u32, y: u32, w: u32, h: u32) -> bool {
    forall|i: int| #![trigger frames[i]] 0 <= i < frames.len() ==> {
        &&& frames[i].wf()
        &&& x + w <= frames[i]@.width
        &&& y + h <= frames[i]@.height
    }
}

/// Every frame is well formed.
pub open spec fn all_wf(frames: Seq<Arc<Frame>>) -> bool {
    forall|i: int| #![trigger frames[i]] 0 <= i < frames.len() ==> frames[i].wf()
}

/// Maps `crop_frame` over the frames in parallel with rayon; `collect` keeps
/// the input order.
#[verifier::external_body]
fn par_crop(frames: &[Arc<Frame>], x: u32, y: u32, w: u32, h: u32) -> (r: Vec<Frame>)
    requires
        all_contain(frames@, x, y, w, h),
    ensures
        r@.len() == frames@.len(),
        forall|i: int| #![trigger r@[i]] 0 <= i < r@.len() ==> {
            &&& r@[i].wf()
            &&& r@[i]@.width == w
            &&& r@[i]@.height == h
            &&& r@[i]@.duration_ms == frames@[i]@.duration_ms
            &&& r@[i]@.pixels == cropped(frames@[i]@.pixels, frames@[i]@.width as int, x as int, y as int, w as int, h as int)
        },
{
    frames.par_iter().map(|f| crop_frame(f, x, y, w, h)).collect()
}

/// Maps `resize_frame` over the frames in parallel with rayon; `collect`
/// keeps the input order.
#[verifier::external_body]
fn par_resize(frames: &[Arc<Frame>], width: u32, height: u32, filter: ResizeFilter) -> (r: Vec<Frame>)
    requires
        all_wf(frames@),
        width > 0,
        height > 0,
    ensures
        r@.len() == frames@.len(),
        forall|i: int| #![trigger r@[i]] 0 <= i < r@.len() ==> {
            &&& r@[i].wf()
            &&& r@[i]@.width == width
            &&& r@[i]@.height == height
            &&& r@[i]@.duration_ms == frames@[i]@.duration_ms
            &&& resampled_locally(
                frames@[i]@.pixels,
                frames@[i]@.width,
                frames@[i]@.height,
                r@[i]@.pixels,
                width,
                height,
                filter,
            )
            &&& exact_filter(filter) ==> r@[i]@.pixels == resized_pixels(
                frames@[i]@.pixels,
                frames@[i]@.width,
                frames@[i]@.height,
                width,
                height,
                filter,
            )
        },
{
    frames.par_iter().map(|f| resize_frame(f, width, height, filter)).collect()
}

/// Maps `rotate_frame` over the frames in parallel with rayon; `collect`
/// keeps the input order.
#[verifier::external_body]
fn par_rotate(frames: &[Arc<Frame>], dir: RotDir) -> (r: Vec<Frame>)
    requires
        all_wf(frames@),
    ensures
        r@.len() == frames@.len(),
        forall|i: int| #![trigger r@[i]] 0 <= i < r@.len() ==> {
            &&& r@[i].wf()
            &&& r@[i]@.width == frames@[i]@.height
            &&& r@[i]@.height == frames@[i]@.width
            &&& r@[i]@.duration_ms == frames@[i]@.duration_ms
            &&& r@[i]@.pixels == rotated(frames@[i]@, dir)
        },
{
    frames.par_iter().map(|f| rotate_frame(f, dir)).collect()
}

/// Maps `flip_frame` over the frames in parallel with rayon; `collect`
/// keeps the input order.
#[verifier::external_body]
fn par_flip(frames: &[Arc<Frame>], axis: FlipAxis) -> (r: Vec<Frame>)
    requires
        all_wf(frames@),
    ensures
        r@.len() == frames@.len(),
        forall|i: int| #![trigger r@[i]] 0 <= i < r@.len() ==> {
            &&& r@[i].wf()
            &&& r@[i]@.width == frames@[i]@.width
            &&& r@[i]@.height == frames@[i]@.height
            &&& r@[i]@.duration_ms == frames@[i]@.duration_ms
            &&& r@[i]@.pixels == flipped(frames@[i]@, axis)
        },
{
    frames.par_iter().map(|f| flip_frame(f, axis)).collect()
}

/// Crop of every frame, in order.
pub fn crop_all(frames: &[Arc<Frame>], x: u32, y: u32, w: u32, h: u32) -> (r: Vec<Frame>)
    requires
        all_contain(frames@, x, y, w, h),
    ensures
        r@.len() == frames@.len(),
        forall|i: int| #![trigger r@[i]] 0 <= i < r@.len() ==> {
            &&& r@[i].wf()
            &&& r@[i]@.width == w
            &&& r@[i]@.height == h
            &&& r@[i]@.duration_ms == frames@[i]@.duration_ms
            &&& r@[i]@.pixels == cropped(frames@[i]@.pixels, frames@[i]@.width as int, x as int, y as int, w as int, h as int)
        },
{
    par_crop(frames, x, y, w, h)
}

/// Resize of every frame, in order.
pub fn resize_all(frames: &[Arc<Frame>], width: u32, height: u32, filter: ResizeFilter) -> (r: Vec<Frame>)
    requires
        all_wf(frames@),
        width > 0,
        height > 0,
    ensures
        r@.len() == frames@.len(),
        forall|i: int| #![trigger r@[i]] 0 <= i < r@.len() ==> {
            &&& r@[i].wf()
            &&& r@[i]@.width == width
            &&& r@[i]@.height == height
            &&& r@[i]@.duration_ms == frames@[i]@.duration_ms
            &&& resampled_locally(
                frames@[i]@.pixels,
                frames@[i]@.width,
                frames@[i]@.height,
                r@[i]@.pixels,
                width,
                height,
                filter,
            )
            &&& exact_filter(filter) ==> r@[i]@.pixels == resized_pixels(
                frames@[i]@.pixels,
                frames@[i]@.width,
                frames@[i]@.height,
                width,
                height,
                filter,
            )
        },
{
    par_resize(frames, width, height, filter)
}

/// Rotation of every frame, in order.
pub fn rotate_all(frames: &[Arc<Frame>], dir: RotDir) -> (r: Vec<Frame>)
    requires
        all_wf(frames@),
    ensures
        r@.len() == frames@.len(),
        forall|i: int| #![trigger r@[i]] 0 <= i < r@.len() ==> {
            &&& r@[i].wf()
            &&& r@[i]@.width == frames@[i]@.height
            &&& r@[i]@.height == frames@[i]@.width
            &&& r@[i]@.duration_ms == frames@[i]@.duration_ms
            &&& r@[i]@.pixels == rotated(frames@[i]@, dir)
        },
{
    par_rotate(frames, dir)
}

/// Mirror of every frame, in order.
pub fn flip_all(frames: &[Arc<Frame>], axis: FlipAxis) -> (r: Vec<Frame>)
    requires
        all_wf(frames@),
    ensures
        r@.len() == frames@.len(),
        forall|i: int| #![trigger r@[i]] 0 <= i < r@.len() ==> {
            &&& r@[i].wf()
            &&& r@[i]@.width == frames@[i]@.width
            &&& r@[i]@.height == frames@[i]@.height
            &&& r@[i]@.duration_ms == frames@[i]@.duration_ms
            &&& r@[i]@.pixels == flipped(frames@[i]@, axis)
        },
{
    par_flip(frames, axis)
}

} // verus!
