//! Still images (PNG / JPEG / BMP) as single-frame documents.
//!
//! The `image` crate decodes the bytes (format guessed from the content,
//! allocations capped at the memory budget) and converts to RGBA8; the
//! frame gets a placeholder duration of 100 ms and the document loops
//! forever.
use super::gif_in::{decode_err, decode_error_of, io_error_text};
use super::{DecodedAnimation, DecodedFrame};
use crate::errors::AppError;
use crate::model::MEMORY_BUDGET_BYTES;
use std::io::Cursor;
use vstd::prelude::*;

verus! {

/// Placeholder duration of a still image's frame (ms).
pub const STATIC_FRAME_MS: u32 = 100;

/// The bytes open with the JPEG start-of-image marker, from which the
/// `image` crate guesses the JPEG format.
pub open spec fn is_jpeg(bytes: Seq<u8>) -> bool {
    bytes.len() >= 3 && bytes[0] == 0xffu8 && bytes[1] == 0xd8u8 && bytes[2] == 0xffu8
}

/// Every fourth byte (the alpha of each RGBA pixel) is 255.
pub open spec fn opaque(px: Seq<u8>) -> bool {
    forall|i: int| 0 <= i < px.len() && i % 4 == 3 ==> #[trigger] px[i] == 255u8
}

/// What the `image` crate makes of `bytes` (not JPEG) with allocations
/// capped at `max_alloc`: width, height and RGBA8 pixels, or its error
/// message.
pub uninterp spec fn image_rgba_of(bytes: Seq<u8>, max_alloc: u64) -> Result<(u32, u32, Seq<u8>), Seq<char>>;

/// Decodes `bytes` with `ImageReader::new` over a cursor,
/// `with_guessed_format`, default limits with the allocation cap
/// `max_alloc`, `decode`, then `to_rgba8` and `into_raw`; a failure comes
/// back as its message. `into_raw` of a `w` x `h` RGBA8 image holds
/// `w * h * 4` bytes. For PNG, GIF and BMP the decoders work in integers and
/// the result depends on the arguments alone; the JPEG decoder (zune-jpeg)
/// picks a SIMD or a scalar transform at run time, which need not give the
/// same pixels, so for JPEG bytes only the size is stated, and that the
/// pixels are opaque: zune-jpeg reads a JPEG as luma, YCbCr, RGB, CMYK,
/// YCCK or multi-band, the `image` crate has it put out as `L8` or `Rgb8`
/// (never with alpha), and `to_rgba8` gives such pixels alpha 255.
#[verifier::external_body]
fn decode_image_rgba(bytes: Vec<u8>, max_alloc: u64) -> (r: Result<(u32, u32, Vec<u8>), String>)
    ensures
        r matches Ok((w, h, px)) ==> px@.len() == w * h * 4,
        is_jpeg(bytes@) ==> (r matches Ok((w, h, px)) ==> opaque(px@)),
        !is_jpeg(bytes@) ==> match r {
            Ok((w, h, px)) => image_rgba_of(bytes@, max_alloc) == Ok::<(u32, u32, Seq<u8>), Seq<char>>(
                (w, h, px@),
            ),
            Err(m) => image_rgba_of(bytes@, max_alloc) == Err::<(u32, u32, Seq<u8>), Seq<char>>(m@),
        },
{
    let mut reader = image::ImageReader::new(Cursor::new(bytes)).with_guessed_format().map_err(|e| e.to_string())?;
    let mut limits = image::Limits::default();
    limits.max_alloc = Some(max_alloc);
    reader.limits(limits);
    let img = reader.decode().map_err(|e| e.to_string())?.to_rgba8();
    Ok((img.width(), img.height(), img.into_raw()))
}

/// The single-frame document of a decoded still image, or the budget
/// refusal.
pub open spec fn still_image_post(name: Seq<char>, decoded: Result<(u32, u32, Seq<u8>), Seq<char>>, r: Result<
    DecodedAnimation,
    AppError,
>) -> bool {
    match decoded {
        Err(m) => decode_error_of(name, m, r->Err_0) && r is Err,
        Ok((w, h, px)) => if px.len() > MEMORY_BUDGET_BYTES {
            r matches Err(AppError::TooLarge { needed, budget }) && needed == px.len() && budget
                == MEMORY_BUDGET_BYTES
        } else {
            r matches Ok(a) && a.width == w && a.height == h && a.loop_count == 0 && a.frames@.len() == 1
                && a.frames@[0].rgba@ == px && a.frames@[0].duration_ms == STATIC_FRAME_MS
        },
    }
}

/// A decoded still image (or the decoder's error) to a single-frame
/// document (see `still_image_post`).
pub fn still_image(name: &str, decoded: Result<(u32, u32, Vec<u8>), String>) -> (r: Result<DecodedAnimation, AppError>)
    ensures
        still_image_post(
            name@,
            match decoded {
                Ok((w, h, px)) => Ok((w, h, px@)),
                Err(m) => Err(m@),
            },
            r,
        ),
{
    match decoded {
        Err(m) => Err(decode_err(name, m.as_str())),
        Ok((width, height, rgba)) => {
            let needed = rgba.len() as u64;
            if needed > MEMORY_BUDGET_BYTES {
                return Err(AppError::TooLarge { needed, budget: MEMORY_BUDGET_BYTES });
            }
            let mut frames: Vec<DecodedFrame> = Vec::new();
            frames.push(DecodedFrame { rgba, duration_ms: STATIC_FRAME_MS });
            Ok(DecodedAnimation { width, height, loop_count: 0, frames })
        },
    }
}

/// What `load_static` does: a failed read is a decode error naming the
/// file; otherwise see `still_image_post`, over what the decoder gave
/// (for JPEG bytes, some outcome with opaque pixels of the stated size).
pub open spec fn load_static_post(name: Seq<char>, read: Result<Vec<u8>, std::io::Error>, r: Result<
    DecodedAnimation,
    AppError,
>) -> bool {
    match read {
        Err(_) => r is Err && exists|t: Seq<char>| decode_error_of(name, t, r->Err_0),
        Ok(bytes) => if is_jpeg(bytes@) {
            exists|d: Result<(u32, u32, Seq<u8>), Seq<char>>| {
                &&& (d matches Ok((w, h, px)) ==> px.len() == w * h * 4 && opaque(px))
                &&& #[trigger] still_image_post(name, d, r)
            }
        } else {
            still_image_post(name, image_rgba_of(bytes@, MEMORY_BUDGET_BYTES), r)
        },
    }
}

/// Decodes a still image from its bytes (`read` is the outcome of reading
/// the file, `name` names it in messages) into a single-frame document.
pub fn load_static(name: &str, read: Result<Vec<u8>, std::io::Error>) -> (r: Result<DecodedAnimation, AppError>)
    ensures
        load_static_post(name@, read, r),
{
    match read {
        Err(e) => {
            let t = io_error_text(&e);
            let err = decode_err(name, t.as_str());
            let r: Result<DecodedAnimation, AppError> = Err(err);
            proof {
                assert(decode_error_of(name@, t@, r->Err_0));
            }
            r
        },
        Ok(bytes) => {
            let ghost b = bytes@;
            let decoded = decode_image_rgba(bytes, MEMORY_BUDGET_BYTES);
            let ghost d: Result<(u32, u32, Seq<u8>), Seq<char>> = match &decoded {
                Ok((w, h, px)) => Ok((*w, *h, px@)),
                Err(m) => Err(m@),
            };
            let r = still_image(name, decoded);
            proof {
                assert(still_image_post(name@, d, r));
            }
            r
        },
    }
}

/// A JPEG loads as one opaque frame of its own size: when `load_static`
/// gives a document for JPEG bytes, it has a single frame of
/// `width * height` pixels, every one with alpha 255, shown for the
/// placeholder time, looping forever.
pub proof fn law_jpeg_loads_opaque(name: Seq<char>, bytes: Vec<u8>, r: Result<DecodedAnimation, AppError>)
    requires
        is_jpeg(bytes@),
        load_static_post(name, Ok(bytes), r),
        r is Ok,
    ensures
        r->Ok_0.frames@.len() == 1,
        r->Ok_0.frames@[0].rgba@.len() == r->Ok_0.width * r->Ok_0.height * 4,
        opaque(r->Ok_0.frames@[0].rgba@),
        r->Ok_0.frames@[0].duration_ms == STATIC_FRAME_MS,
        r->Ok_0.loop_count == 0,
{
    let d = choose|d: Result<(u32, u32, Seq<u8>), Seq<char>>| {
        &&& (d matches Ok((w, h, px)) ==> px.len() == w * h * 4 && opaque(px))
        &&& #[trigger] still_image_post(name, d, r)
    };
    assert(still_image_post(name, d, r));
}

} // verus!
