//! Encode/decode boundary for GIF, WebP and PNG. Every format is normalised
//! on entry to one time base: a duration in milliseconds per frame.
//!
//! Reading and writing files is the caller's business: decoders take the
//! bytes of a file (or the error of reading it) together with a display
//! name for messages, and encoders produce bytes.
use crate::errors::AppError;
use crate::model::GifQuality;
use crate::text::{lowercased, to_lowercase};
use vstd::prelude::*;
use vstd::string::StrSliceExecFns;

pub mod gif_in;
pub mod gif_out;
pub mod png_seq;
pub mod static_in;
pub mod webp_in;
pub mod webp_out;

pub use gif_in::load_gif;
pub use gif_out::encode_gif;
pub use png_seq::{encode_png, encode_png_zip};
pub use static_in::load_static;
pub use webp_in::load_webp;

verus! {

/// Decoding result: frames composed onto the full canvas.
#[derive(Debug)]
pub struct DecodedAnimation {
    pub width: u32,
    pub height: u32,
    /// GIF semantics: 0 = loop forever; 0 when the file says nothing.
    pub loop_count: u16,
    pub frames: Vec<DecodedFrame>,
}

/// One decoded frame.
#[derive(Debug)]
pub struct DecodedFrame {
    /// Flat RGBA8, `len == width * height * 4`.
    pub rgba: Vec<u8>,
    pub duration_ms: u32,
}

/// Mathematical content of a decoded frame.
pub struct DecodedFrameView {
    pub rgba: Seq<u8>,
    pub duration_ms: u32,
}

impl View for DecodedFrame {
    type V = DecodedFrameView;

    open spec fn view(&self) -> DecodedFrameView {
        DecodedFrameView { rgba: self.rgba@, duration_ms: self.duration_ms }
    }
}

/// Total RGBA bytes of the frames.
pub open spec fn decoded_bytes(frames: Seq<DecodedFrame>) -> int
    decreases frames.len(),
{
    if frames.len() == 0 {
        0
    } else {
        decoded_bytes(frames.drop_last()) + frames.last().rgba@.len()
    }
}

/// The file extensions the editor opens (lower case).
pub open spec fn supported_ext(e: Seq<char>) -> bool {
    e == "gif"@ || e == "png"@ || e == "jpg"@ || e == "jpeg"@ || e == "webp"@ || e == "bmp"@
}

/// Whether two strings hold the same characters.
pub fn same_text(a: &str, b: &str) -> (r: bool)
    ensures
        r == (a@ == b@),
{
    let n = a.unicode_len();
    if n != b.unicode_len() {
        return false;
    }
    let mut i: usize = 0;
    while i < n
        invariant
            n == a@.len(),
            n == b@.len(),
            0 <= i <= n,
            forall|j: int| 0 <= j < i ==> a@[j] == b@[j],
        decreases n - i,
    {
        if a.get_char(i) != b.get_char(i) {
            return false;
        }
        i = i + 1;
    }
    assert(a@ =~= b@);
    true
}

/// Whether a lower-cased extension is one of the supported ones.
fn is_supported_lower(e: &str) -> (r: bool)
    ensures
        r == supported_ext(e@),
{
    proof {
        reveal_strlit("gif");
        reveal_strlit("png");
        reveal_strlit("jpg");
        reveal_strlit("jpeg");
        reveal_strlit("webp");
        reveal_strlit("bmp");
    }
    same_text(e, "gif") || same_text(e, "png") || same_text(e, "jpg") || same_text(e, "jpeg")
        || same_text(e, "webp") || same_text(e, "bmp")
}

/// Whether a file with this extension can be opened (case-insensitive);
/// `extension` is the file's extension as text, if it has one that is
/// valid UTF-8.
pub fn is_supported(extension: Option<&str>) -> (r: bool)
    ensures
        r == (extension matches Some(e) && supported_ext(lowercased(e@))),
{
    match extension {
        Some(e) => {
            let lower = to_lowercase(e);
            is_supported_lower(lower.as_str())
        },
        None => false,
    }
}

/// Which decoder a lower-cased extension goes to.
pub enum Decoder {
    Gif,
    Webp,
    Still,
}

/// The decoder for a lower-cased extension, if any.
pub open spec fn decoder_for(e: Seq<char>) -> Option<Decoder> {
    if e == "gif"@ {
        Some(Decoder::Gif)
    } else if e == "webp"@ {
        Some(Decoder::Webp)
    } else if e == "png"@ || e == "jpg"@ || e == "jpeg"@ || e == "bmp"@ {
        Some(Decoder::Still)
    } else {
        None
    }
}

/// The decoder for an extension (case-insensitive).
pub fn pick_decoder(ext: &str) -> (r: (Option<Decoder>, String))
    ensures
        r.1@ == lowercased(ext@),
        r.0 == decoder_for(lowercased(ext@)),
{
    let lower = to_lowercase(ext);
    proof {
        reveal_strlit("gif");
        reveal_strlit("png");
        reveal_strlit("jpg");
        reveal_strlit("jpeg");
        reveal_strlit("webp");
        reveal_strlit("bmp");
    }
    let e = lower.as_str();
    let d = if same_text(e, "gif") {
        Some(Decoder::Gif)
    } else if same_text(e, "webp") {
        Some(Decoder::Webp)
    } else if same_text(e, "png") || same_text(e, "jpg") || same_text(e, "jpeg") || same_text(e, "bmp") {
        Some(Decoder::Still)
    } else {
        None
    };
    (d, lower)
}

/// Where loading a file stands after `load_any`.
pub enum LoadStep {
    /// The outcome: the decoded animation, or why there is none.
    Done(Result<DecodedAnimation, AppError>),
    /// A WebP file passed the container check: the caller runs the
    /// animation decoder on these bytes and hands its outcome to
    /// `webp_in::load_webp`.
    DecodeWebpAnimation(Vec<u8>),
}

/// Decodes a file by its extension (case-insensitive): GIF, WebP, or a
/// still image (PNG / JPEG / BMP); any other extension is reported as
/// unsupported with its lower-cased text. `read` is the outcome of reading
/// the file, `name` names it in messages. A WebP file that passes its
/// container check comes back for its animation decoder (see `LoadStep`).
pub fn load_any(ext: &str, name: &str, read: Result<Vec<u8>, std::io::Error>) -> (r: LoadStep)
    ensures
        decoder_for(lowercased(ext@)) is None ==> (r matches LoadStep::Done(Err(AppError::UnsupportedFormat(m)))
            && m@ == lowercased(ext@)),
        decoder_for(lowercased(ext@)) matches Some(Decoder::Gif) ==> (r matches LoadStep::Done(x)
            && gif_in::load_gif_post(name@, read, x)),
        decoder_for(lowercased(ext@)) matches Some(Decoder::Webp) ==> match r {
            LoadStep::Done(x) => x matches Err(e) && webp_in::begin_webp_post(read, Err(e)),
            LoadStep::DecodeWebpAnimation(b) => webp_in::begin_webp_post(read, Ok(b)),
        },
        decoder_for(lowercased(ext@)) matches Some(Decoder::Still) ==> (r matches LoadStep::Done(x)
            && static_in::load_static_post(name@, read, x)),
{
    let (d, lower) = pick_decoder(ext);
    match d {
        Some(Decoder::Gif) => LoadStep::Done(gif_in::load_gif(name, read)),
        Some(Decoder::Webp) => match webp_in::begin_webp(name, read) {
            Ok(bytes) => LoadStep::DecodeWebpAnimation(bytes),
            Err(e) => LoadStep::Done(Err(e)),
        },
        Some(Decoder::Still) => LoadStep::Done(static_in::load_static(name, read)),
        None => LoadStep::Done(Err(AppError::UnsupportedFormat(lower))),
    }
}

/// The NeuQuant `speed` of each GIF quality preset.
pub open spec fn speed_of(quality: GifQuality) -> i32 {
    match quality {
        GifQuality::High => 3i32,
        GifQuality::Balanced => 10i32,
        GifQuality::Fast => 22i32,
    }
}

/// GIF quality preset to the NeuQuant `speed` of the `gif` crate
/// (1 = slowest and best ... 30 = fastest and worst).
pub fn gif_speed_for(quality: GifQuality) -> (r: i32)
    ensures
        r == speed_of(quality),
        1 <= r <= 30,
{
    match quality {
        GifQuality::High => 3,
        GifQuality::Balanced => 10,
        GifQuality::Fast => 22,
    }
}

} // verus!
