//! PNG export of one frame, and of all frames as a zip archive.
//!
//! Entries are named `frame_0001.png`, `frame_0002.png`, ... counting from
//! 1 like the frame numbers in the views, and are stored deflated.
use crate::errors::AppError;
use crate::model::frame::Frame;
use crate::text::{push_zero_padded, zero_padded};
use std::io::Cursor;
use std::io::Write;
use std::sync::Arc;
use vstd::prelude::*;
use vstd::string::StringExecFns;

verus! {

/// What the `image` crate makes of `width` x `height` RGBA pixels (exactly
/// `width * height * 4` bytes) as PNG: the PNG bytes or the encoder's
/// message.
pub uninterp spec fn png_of(width: u32, height: u32, rgba: Seq<u8>) -> Result<Seq<u8>, Seq<char>>;

/// Builds an `RgbaImage` over the pixels with `ImageBuffer::from_raw`
/// (which accepts a buffer of exactly `width * height * 4` bytes) and
/// writes it as PNG into memory (`DynamicImage::write_to` with
/// `ImageFormat::Png`); an encoder failure comes back as its message. The
/// result depends on the arguments alone. The PNG encoder asserts that the
/// buffer length is exact, hence the `requires`.
#[verifier::external_body]
fn png_encode(width: u32, height: u32, rgba: Vec<u8>) -> (r: Result<Vec<u8>, String>)
    requires
        rgba@.len() == width * height * 4,
    ensures
        match r {
            Ok(b) => png_of(width, height, rgba@) == Ok::<Seq<u8>, Seq<char>>(b@),
            Err(m) => png_of(width, height, rgba@) == Err::<Seq<u8>, Seq<char>>(m@),
        },
{
    match image::RgbaImage::from_raw(width, height, rgba) {
        Some(img) => {
            let mut buf = Cursor::new(Vec::new());
            image::DynamicImage::ImageRgba8(img).write_to(&mut buf, image::ImageFormat::Png).map(
                |_| buf.into_inner(),
            ).map_err(|e| e.to_string())
        },
        None => Err(String::new()),
    }
}

/// What `encode_png` returns for a frame: the PNG bytes, or an encode error
/// `png encode: <message>`.
pub open spec fn png_post(f: crate::model::frame::FrameView, r: Result<Vec<u8>, AppError>) -> bool {
    match png_of(f.width, f.height, f.pixels) {
        Err(e) => r matches Err(AppError::Encode(m)) && m@ == "png encode: "@ + e,
        Ok(b) => r matches Ok(v) && v@ == b,
    }
}

/// Encodes one frame as PNG bytes. (A frame's buffer always matches its
/// dimensions, so the buffer-size refusal of `ImageBuffer::from_raw`
/// cannot come.)
pub fn encode_png(frame: &Frame) -> (r: Result<Vec<u8>, AppError>)
    ensures
        png_post(frame@, r),
{
    let rgba = vstd::slice::slice_to_vec(frame.as_rgba());
    match png_encode(frame.width(), frame.height(), rgba) {
        Err(e) => {
            let mut m = String::from_str("png encode: ");
            m.append(e.as_str());
            proof {
                reveal_strlit("png encode: ");
            }
            Err(AppError::Encode(m))
        },
        Ok(b) => Ok(b),
    }
}

/// A zip archive being written into memory. The `zip` crate's
/// `ZipWriter<W>` cannot be declared as an outside type here (its
/// parameter is bounded by `std::io::Write + Seek`), so this holder is opaque; the
/// functions below are its only operations.
#[verifier::external_body]
pub struct ZipOut {
    zip: zip::ZipWriter<Cursor<Vec<u8>>>,
}

/// The entries written to an archive so far, in order: name and data.
pub uninterp spec fn zip_entries(z: ZipOut) -> Seq<(Seq<char>, Seq<u8>)>;

/// The bytes of a zip archive holding these entries in order, each stored
/// deflated at the default level, as the `zip` crate writes it. (Built
/// without the crate's `time` feature, entries carry the fixed default
/// timestamp, not the clock's.)
pub uninterp spec fn zip_archive_of(entries: Seq<(Seq<char>, Seq<u8>)>) -> Seq<u8>;

/// Every entry holds at most `ZIP_SAFE_BYTES` of data.
pub open spec fn entries_within(e: Seq<(Seq<char>, Seq<u8>)>) -> bool {
    forall|i: int| 0 <= i < e.len() ==> #[trigger] e[i].1.len() <= ZIP_SAFE_BYTES
}

/// An entry of that name exists.
pub open spec fn has_entry(e: Seq<(Seq<char>, Seq<u8>)>, name: Seq<char>) -> bool {
    exists|i: int| 0 <= i < e.len() && #[trigger] e[i].0 == name
}

/// Data an entry may hold and still be written without the `zip` crate's
/// large-file option: 2 GiB. Deflate output exceeds its input by far less
/// than 1%, so the entry's sizes then stay below the 4 GiB limit that the
/// crate checks entry by entry without that option (offsets past 4 GiB get
/// the crate's zip64 fields without it).
pub const ZIP_SAFE_BYTES: u64 = 0x8000_0000;

/// Calls `ZipWriter::new` over an empty in-memory cursor.
#[verifier::external_body]
fn zip_new() -> (r: ZipOut)
    ensures
        zip_entries(r) == Seq::<(Seq<char>, Seq<u8>)>::empty(),
{
    ZipOut { zip: zip::ZipWriter::new(Cursor::new(Vec::new())) }
}

/// Calls `ZipWriter::start_file` with the entry name and default options
/// set to the deflate method, which closes the open entry and opens a new,
/// empty one; a failure comes back as its message. It fails on a name
/// already used (the crate refuses duplicates) and when the closed entry's
/// compressed size passes 4 GiB without the large-file option; writes to an
/// in-memory cursor do not fail, so a new name after entries of at most
/// `ZIP_SAFE_BYTES` each succeeds. The crate unwraps the name's byte length into 16 bits,
/// so a name must stay below 64 KiB: 16383 characters of at most four bytes.
#[verifier::external_body]
fn zip_start_file(z: &mut ZipOut, name: &str) -> (r: Result<(), String>)
    requires
        name@.len() <= 16383,
    ensures
        !has_entry(zip_entries(*old(z)), name@) && entries_within(zip_entries(*old(z))) ==> r is Ok,
        r is Ok ==> zip_entries(*final(z)) == zip_entries(*old(z)).push((name@, Seq::<u8>::empty())),
{
    let options = zip::write::SimpleFileOptions::default().compression_method(zip::CompressionMethod::Deflated);
    z.zip.start_file(name, options).map_err(|e| e.to_string())
}

/// Calls `Write::write_all`, which adds the data to the open (last) entry;
/// a failure comes back as its message. With an entry open that then holds
/// at most `ZIP_SAFE_BYTES`, it succeeds (the crate refuses only an entry
/// passing 4 GiB without the large-file option, and writes to an in-memory
/// cursor do not fail).
#[verifier::external_body]
fn zip_write_all(z: &mut ZipOut, data: &[u8]) -> (r: Result<(), String>)
    ensures
        zip_entries(*old(z)).len() > 0 && zip_entries(*old(z)).last().1.len() + data@.len() <= ZIP_SAFE_BYTES
            ==> r is Ok,
        r is Ok && zip_entries(*old(z)).len() > 0 ==> zip_entries(*final(z)) == zip_entries(*old(z)).update(
            zip_entries(*old(z)).len() - 1,
            (zip_entries(*old(z)).last().0, zip_entries(*old(z)).last().1 + data@),
        ),
{
    z.zip.write_all(data).map_err(|e| e.to_string())
}

/// Calls `ZipWriter::finish` and hands back the archive bytes; a failure
/// comes back as its message. With entries of at most `ZIP_SAFE_BYTES`
/// each it succeeds (it closes the open entry and writes the central
/// directory to an in-memory cursor).
#[verifier::external_body]
fn zip_finish(z: ZipOut) -> (r: Result<Vec<u8>, String>)
    ensures
        entries_within(zip_entries(z)) ==> r is Ok,
        r matches Ok(b) ==> b@ == zip_archive_of(zip_entries(z)),
{
    z.zip.finish().map(|c| c.into_inner()).map_err(|e| e.to_string())
}

/// Name of the archive entry of frame `i` (0-based): `frame_0001.png` for
/// the first.
pub open spec fn entry_name(i: nat) -> Seq<char> {
    "frame_"@ + zero_padded(i + 1, 4) + ".png"@
}

/// Name of the archive entry of frame `i` (0-based).
pub fn frame_entry_name(i: usize) -> (r: String)
    requires
        i < usize::MAX,
    ensures
        r@ == entry_name(i as nat),
        r@.len() <= 30,
{
    proof {
        crate::text::lemma_pow10_20_beyond_u64();
        crate::text::lemma_decimal_len_le((i + 1) as nat, 20);
    }
    let mut s = String::from_str("frame_");
    push_zero_padded(&mut s, (i + 1) as u128, 4);
    s.append(".png");
    proof {
        reveal_strlit("frame_");
        reveal_strlit(".png");
        assert(s@ =~= entry_name(i as nat));
    }
    s
}

/// The PNG bytes of a frame that encodes.
pub open spec fn png_bytes(f: crate::model::frame::FrameView) -> Seq<u8> {
    png_of(f.width, f.height, f.pixels)->Ok_0
}

/// The archive entries for the first `n` frames: `frame_0001.png`, ...
/// holding each frame's PNG bytes.
pub open spec fn png_entries(frames: Seq<Arc<Frame>>, n: int) -> Seq<(Seq<char>, Seq<u8>)> {
    Seq::new(n as nat, |i: int| (entry_name(i as nat), png_bytes(frames[i]@)))
}

/// Distinct frames get distinct entry names.
proof fn lemma_entry_name_injective(i: nat, j: nat)
    requires
        entry_name(i) == entry_name(j),
    ensures
        i == j,
{
    let a = entry_name(i);
    let b = entry_name(j);
    reveal_strlit("frame_");
    reveal_strlit(".png");
    assert(a.len() == b.len());
    assert(a.subrange(6, a.len() - 4) =~= zero_padded(i + 1, 4));
    assert(b.subrange(6, b.len() - 4) =~= zero_padded(j + 1, 4));
    crate::text::lemma_zero_padded_injective(i + 1, j + 1, 4);
}

/// Every frame encodes to PNG, in at most `ZIP_SAFE_BYTES` bytes.
pub open spec fn pngs_fit(frames: Seq<Arc<Frame>>) -> bool {
    forall|i: int| #![trigger frames[i]]
        0 <= i < frames.len() ==> png_of(frames[i]@.width, frames[i]@.height, frames[i]@.pixels) is Ok
            && png_bytes(frames[i]@).len() <= ZIP_SAFE_BYTES
}

/// Encodes all frames as PNG entries of a zip archive (see the module
/// comment for names). An empty list is an encode error; so is a frame
/// that cannot be encoded (the first one is reported as `encode_png`
/// reports it) and a failure of the archive writer, which cannot happen
/// while each PNG takes at most `ZIP_SAFE_BYTES`.
pub fn encode_png_zip(frames: &[Arc<Frame>]) -> (r: Result<Vec<u8>, AppError>)
    ensures
        frames@.len() == 0 ==> (r matches Err(AppError::Encode(m)) && m@ == "no frames"@),
        r is Ok ==> forall|i: int| #![trigger frames@[i]]
            0 <= i < frames@.len() ==> png_of(frames@[i]@.width, frames@[i]@.height, frames@[i]@.pixels) is Ok,
        r matches Ok(b) ==> b@ == zip_archive_of(png_entries(frames@, frames@.len() as int)),
        frames@.len() > 0 && pngs_fit(frames@) ==> r is Ok,
        frames@.len() > 0 ==> (r matches Err(e) ==> e is Encode),
{
    if frames.len() == 0 {
        proof {
            reveal_strlit("no frames");
        }
        return Err(AppError::Encode(String::from_str("no frames")));
    }
    let mut z = zip_new();
    let n = frames.len();
    proof {
        assert(zip_entries(z) =~= png_entries(frames@, 0));
    }
    let mut i: usize = 0;
    while i < n
        invariant
            n == frames@.len(),
            n > 0,
            0 <= i <= n,
            forall|j: int| #![trigger frames@[j]]
                0 <= j < i ==> png_of(frames@[j]@.width, frames@[j]@.height, frames@[j]@.pixels) is Ok,
            zip_entries(z) == png_entries(frames@, i as int),
            pngs_fit(frames@) ==> entries_within(zip_entries(z)),
        decreases n - i,
    {
        let png = match encode_png(&frames[i]) {
            Ok(b) => b,
            Err(e) => {
                return Err(e);
            },
        };
        let name = frame_entry_name(i);
        proof {
            if has_entry(png_entries(frames@, i as int), name@) {
                let j = choose|j: int| 0 <= j < i && #[trigger] png_entries(frames@, i as int)[j].0 == name@;
                lemma_entry_name_injective(j as nat, i as nat);
            }
        }
        match zip_start_file(&mut z, name.as_str()) {
            Ok(()) => {},
            Err(e) => {
                let mut m = String::from_str("zip start_file: ");
                m.append(e.as_str());
                return Err(AppError::Encode(m));
            },
        }
        proof {
            assert(png@ == png_bytes(frames@[i as int]@));
            let e1 = png_entries(frames@, i as int).push((name@, Seq::<u8>::empty()));
            assert(zip_entries(z) == e1);
            assert(e1.last().1.len() == 0);
        }
        match zip_write_all(&mut z, png.as_slice()) {
            Ok(()) => {},
            Err(e) => {
                let mut m = String::from_str("zip write: ");
                m.append(e.as_str());
                return Err(AppError::Encode(m));
            },
        }
        proof {
            assert(png@ == png_bytes(frames@[i as int]@));
            assert(zip_entries(z) =~= png_entries(frames@, i + 1));
            if pngs_fit(frames@) {
                assert forall|j: int| 0 <= j < zip_entries(z).len() implies #[trigger] zip_entries(z)[j].1.len()
                    <= ZIP_SAFE_BYTES by {
                    assert(zip_entries(z)[j].1 == png_bytes(frames@[j]@));
                }
            }
        }
        i = i + 1;
    }
    match zip_finish(z) {
        Ok(bytes) => Ok(bytes),
        Err(e) => {
            let mut m = String::from_str("zip finish: ");
            m.append(e.as_str());
            Err(AppError::Encode(m))
        },
    }
}

/// The archive that `encode_png_zip` writes (`zip_archive_of` of
/// `png_entries`) gives every frame an entry of its own, in order: entry
/// `k` holds exactly the PNG that the `image` crate makes of frame `k`'s
/// own size and pixels, and entries of distinct frames have distinct
/// names, `frame_0001.png` for the first.
pub proof fn law_png_zip_entry_per_frame(frames: Seq<Arc<Frame>>, k: int, l: int)
    requires
        0 <= k < frames.len(),
        0 <= l < frames.len(),
        png_of(frames[k]@.width, frames[k]@.height, frames[k]@.pixels) is Ok,
    ensures
        png_entries(frames, frames.len() as int).len() == frames.len(),
        Ok::<Seq<u8>, Seq<char>>(png_entries(frames, frames.len() as int)[k].1) == png_of(
            frames[k]@.width,
            frames[k]@.height,
            frames[k]@.pixels,
        ),
        png_entries(frames, frames.len() as int)[k].0 == "frame_"@ + crate::text::zero_padded((k + 1) as nat, 4)
            + ".png"@,
        k != l ==> png_entries(frames, frames.len() as int)[k].0 != png_entries(frames, frames.len() as int)[l].0,
{
    if k != l && png_entries(frames, frames.len() as int)[k].0 == png_entries(frames, frames.len() as int)[l].0 {
        lemma_entry_name_injective(k as nat, l as nat);
    }
}

} // verus!
