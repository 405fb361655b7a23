// Codec round trips: encode → decode, with the byte-level decoders fed the
// encoded bytes directly. GIF (palette error ≤ 48 per channel, durations
// exact to the hundredth of a second), animated WebP (lossless pixels,
// durations from timestamps), PNG zip, single PNG.

use gifsennin_rust::codec::webp_out::{webp_canvas, webp_timestamps};
use gifsennin_rust::codec::webp_in::{begin_webp, PixelLayout, WebpAnimation, WebpFrame};
use gifsennin_rust::codec::{encode_gif, encode_png, encode_png_zip, load_any, load_gif, load_webp, LoadStep};
use gifsennin_rust::model::{Frame, GifQuality};
use image::GenericImageView;
use std::sync::Arc;

const SIZE: u32 = 32;
const CENTER: u32 = SIZE / 2;

/// Runs the `webp` crate's animation decoder and hands out its frames as
/// plain values.
fn decode_webp_animation(bytes: &[u8]) -> Result<WebpAnimation, String> {
    let anim = webp::AnimDecoder::new(bytes).decode()?;
    let frames = anim.get_frames(0..anim.len()).unwrap_or_default();
    let frames = frames
        .iter()
        .map(|f| WebpFrame {
            width: f.width(),
            height: f.height(),
            layout: match f.get_layout() {
                webp::PixelLayout::Rgb => PixelLayout::Rgb,
                webp::PixelLayout::Rgba => PixelLayout::Rgba,
            },
            data: f.get_image().to_vec(),
            time_ms: f.get_time_ms(),
        })
        .collect();
    Ok(WebpAnimation { loop_count: anim.loop_count, frames })
}

/// Solid 32×32 frame.
fn solid_frame(rgb: [u8; 3], duration_ms: u32) -> Frame {
    let mut rgba = vec![0u8; (SIZE * SIZE * 4) as usize];
    for px in rgba.chunks_exact_mut(4) {
        px[0] = rgb[0];
        px[1] = rgb[1];
        px[2] = rgb[2];
        px[3] = 255;
    }
    Frame::from_rgba(rgba, SIZE, SIZE, duration_ms).expect("32x32x4 invariant")
}

/// Red / green / blue, 100 / 200 / 300 ms.
fn three_frames() -> Vec<Arc<Frame>> {
    [
        ([255u8, 0, 0], 100u32),
        ([0, 255, 0], 200),
        ([0, 0, 255], 300),
    ]
    .into_iter()
    .map(|(rgb, ms)| Arc::new(solid_frame(rgb, ms)))
    .collect()
}

/// RGB of the center pixel.
fn center_rgb(rgba: &[u8]) -> [u8; 3] {
    let off = ((CENTER * SIZE + CENTER) * 4) as usize;
    [rgba[off], rgba[off + 1], rgba[off + 2]]
}

/// Channel error ≤ tol.
fn assert_color_close(got: [u8; 3], want: [u8; 3], tol: i32) {
    for i in 0..3 {
        let d = i32::from(got[i]) - i32::from(want[i]);
        assert!(
            d.abs() <= tol,
            "channel {i}: got {got:?}, want {want:?}, diff {d}"
        );
    }
}

/// Animated WebP of the frames as the application encodes it, lossless.
fn encode_webp_lossless(frames: &[Arc<Frame>], loop_count: u16) -> Vec<u8> {
    let (w, h) = webp_canvas(frames).expect("same-size frames");
    let stamps = webp_timestamps(frames);
    let mut config = webp::WebPConfig::new().expect("config");
    config.quality = 80.0;
    config.lossless = 1;
    let buffers: Vec<Arc<Vec<u8>>> = frames.iter().map(|f| f.arc_data()).collect();
    let mut encoder = webp::AnimEncoder::new(w, h, &config);
    encoder.set_loop_count(i32::from(loop_count));
    for (b, ts) in buffers.iter().zip(stamps) {
        encoder.add_frame(webp::AnimFrame::from_rgba(b.as_slice(), w, h, ts));
    }
    encoder.try_encode().expect("webp encode").to_vec()
}

// ── (a) GIF round trip ──

#[test]
fn gif_roundtrip_frames_durations_colors() {
    let frames = three_frames();

    // encode into memory
    let mut buf: Vec<u8> = Vec::new();
    let bytes = encode_gif(&frames, 0, GifQuality::Balanced, &mut buf).expect("gif encode");
    assert!(bytes > 0);
    assert_eq!(bytes, buf.len() as u64);

    let anim = load_gif("test.gif", Ok(buf)).expect("gif decode");

    assert_eq!(anim.width, SIZE);
    assert_eq!(anim.height, SIZE);
    assert_eq!(anim.frames.len(), 3);
    assert_eq!(anim.loop_count, 0, "encoded infinite → decoded 0");

    // GIF delays are hundredths of a second: 100/200/300 ms come back (±10 ms)
    let durations: Vec<u32> = anim.frames.iter().map(|f| f.duration_ms).collect();
    for (got, want) in durations.iter().zip([100, 200, 300]) {
        assert!(
            (i64::from(*got) - i64::from(want)).abs() <= 10,
            "duration {got} vs {want}"
        );
    }

    // solid frames keep their color through quantisation (≤ 48 per channel)
    let want_colors = [[255u8, 0, 0], [0, 255, 0], [0, 0, 255]];
    for (frame, want) in anim.frames.iter().zip(want_colors) {
        assert_eq!(frame.rgba.len(), (SIZE * SIZE * 4) as usize);
        assert_color_close(center_rgb(&frame.rgba), want, 48);
    }
}

#[test]
fn gif_loop_count_roundtrip_finite() {
    let frames = three_frames();
    let mut buf: Vec<u8> = Vec::new();
    encode_gif(&frames, 2, GifQuality::Fast, &mut buf).expect("gif encode");
    let anim = load_gif("loop.gif", Ok(buf)).expect("gif decode");
    assert_eq!(anim.loop_count, 2, "NETSCAPE Finite(2) survives roundtrip");
}

// ── (b) animated WebP round trip ──

#[test]
fn webp_roundtrip_frames_durations_colors_lossless() {
    let frames = three_frames();

    let data = encode_webp_lossless(&frames, 0);
    assert!(data.len() > 0);

    let bytes = begin_webp("test.webp", Ok(data.clone())).expect("webp container");
    let anim = load_webp("test.webp", &bytes, decode_webp_animation(&bytes)).expect("webp decode");
    match load_any("WEBP", "test.webp", Ok(data)) {
        LoadStep::DecodeWebpAnimation(b) => assert_eq!(b, bytes),
        LoadStep::Done(_) => panic!("expected the animation step"),
    }

    assert_eq!(anim.width, SIZE);
    assert_eq!(anim.height, SIZE);
    assert_eq!(anim.frames.len(), 3);

    // durations from the end times: the first two exact (100/200); the last
    // one is libwebp's average of the previous ones ≈ 150 (±10 ms)
    let durations: Vec<u32> = anim.frames.iter().map(|f| f.duration_ms).collect();
    for (got, want) in durations.iter().zip([100, 200, 150]) {
        assert!(
            (i64::from(*got) - i64::from(want)).abs() <= 10,
            "duration {got} vs {want}"
        );
    }

    // lossless: the center pixel comes back exactly
    let want_colors = [[255u8, 0, 0], [0, 255, 0], [0, 0, 255]];
    for (frame, want) in anim.frames.iter().zip(want_colors) {
        assert_eq!(frame.rgba.len(), (SIZE * SIZE * 4) as usize);
        let got = center_rgb(&frame.rgba);
        assert_eq!(got, want, "lossless webp center pixel must be exact");
    }
}

// ── (c) PNG zip round trip ──

#[test]
fn png_zip_entries_names_and_count() {
    let frames = three_frames();
    let zip_bytes = encode_png_zip(&frames).expect("zip encode");

    let mut archive = zip::ZipArchive::new(std::io::Cursor::new(zip_bytes)).expect("open zip archive");
    assert_eq!(archive.len(), 3);

    let names: Vec<String> = (0..archive.len())
        .map(|i| archive.by_index(i).expect("entry").name().to_string())
        .collect();
    assert_eq!(
        names,
        vec![
            "frame_0001.png".to_string(),
            "frame_0002.png".to_string(),
            "frame_0003.png".to_string(),
        ]
    );

    // first entry: lossless PNG, center pixel exact
    let mut entry = archive.by_index(0).expect("entry 0");
    let mut png_bytes = Vec::new();
    std::io::Read::read_to_end(&mut entry, &mut png_bytes).expect("read entry");
    let img = image::load_from_memory(&png_bytes).expect("decode entry png");
    assert_eq!(img.dimensions(), (SIZE, SIZE));
    let rgba = img.to_rgba8();
    let px = rgba.get_pixel(CENTER, CENTER);
    assert_eq!([px[0], px[1], px[2]], [255, 0, 0]);
}

// ── (d) single PNG round trip ──

#[test]
fn png_single_frame_roundtrip() {
    let frame = solid_frame([12, 200, 77], 100);
    let png_bytes = encode_png(&frame).expect("png encode");

    let img = image::load_from_memory(&png_bytes).expect("decode png");
    assert_eq!(img.dimensions(), (SIZE, SIZE));
    let rgba = img.to_rgba8();
    let px = rgba.get_pixel(CENTER, CENTER);
    assert_eq!([px[0], px[1], px[2], px[3]], [12, 200, 77, 255]);
}

// ── empty input ──

#[test]
fn encoders_reject_empty_input() {
    let mut buf: Vec<u8> = Vec::new();
    assert!(encode_gif(&[], 0, GifQuality::Balanced, &mut buf).is_err());
    assert!(webp_canvas(&[]).is_err());
    assert!(encode_png_zip(&[]).is_err());
}
