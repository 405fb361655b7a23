// Concrete cases of the library's contracts and laws: edit outcomes, undo
// and redo, playback timing, the byte-level decoders and their checks,
// export helpers, and the crop geometry of the views.

use gifsennin_rust::codec::gif_in::{accept_gif_frame, decode_err, loop_count_from, read_loop_count, GifRawFrame, GifRepeat};
use gifsennin_rust::codec::gif_out::{delay_centis, to_u16_dim};
use gifsennin_rust::codec::png_seq::frame_entry_name;
use gifsennin_rust::codec::static_in::load_static;
use gifsennin_rust::codec::webp_in::{
    decode_anim, decode_static, finish, frame_interval, frame_to_rgba, precheck_budget, still_to_animation,
    PixelLayout, WebpAnimation, WebpFrame, WebpStill,
};
use gifsennin_rust::codec::webp_out::{webp_canvas, webp_timestamps};
use gifsennin_rust::codec::{encode_gif, gif_speed_for, is_supported, load_any, DecodedAnimation, DecodedFrame, LoadStep};
use gifsennin_rust::errors::AppError;
use gifsennin_rust::model::editing::EditOutcome;
use gifsennin_rust::model::{Action, Edit, Frame, FrameId, GifQuality, Model, Project, ResizeFilter, MEMORY_BUDGET_BYTES};
use gifsennin_rust::render::{draft_corners, draft_from_corners, edit_label_key, opposite_corner, shortcut_tip, Corner, CropDraft};
use gifsennin_rust::text::{decimal_string, fill_placeholders, replace_all, to_lowercase};
use std::path::PathBuf;
use std::sync::Arc;

fn anim(n: usize, w: u32, h: u32, dur: u32) -> DecodedAnimation {
    DecodedAnimation {
        width: w,
        height: h,
        loop_count: 0,
        frames: (0..n)
            .map(|i| DecodedFrame { rgba: vec![i as u8; (w * h * 4) as usize], duration_ms: dur })
            .collect(),
    }
}

fn project(n: usize) -> Project {
    Project::from_decoded(PathBuf::from("p.gif"), anim(n, 4, 4, 100), 0, 0).unwrap()
}

// ── project edits ──

#[test]
fn edit_outcomes_recorded_unchanged_over_budget() {
    let mut p = project(3);
    let first = p.order[0];
    assert_eq!(p.edit(Edit::DeleteFrames { ids: vec![] }), EditOutcome::Unchanged);
    assert_eq!(p.edit(Edit::Resize { width: 4, height: 4, filter: ResizeFilter::Nearest }), EditOutcome::Unchanged);
    assert_eq!(p.edit(Edit::Resize { width: 0, height: 9, filter: ResizeFilter::Nearest }), EditOutcome::Unchanged);
    // 3 frames × 30000² × 4 bytes
    assert_eq!(
        p.edit(Edit::Resize { width: 30000, height: 30000, filter: ResizeFilter::Nearest }),
        EditOutcome::OverBudget(3 * 30000 * 30000 * 4)
    );
    assert!(!p.history.can_undo());
    assert_eq!(p.edit(Edit::DeleteFrames { ids: vec![first] }), EditOutcome::Recorded);
    assert_eq!(p.frame_count(), 2);
    assert!(p.history.can_undo());
}

#[test]
fn transforms_number_frames_with_fresh_ids() {
    let mut p = project(2);
    let before: Vec<FrameId> = p.order.clone();
    assert_eq!(p.edit(Edit::RotateRight), EditOutcome::Recorded);
    // the store handed out ids 0 and 1; the rotated frames get 2 and 3
    assert_eq!(before, vec![FrameId(0), FrameId(1)]);
    assert_eq!(p.order, vec![FrameId(2), FrameId(3)]);
    assert_eq!(p.store.next_id(), 4);
    // the old frames stay for undo
    assert_eq!(p.store.len(), 4);
    assert!(p.undo());
    assert_eq!(p.order, before);
    assert!(p.redo());
    assert_eq!(p.order, vec![FrameId(2), FrameId(3)]);
    assert!(!p.redo());
}

#[test]
fn set_loop_is_recorded_even_without_change() {
    let mut p = project(1);
    assert_eq!(p.loop_count, 0);
    assert_eq!(p.edit(Edit::SetLoop { infinite: true }), EditOutcome::Recorded);
    assert_eq!(p.loop_count, 0);
    assert_eq!(p.edit(Edit::SetLoop { infinite: false }), EditOutcome::Recorded);
    assert_eq!(p.loop_count, 1);
    assert!(p.undo());
    assert_eq!(p.loop_count, 0);
}

#[test]
fn undo_without_history_changes_nothing() {
    let mut p = project(2);
    let s = p.snapshot();
    assert!(!p.undo());
    assert!(!p.redo());
    assert_eq!(p.snapshot(), s);
}

#[test]
fn crop_clamps_the_rectangle_to_the_canvas() {
    let mut p = project(1);
    assert_eq!(p.edit(Edit::Crop { x: 3, y: 3, w: 10, h: 10 }), EditOutcome::Recorded);
    assert_eq!(p.canvas, (1, 1));
    assert_eq!(p.frame_at(0).unwrap().as_rgba().len(), 4);
}

// ── playback ──

#[test]
fn remaining_time_rounds_up_and_stays_positive() {
    let mut m = Model::new();
    m.apply(Action::LoadFinished(Ok(project(2))));
    assert!(m.playback.playing);
    assert_eq!(m.playback_remaining_ms(), Some(100));
    m.tick_playback(40_500);
    assert_eq!(m.project.as_ref().unwrap().view_index, 0);
    // 59.5 ms left, rounded up; exact in microseconds
    assert_eq!(m.playback_remaining_ms(), Some(60));
    assert_eq!(m.playback_remaining_us(), Some(59_500));
    // a long gap counts as one second: 10 frames of 100 ms, back to frame 0
    m.tick_playback(5_000_000);
    assert_eq!(m.project.as_ref().unwrap().view_index, 0);
    assert_eq!(m.playback.acc_us, 40_500);
    m.apply(Action::PlayPause);
    assert!(!m.playback.playing);
    assert_eq!(m.playback.acc_us, 0);
    assert_eq!(m.playback_remaining_ms(), None);
}

#[test]
fn default_model_is_empty_and_ready() {
    let m = Model::default();
    assert!(m.project.is_none());
    assert!(!m.busy());
    assert!(!m.dirty());
    assert_eq!(m.next_frame_id, 0);
}

// ── GIF decoding helpers ──

#[test]
fn gif_frames_are_accepted_under_the_budget_with_rounded_delays() {
    let mut frames: Vec<DecodedFrame> = Vec::new();
    let mut total: u64 = 0;
    let r = accept_gif_frame(&mut frames, &mut total, GifRawFrame { rgba: vec![1; 8], delay_num: 25, delay_den: 10 });
    assert!(r.is_ok());
    assert_eq!(frames[0].duration_ms, 3); // 2.5 ms rounds to 3
    accept_gif_frame(&mut frames, &mut total, GifRawFrame { rgba: vec![1; 8], delay_num: 7, delay_den: 0 }).unwrap();
    assert_eq!(frames[1].duration_ms, 0);
    assert_eq!(total, 16);
    let mut big_total = MEMORY_BUDGET_BYTES - 4;
    let mut none: Vec<DecodedFrame> = Vec::new();
    match accept_gif_frame(&mut none, &mut big_total, GifRawFrame { rgba: vec![0; 8], delay_num: 1, delay_den: 1 }) {
        Err(AppError::TooLarge { needed, budget }) => {
            assert_eq!(needed, MEMORY_BUDGET_BYTES + 4);
            assert_eq!(budget, MEMORY_BUDGET_BYTES);
        }
        _ => panic!("expected TooLarge"),
    }
    assert!(none.is_empty());
}

#[test]
fn gif_loop_count_from_repeat_setting() {
    assert_eq!(loop_count_from(None), 0);
    assert_eq!(loop_count_from(Some(GifRepeat::Infinite)), 0);
    assert_eq!(loop_count_from(Some(GifRepeat::Finite(0))), 0);
    assert_eq!(loop_count_from(Some(GifRepeat::Finite(5))), 5);
    // not a GIF header at all
    assert_eq!(read_loop_count(b"not a gif"), 0);
    // an encoded GIF with three loops
    let f = Arc::new(Frame::from_rgba(vec![200; 4 * 4 * 4], 4, 4, 50).unwrap());
    let mut buf = Vec::new();
    encode_gif(&[f], 3, GifQuality::High, &mut buf).unwrap();
    assert_eq!(read_loop_count(&buf), 3);
}

#[test]
fn gif_decode_errors_name_the_file() {
    match decode_err("a.gif", "broken") {
        AppError::Decode(m) => assert_eq!(m, "a.gif: broken"),
        _ => panic!("expected Decode"),
    }
    match done(load_any("GIF", "junk.gif", Ok(b"GIF89a".to_vec()))) {
        Err(AppError::Decode(m)) => assert!(m.starts_with("junk.gif: ")),
        _ => panic!("expected Decode"),
    }
}

// ── dispatch by extension ──

#[test]
fn supported_extensions_are_case_insensitive() {
    assert!(is_supported(Some("GIF")));
    assert!(is_supported(Some("jpeg")));
    assert!(is_supported(Some("WebP")));
    assert!(!is_supported(Some("tiff")));
    assert!(!is_supported(None));
    assert_eq!(to_lowercase("PnG"), "png");
    match done(load_any("TXT", "a.txt", Ok(vec![]))) {
        Err(AppError::UnsupportedFormat(e)) => assert_eq!(e, "txt"),
        _ => panic!("expected UnsupportedFormat"),
    }
}

#[test]
fn failed_reads_follow_the_format() {
    let e = || std::io::Error::new(std::io::ErrorKind::NotFound, "gone");
    assert!(matches!(done(load_any("webp", "a.webp", Err(e()))), Err(AppError::Io(_))));
    match done(load_any("png", "a.png", Err(e()))) {
        Err(AppError::Decode(m)) => assert_eq!(m, "a.png: gone"),
        _ => panic!("expected Decode"),
    }
    match done(load_any("gif", "a.gif", Err(e()))) {
        Err(AppError::Decode(m)) => assert_eq!(m, "a.gif: gone"),
        _ => panic!("expected Decode"),
    }
}

#[test]
fn still_png_loads_as_one_frame() {
    let f = Frame::from_rgba(vec![10, 20, 30, 255, 40, 50, 60, 255], 2, 1, 1).unwrap();
    let png = gifsennin_rust::codec::encode_png(&f).unwrap();
    let a = load_static("one.png", Ok(png)).unwrap();
    assert_eq!((a.width, a.height, a.loop_count), (2, 1, 0));
    assert_eq!(a.frames.len(), 1);
    assert_eq!(a.frames[0].duration_ms, 100);
    assert_eq!(a.frames[0].rgba, vec![10, 20, 30, 255, 40, 50, 60, 255]);
}

#[test]
fn still_jpeg_loads_with_its_size() {
    let img = image::RgbImage::from_pixel(8, 4, image::Rgb([200, 100, 50]));
    let mut jpeg = Vec::new();
    image::codecs::jpeg::JpegEncoder::new_with_quality(&mut jpeg, 90)
        .encode_image(&img)
        .unwrap();
    assert_eq!(&jpeg[..3], &[0xff, 0xd8, 0xff]);
    let a = load_static("one.jpg", Ok(jpeg)).unwrap();
    assert_eq!((a.width, a.height, a.loop_count), (8, 4, 0));
    assert_eq!(a.frames.len(), 1);
    assert_eq!(a.frames[0].rgba.len(), 8 * 4 * 4);
    assert_eq!(a.frames[0].duration_ms, 100);
}

#[test]
fn renumbering_moves_frames_and_selection() {
    let mut p = project(3);
    p.selection = vec![FrameId(0), FrameId(2)];
    p.anchor = Some(FrameId(2));
    let before: Vec<Vec<u8>> = p.order.iter().map(|id| p.store.get(*id).unwrap().as_rgba().to_vec()).collect();
    p.renumber_from(10);
    assert_eq!(p.order, vec![FrameId(10), FrameId(11), FrameId(12)]);
    assert_eq!(p.selection, vec![FrameId(10), FrameId(12)]);
    assert_eq!(p.anchor, Some(FrameId(12)));
    assert_eq!(p.store.len(), 3);
    assert_eq!(p.store.next_id(), 13);
    let after: Vec<Vec<u8>> = p.order.iter().map(|id| p.store.get(*id).unwrap().as_rgba().to_vec()).collect();
    assert_eq!(before, after);
}

#[test]
fn a_document_with_history_is_installed_as_it_is() {
    let mut p = project(2);
    assert_eq!(p.edit(Edit::RotateLeft), EditOutcome::Recorded);
    let ids = p.order.clone();
    let mut m = Model::new();
    m.apply(Action::LoadFinished(Ok(p)));
    assert_eq!(m.project.as_ref().unwrap().order, ids);
}

// ── WebP helpers ──

/// A RIFF/WEBP container with a VP8X chunk for the canvas and `frames`
/// empty ANMF chunks.
fn riff(w: u32, h: u32, frames: usize) -> Vec<u8> {
    let mut b = b"RIFF\0\0\0\0WEBP".to_vec();
    b.extend_from_slice(b"VP8X");
    b.extend_from_slice(&10u32.to_le_bytes());
    b.extend_from_slice(&[0, 0, 0, 0]);
    b.extend_from_slice(&(w - 1).to_le_bytes()[0..3]);
    b.extend_from_slice(&(h - 1).to_le_bytes()[0..3]);
    for _ in 0..frames {
        b.extend_from_slice(b"ANMF");
        b.extend_from_slice(&0u32.to_le_bytes());
    }
    b
}

#[test]
fn riff_precheck_refuses_announced_oversize() {
    assert!(precheck_budget(b"not riff").is_ok());
    assert!(precheck_budget(&riff(100, 100, 3)).is_ok());
    match precheck_budget(&riff(16384, 16384, 2)) {
        Err(AppError::TooLarge { needed, budget }) => {
            assert_eq!(needed, 16384 * 16384 * 4 * 2);
            assert_eq!(budget, MEMORY_BUDGET_BYTES);
        }
        _ => panic!("expected TooLarge"),
    }
    // no ANMF chunk counts as one frame
    match precheck_budget(&riff(21000, 21000, 0)) {
        Err(AppError::TooLarge { needed, .. }) => assert_eq!(needed, 21000 * 21000 * 4),
        _ => panic!("expected TooLarge"),
    }
}

#[test]
fn frame_intervals_from_end_times() {
    assert_eq!(frame_interval(0, 100), 100);
    assert_eq!(frame_interval(100, 300), 200);
    assert_eq!(frame_interval(300, 300), 100);
    assert_eq!(frame_interval(300, 200), 100);
    assert_eq!(frame_interval(i32::MIN, i32::MAX), i32::MAX as u32);
}

fn wframe(w: u32, h: u32, layout: PixelLayout, data: Vec<u8>, t: i32) -> WebpFrame {
    WebpFrame { width: w, height: h, layout, data, time_ms: t }
}

#[test]
fn frames_are_placed_top_left_on_the_canvas() {
    // a 1×1 RGB frame on a 2×1 canvas: opaque everywhere, black outside
    let f = wframe(1, 1, PixelLayout::Rgb, vec![1, 2, 3], 0);
    assert_eq!(frame_to_rgba(&f, 2, 1).unwrap(), vec![1, 2, 3, 255, 0, 0, 0, 255]);
    // an RGBA frame: transparent outside
    let f = wframe(1, 1, PixelLayout::Rgba, vec![1, 2, 3, 4], 0);
    assert_eq!(frame_to_rgba(&f, 1, 2).unwrap(), vec![1, 2, 3, 4, 0, 0, 0, 0]);
    match frame_to_rgba(&wframe(2, 2, PixelLayout::Rgba, vec![0; 3], 0), 2, 2) {
        Err(AppError::Decode(m)) => assert_eq!(m, "webp: frame buffer 3 bytes < expected 16 bytes"),
        _ => panic!("expected Decode"),
    }
    match frame_to_rgba(&wframe(3, 1, PixelLayout::Rgb, vec![0; 9], 0), 2, 2) {
        Err(AppError::Decode(m)) => assert_eq!(m, "webp: frame 3x1 larger than canvas 2x2"),
        _ => panic!("expected Decode"),
    }
}

#[test]
fn decoded_animation_durations_and_loop() {
    let a = WebpAnimation {
        loop_count: 70000,
        frames: vec![
            wframe(1, 1, PixelLayout::Rgba, vec![9, 9, 9, 9], 40),
            wframe(1, 1, PixelLayout::Rgba, vec![8, 8, 8, 8], 40),
            wframe(1, 1, PixelLayout::Rgba, vec![7, 7, 7, 7], 100),
        ],
    };
    let d = decode_anim("x.webp", a).unwrap();
    assert_eq!((d.width, d.height, d.loop_count), (1, 1, 65535));
    let durations: Vec<u32> = d.frames.iter().map(|f| f.duration_ms).collect();
    assert_eq!(durations, vec![40, 100, 60]);
    assert_eq!(d.frames[2].rgba, vec![7, 7, 7, 7]);
    match decode_anim("x.webp", WebpAnimation { loop_count: 0, frames: vec![] }) {
        Err(AppError::Decode(m)) => assert_eq!(m, "webp: no frames decoded: x.webp"),
        _ => panic!("expected Decode"),
    }
    match decode_anim("x.webp", WebpAnimation { loop_count: 0, frames: vec![wframe(0, 3, PixelLayout::Rgba, vec![], 1)] }) {
        Err(AppError::Decode(m)) => assert_eq!(m, "webp: invalid canvas 0x3: x.webp"),
        _ => panic!("expected Decode"),
    }
}

#[test]
fn still_images_widen_rgb_and_report_failures() {
    let s = WebpStill { width: 2, height: 1, has_alpha: false, data: vec![1, 2, 3, 4, 5, 6] };
    let a = still_to_animation("s.webp", Some(s), "no frames").unwrap();
    assert_eq!(a.frames[0].rgba, vec![1, 2, 3, 255, 4, 5, 6, 255]);
    assert_eq!(a.frames[0].duration_ms, 100);
    match still_to_animation("s.webp", None, "no frames") {
        Err(AppError::Decode(m)) => assert_eq!(m, "webp decode failed (anim: no frames): s.webp"),
        _ => panic!("expected Decode"),
    }
    let short = WebpStill { width: 2, height: 2, has_alpha: true, data: vec![0; 5] };
    match still_to_animation("s.webp", Some(short), "x") {
        Err(AppError::Decode(m)) => assert_eq!(m, "webp: static buffer 5 < expected 16 bytes: s.webp"),
        _ => panic!("expected Decode"),
    }
    // a still WebP encoded losslessly comes back through the still decoder
    let px = vec![10u8, 20, 30, 255, 40, 50, 60, 255];
    let bytes = webp::Encoder::from_rgba(&px, 2, 1).encode_lossless().to_vec();
    let a = decode_static("e.webp", &bytes, "none").unwrap();
    assert_eq!((a.width, a.height), (2, 1));
    assert_eq!(a.frames[0].rgba.len(), 8);
    assert_eq!(&a.frames[0].rgba[0..3], &[10, 20, 30]);
}

#[test]
fn finish_checks_the_budget() {
    let ok = finish(vec![DecodedFrame { rgba: vec![0; 4], duration_ms: 1 }], 1, 1, 3).unwrap();
    assert_eq!(ok.loop_count, 3);
    let big = DecodedFrame { rgba: vec![0; (MEMORY_BUDGET_BYTES / 2 + 1) as usize], duration_ms: 1 };
    let big2 = DecodedFrame { rgba: vec![0; (MEMORY_BUDGET_BYTES / 2 + 1) as usize], duration_ms: 1 };
    match finish(vec![big, big2], 1, 1, 0) {
        Err(AppError::TooLarge { needed, .. }) => assert_eq!(needed, MEMORY_BUDGET_BYTES + 2),
        _ => panic!("expected TooLarge"),
    }
}

// ── export helpers ──

#[test]
fn gif_delays_and_dimensions() {
    assert_eq!(delay_centis(0), 0);
    assert_eq!(delay_centis(104), 10);
    assert_eq!(delay_centis(105), 11);
    assert_eq!(delay_centis(u32::MAX), u16::MAX);
    assert_eq!(to_u16_dim(65535, "w").unwrap(), 65535);
    match to_u16_dim(65536, "canvas width") {
        Err(AppError::Encode(m)) => assert_eq!(m, "canvas width 65536 exceeds GIF u16 limit"),
        _ => panic!("expected Encode"),
    }
    assert_eq!(gif_speed_for(GifQuality::High), 3);
    assert_eq!(gif_speed_for(GifQuality::Balanced), 10);
    assert_eq!(gif_speed_for(GifQuality::Fast), 22);
}

#[test]
fn gif_encoding_leaves_the_output_alone_on_error() {
    let wide = Arc::new(Frame::from_rgba(vec![0; 70000 * 4], 70000, 1, 10).unwrap());
    let mut out = vec![1u8, 2];
    assert!(encode_gif(&[wide], 0, GifQuality::Fast, &mut out).is_err());
    assert_eq!(out, vec![1, 2]);
    let small = Arc::new(Frame::from_rgba(vec![0; 4], 1, 1, 10).unwrap());
    let n = encode_gif(&[small], 0, GifQuality::Fast, &mut out).unwrap();
    assert_eq!(out.len() as u64, 2 + n);
    assert_eq!(&out[0..2], &[1, 2]);
}

#[test]
fn webp_export_timing_and_canvas() {
    let f = |ms: u32, w: u32| Arc::new(Frame::from_rgba(vec![0; (w * 4) as usize], w, 1, ms).unwrap());
    let frames = vec![f(100, 2), f(250, 2), f(u32::MAX, 2), f(5, 2)];
    assert_eq!(webp_timestamps(&frames), vec![0, 100, 350, i32::MAX]);
    assert_eq!(webp_canvas(&frames).unwrap(), (2, 1));
    match webp_canvas(&[f(1, 2), f(1, 3)]) {
        Err(AppError::Encode(m)) => assert_eq!(m, "frame size mismatch with canvas"),
        _ => panic!("expected Encode"),
    }
}

#[test]
fn zip_entry_names_count_from_one() {
    assert_eq!(frame_entry_name(0), "frame_0001.png");
    assert_eq!(frame_entry_name(41), "frame_0042.png");
    assert_eq!(frame_entry_name(12344), "frame_12345.png");
    assert_eq!(decimal_string(0), "0");
    assert_eq!(decimal_string(1_000_000_007), "1000000007");
}

// ── views ──

#[test]
fn crop_draft_geometry() {
    let d = draft_from_corners((100, 80), (30, 50), (10, 20));
    assert_eq!(d, CropDraft { x: 10, y: 20, w: 21, h: 31 });
    let corners = draft_corners(d);
    assert_eq!(corners[0], (Corner::TopLeft, (10, 20)));
    assert_eq!(corners[3], (Corner::BottomRight, (30, 50)));
    assert_eq!(opposite_corner(d, Corner::TopLeft), (30, 50));
    assert_eq!(opposite_corner(d, Corner::TopRight), (10, 50));
    assert_eq!(opposite_corner(d, Corner::BottomLeft), (30, 20));
    assert_eq!(opposite_corner(d, Corner::BottomRight), (10, 20));
    // beyond the canvas the draft is clamped
    let d = draft_from_corners((10, 10), (5, 5), (200, 200));
    assert_eq!(d, CropDraft { x: 5, y: 5, w: 5, h: 5 });
}

#[test]
fn edit_labels_and_tooltips() {
    assert_eq!(edit_label_key(&Edit::RotateLeft), "edit.rotl");
    assert_eq!(edit_label_key(&Edit::DeleteFrames { ids: vec![] }), "edit.delete");
    assert_eq!(edit_label_key(&Edit::SetLoop { infinite: true }), "edit.loop");
    assert_eq!(shortcut_tip("Undo", "Ctrl+Z", None), "Undo (Ctrl+Z)");
    assert_eq!(shortcut_tip("Undo", "Ctrl+Z", Some("Crop")), "Undo (Ctrl+Z) · Crop");
}

// ── review follow-ups ──

#[test]
fn select_all_keeps_selection_ascending() {
    let mut m = Model::new();
    m.apply(Action::LoadFinished(Ok(project(3))));
    let last = m.project.as_ref().unwrap().order[2];
    let first = m.project.as_ref().unwrap().order[0];
    m.apply(Action::Edit(Edit::Reorder { moved: vec![last], before: Some(first) }));
    m.apply(Action::SelectAll);
    let p = m.project.as_ref().unwrap();
    assert_eq!(p.order, vec![FrameId(2), FrameId(0), FrameId(1)]);
    assert_eq!(p.selection, vec![FrameId(0), FrameId(1), FrameId(2)]);
}

#[test]
fn placeholders_are_filled_like_str_replace() {
    assert_eq!(replace_all("a{x}b{x}", "{x}", "12"), "a12b12");
    assert_eq!(replace_all("aaa", "aa", "b"), "ba");
    assert_eq!(replace_all("ab", "abc", "z"), "ab");
    assert_eq!(replace_all("", "x", "y"), "");
    assert_eq!(replace_all("日本{n}語", "{n}", "ü"), "日本ü語");
    assert_eq!(
        fill_placeholders("{size} of {total}", &[("size", "3 MB".to_string()), ("total", "9 MB".to_string())]),
        "3 MB of 9 MB"
    );
    // pairs are applied in order: an earlier value can bring a later placeholder
    assert_eq!(fill_placeholders("{a}", &[("a", "{b}".to_string()), ("b", "x".to_string())]), "x");
    assert_eq!(fill_placeholders("no placeholders", &[("a", "x".to_string())]), "no placeholders");
    for (t, k, v) in [("x{k}y{k}", "k", "--"), ("{k}{k}{k}", "k", "{k}")] {
        let pat = format!("{{{k}}}");
        assert_eq!(fill_placeholders(t, &[(k, v.to_string())]), t.replace(&pat, v));
    }
}

/// The outcome of a load that needs no animation decoder.
fn done(step: LoadStep) -> Result<DecodedAnimation, AppError> {
    match step {
        LoadStep::Done(r) => r,
        LoadStep::DecodeWebpAnimation(_) => panic!("unexpected WebP animation step"),
    }
}

/// A RIFF/WEBP file whose chunks are the given (tag, payload) pairs.
fn riff_chunks(chunks: &[(&[u8; 4], Vec<u8>)]) -> Vec<u8> {
    let mut body = b"WEBP".to_vec();
    for (tag, data) in chunks {
        body.extend_from_slice(*tag);
        body.extend_from_slice(&(data.len() as u32).to_le_bytes());
        body.extend_from_slice(data);
        if data.len() % 2 == 1 {
            body.push(0);
        }
    }
    let mut out = b"RIFF".to_vec();
    out.extend_from_slice(&(body.len() as u32).to_le_bytes());
    out.extend_from_slice(&body);
    out
}

fn vp8x(w: u32, h: u32) -> Vec<u8> {
    let mut d = vec![0u8; 4];
    d.extend_from_slice(&(w - 1).to_le_bytes()[..3]);
    d.extend_from_slice(&(h - 1).to_le_bytes()[..3]);
    d
}

#[test]
fn webp_opening_canvas_beyond_32_bits_refused() {
    // the budget scan sees the trailing 1 x 1 canvas; the decoders would
    // read the opening 40000 x 40000 one
    let bytes = riff_chunks(&[(b"VP8X", vp8x(40000, 40000)), (b"VP8X", vp8x(1, 1))]);
    assert_eq!(gifsennin_rust::codec::webp_in::head_canvas_bytes(&bytes), Some(4 * 40000 * 40000));
    match gifsennin_rust::codec::webp_in::begin_webp("big.webp", Ok(bytes.clone())) {
        Err(AppError::TooLarge { needed, budget }) => {
            assert_eq!(needed, 4 * 40000 * 40000);
            assert_eq!(budget, MEMORY_BUDGET_BYTES);
        }
        other => panic!("expected TooLarge, got {:?}", other.map(|b| b.len())),
    }
    // the second step checks the container again, whatever the decoder said
    match gifsennin_rust::codec::load_webp("big.webp", &bytes, Err("not run".to_string())) {
        Err(AppError::TooLarge { needed, .. }) => assert_eq!(needed, 4 * 40000 * 40000),
        other => panic!("expected TooLarge, got {:?}", other.map(|a| a.frames.len())),
    }
    assert!(matches!(done(load_any("webp", "big.webp", Ok(bytes))), Err(AppError::TooLarge { .. })));
}

#[test]
fn gif_encode_succeeds_with_positive_size() {
    let f = Arc::new(Frame::from_rgba(vec![10; 4 * 4 * 4], 4, 4, 100).unwrap());
    let mut out = vec![1u8, 2, 3];
    let n = encode_gif(&[f.clone(), f], 0, GifQuality::Fast, &mut out).unwrap();
    assert!(n >= 14);
    assert_eq!(out.len() as u64, 3 + n);
    assert_eq!(&out[..3], &[1, 2, 3]);
    assert_eq!(&out[3..9], b"GIF89a");
}
